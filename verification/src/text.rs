//! Text helpers the screens and the files are built from: character
//! access, decimal numbers, whitespace, and the std calls they rest on.

use vstd::prelude::*;
use vstd::string::*;

verus! {

/// `String::push`. Claimed: the text gains `c` at its end and is
/// otherwise unchanged, as its documentation says.
#[verifier::external_body]
pub(crate) fn push_char(s: &mut String, c: char)
    ensures
        final(s)@ == old(s)@.push(c),
{
    s.push(c);
}

/// Whether two texts are the same, character for character.
pub fn same_text(a: &str, b: &str) -> (r: bool)
    ensures
        r == (a@ == b@),
{
    let n = a.unicode_len();
    if n != b.unicode_len() {
        return false;
    }
    let mut i: usize = 0;
    while i < n
        invariant
            n == a@.len(),
            n == b@.len(),
            i <= n,
            forall|j: int| 0 <= j < i ==> a@[j] == b@[j],
        decreases n - i,
    {
        if a.get_char(i) != b.get_char(i) {
            return false;
        }
        i = i + 1;
    }
    assert(a@ =~= b@);
    true
}

/// The decimal digit character of `d` (`0` to `9`).
pub open spec fn digit_char(d: int) -> char {
    if d == 0 { '0' }
    else if d == 1 { '1' }
    else if d == 2 { '2' }
    else if d == 3 { '3' }
    else if d == 4 { '4' }
    else if d == 5 { '5' }
    else if d == 6 { '6' }
    else if d == 7 { '7' }
    else if d == 8 { '8' }
    else { '9' }
}

fn exec_digit_char(d: u64) -> (c: char)
    requires
        d < 10,
    ensures
        c == digit_char(d as int),
{
    if d == 0 { '0' }
    else if d == 1 { '1' }
    else if d == 2 { '2' }
    else if d == 3 { '3' }
    else if d == 4 { '4' }
    else if d == 5 { '5' }
    else if d == 6 { '6' }
    else if d == 7 { '7' }
    else if d == 8 { '8' }
    else { '9' }
}

/// The decimal digits of `n`, most significant first, without leading
/// zeros (`0` is one digit).
pub open spec fn decimal(n: nat) -> Seq<char>
    decreases n,
{
    if n < 10 {
        seq![digit_char(n as int)]
    } else {
        decimal(n / 10).push(digit_char((n % 10) as int))
    }
}

/// Zeros in front of `s` up to `width` characters.
pub open spec fn zero_padded(s: Seq<char>, width: int) -> Seq<char> {
    if s.len() >= width {
        s
    } else {
        Seq::new((width - s.len()) as nat, |i: int| '0') + s
    }
}

/// An integer as `format!("{:0w$}")` writes it: the sign first, then
/// zeros up to `width` characters in all.
pub open spec fn signed_padded(n: int, width: int) -> Seq<char> {
    if n < 0 {
        seq!['-'] + zero_padded(decimal((-n) as nat), width - 1)
    } else {
        zero_padded(decimal(n as nat), width)
    }
}

/// Appends the decimal digits of `n`.
pub fn push_decimal(out: &mut String, n: u64)
    ensures
        final(out)@ == old(out)@ + decimal(n as nat),
    decreases n,
{
    if n >= 10 {
        push_decimal(out, n / 10);
    }
    push_char(out, exec_digit_char(n % 10));
    assert(decimal(n as nat) == if n < 10 { seq![digit_char(n as int)] } else { decimal((n / 10) as nat).push(digit_char((n % 10) as int)) });
}

/// Appends `n` as `format!("{:0width$}")` writes it.
pub fn push_padded(out: &mut String, n: i64, width: usize)
    ensures
        final(out)@ == old(out)@ + signed_padded(n as int, width as int),
{
    let ghost start = out@;
    let mag: u64 = if n < 0 { (0 - (n as i128)) as u64 } else { n as u64 };
    let w: usize = if n < 0 {
        push_char(out, '-');
        if width > 0 { width - 1 } else { 0 }
    } else {
        width
    };
    let ghost after_sign = out@;
    let mut digits = String::new();
    push_decimal(&mut digits, mag);
    let len = digits.as_str().unicode_len();
    let mut k: usize = len;
    while k < w
        invariant
            len == decimal(mag as nat).len(),
            len <= k <= w || (k == len && w < len),
            out@ == after_sign + Seq::new((k - len) as nat, |i: int| '0'),
        decreases w - k,
    {
        push_char(out, '0');
        k = k + 1;
        assert(out@ =~= after_sign + Seq::new((k - len) as nat, |i: int| '0'));
    }
    out.append(digits.as_str());
    proof {
        let zp = zero_padded(decimal(mag as nat), w as int);
        if len >= w {
            assert(out@ =~= after_sign + zp);
        } else {
            assert(out@ =~= after_sign + zp);
        }
        if n < 0 {
            assert(out@ =~= start + signed_padded(n as int, width as int));
        } else {
            assert(out@ =~= start + signed_padded(n as int, width as int));
        }
    }
}

pub open spec fn is_digit(c: char) -> bool {
    48 <= (c as u32) <= 57
}

/// The number written by a run of decimal digits.
pub open spec fn digits_value(s: Seq<char>) -> int
    decreases s.len(),
{
    if s.len() == 0 {
        0
    } else {
        digits_value(s.drop_last()) * 10 + ((s.last() as u32) - 48)
    }
}

/// The digits of a number read back give the number.
pub proof fn lemma_decimal_digits(n: nat)
    ensures
        decimal(n).len() > 0,
        all_digits(decimal(n)),
        digits_value(decimal(n)) == n,
        decimal(n)[0] != '+',
        decimal(n)[0] != '-',
        !decimal(n).contains('-'),
    decreases n,
{
    let k = n % 10;
    assert((digit_char(k as int) as u32) - 48 == k) by {
        if k == 0 {} else if k == 1 {} else if k == 2 {} else if k == 3 {} else if k == 4 {}
        else if k == 5 {} else if k == 6 {} else if k == 7 {} else if k == 8 {} else {}
    }
    assert(is_digit(digit_char(k as int)));
    if n < 10 {
        let d = decimal(n);
        assert(d == seq![digit_char(n as int)]);
        assert(d.drop_last() =~= Seq::<char>::empty());
        assert(d.last() == digit_char(k as int));
        assert(digits_value(d) == digits_value(d.drop_last()) * 10 + ((d.last() as u32) - 48));
    } else {
        lemma_decimal_digits(n / 10);
        let d = decimal(n);
        assert(d == decimal(n / 10).push(digit_char(k as int)));
        assert(d.drop_last() =~= decimal(n / 10));
        assert(d.last() == digit_char(k as int));
        assert(digits_value(d) == digits_value(d.drop_last()) * 10 + ((d.last() as u32) - 48));
        assert(!d.contains('-')) by {
            if d.contains('-') {
                let k = choose|k: int| 0 <= k < d.len() && d[k] == '-';
                if k < d.len() - 1 {
                    assert(decimal(n / 10)[k] == '-');
                }
            }
        }
    }
}

proof fn lemma_zeros_value(k: nat)
    ensures
        digits_value(Seq::new(k, |i: int| '0')) == 0,
        all_digits(Seq::new(k, |i: int| '0')),
    decreases k,
{
    if k > 0 {
        lemma_zeros_value((k - 1) as nat);
        assert(Seq::new(k, |i: int| '0').drop_last() =~= Seq::new((k - 1) as nat, |i: int| '0'));
    }
}

proof fn lemma_leading_zeros(z: nat, s: Seq<char>)
    requires
        all_digits(s),
    ensures
        digits_value(Seq::new(z, |i: int| '0') + s) == digits_value(s),
    decreases s.len(),
{
    let zs = Seq::new(z, |i: int| '0');
    if s.len() == 0 {
        assert(zs + s =~= zs);
        lemma_zeros_value(z);
    } else {
        lemma_leading_zeros(z, s.drop_last());
        assert((zs + s).drop_last() =~= zs + s.drop_last());
    }
}

/// A zero-padded number, read back, is the number; it is all digits.
pub proof fn lemma_padded_digits(n: nat, width: int)
    ensures
        zero_padded(decimal(n), width).len() > 0,
        all_digits(zero_padded(decimal(n), width)),
        digits_value(zero_padded(decimal(n), width)) == n,
        zero_padded(decimal(n), width)[0] != '+',
        !zero_padded(decimal(n), width).contains('-'),
{
    lemma_decimal_digits(n);
    let d = decimal(n);
    if d.len() < width {
        let z = (width - d.len()) as nat;
        let zs = Seq::new(z, |i: int| '0');
        lemma_leading_zeros(z, d);
        lemma_zeros_value(z);
        let p = zs + d;
        assert(all_digits(p)) by {
            assert forall|i: int| 0 <= i < p.len() implies is_digit(p[i]) by {
                if i < z {
                } else {
                    assert(p[i] == d[i - z]);
                }
            }
        }
        assert(!p.contains('-')) by {
            if p.contains('-') {
                let k = choose|k: int| 0 <= k < p.len() && p[k] == '-';
                assert(is_digit(p[k]));
            }
        }
    }
}

/// What `str::parse::<u32>` gives: one optional `+`, then one or more
/// decimal digits whose value fits in a `u32`.
pub open spec fn parse_u32_spec(s: Seq<char>) -> Option<u32> {
    parse_digits(unsigned_part(s))
}

/// `s` without one leading `+`.
pub open spec fn unsigned_part(s: Seq<char>) -> Seq<char> {
    if s.len() > 0 && s[0] == '+' { s.drop_first() } else { s }
}

pub open spec fn all_digits(ds: Seq<char>) -> bool {
    forall|i: int| 0 <= i < ds.len() ==> is_digit(ds[i])
}

/// One or more decimal digits whose value fits in a `u32`.
pub open spec fn parse_digits(ds: Seq<char>) -> Option<u32> {
    if ds.len() > 0 && all_digits(ds) && digits_value(ds) <= u32::MAX {
        Some(digits_value(ds) as u32)
    } else {
        None
    }
}

proof fn lemma_digits_value_grows(s: Seq<char>, k: int)
    requires
        0 <= k <= s.len(),
        forall|i: int| 0 <= i < s.len() ==> is_digit(s[i]),
    ensures
        digits_value(s) >= digits_value(s.take(k)),
        digits_value(s.take(k)) >= 0,
    decreases s.len(),
{
    if s.len() == 0 {
        assert(s.take(k) =~= s);
    } else if k == s.len() {
        assert(s.take(k) =~= s);
        lemma_digits_value_grows(s.drop_last(), k - 1);
        assert(s.drop_last().take(k - 1) =~= s.drop_last());
    } else {
        lemma_digits_value_grows(s.drop_last(), k);
        assert(s.drop_last().take(k) =~= s.take(k));
        lemma_digits_value_grows(s.drop_last(), s.len() - 1);
        assert(s.drop_last().take(s.len() - 1) =~= s.drop_last());
    }
}

/// Parses a decimal `u32` as `str::parse::<u32>` does.
pub fn parse_u32(s: &Vec<char>) -> (r: Option<u32>)
    ensures
        r == parse_u32_spec(s@),
{
    let n = s.len();
    let start: usize = if n > 0 && s[0] == '+' { 1 } else { 0 };
    let ghost ds = unsigned_part(s@);
    assert(ds =~= s@.subrange(start as int, n as int));
    if start == n {
        return None;
    }
    let mut acc: u64 = 0;
    let mut i: usize = start;
    while i < n
        invariant
            n == s@.len(),
            start <= i <= n,
            ds =~= s@.subrange(start as int, n as int),
            ds == unsigned_part(s@),
            ds.len() > 0,
            forall|j: int| 0 <= j < i - start ==> is_digit(ds[j]),
            acc == digits_value(ds.take(i - start)),
            acc <= u32::MAX,
        decreases n - i,
    {
        let c = s[i];
        let v = c as u32;
        assert(ds[i - start] == s@[i as int]);
        if v < 48 || v > 57 {
            assert(!is_digit(ds[i - start]));
            assert(!all_digits(ds));
            return None;
        }
        assert(ds.take(i - start + 1).drop_last() =~= ds.take(i - start));
        acc = acc * 10 + (v - 48) as u64;
        i = i + 1;
        assert(ds.take(i - start).last() == ds[i - start - 1]);
        assert(acc == digits_value(ds.take(i - start)));
        if acc > 4294967295 {
            proof {
                if all_digits(ds) {
                    lemma_digits_value_grows(ds, i - start);
                }
            }
            return None;
        }
    }
    assert(ds.take(n - start) =~= ds);
    Some(acc as u32)
}

/// `s` cut at every `sep`, as `str::split` cuts it: one piece more than
/// there are separators, empty pieces included.
pub open spec fn split_char(s: Seq<char>, sep: char) -> Seq<Seq<char>>
    decreases s.len(),
{
    if s.len() == 0 {
        seq![seq![]]
    } else {
        let p = split_char(s.drop_last(), sep);
        if s.last() == sep {
            p.push(seq![])
        } else {
            p.update(p.len() - 1, p.last().push(s.last()))
        }
    }
}

proof fn lemma_split_char_nonempty(s: Seq<char>, sep: char)
    ensures
        split_char(s, sep).len() >= 1,
    decreases s.len(),
{
    if s.len() > 0 {
        lemma_split_char_nonempty(s.drop_last(), sep);
    }
}

/// A text without `sep` is one piece.
proof fn lemma_split_whole(s: Seq<char>, sep: char)
    requires
        !s.contains(sep),
    ensures
        split_char(s, sep) == seq![s],
    decreases s.len(),
{
    if s.len() == 0 {
        assert(s =~= Seq::<char>::empty());
    } else {
        assert(!s.drop_last().contains(sep)) by {
            if s.drop_last().contains(sep) {
                let k = choose|k: int| 0 <= k < s.drop_last().len() && s.drop_last()[k] == sep;
                assert(s[k] == sep);
            }
        }
        lemma_split_whole(s.drop_last(), sep);
        assert(s.last() != sep) by {
            if s.last() == sep {
                assert(s[s.len() - 1] == sep);
            }
        }
        assert(s.drop_last().push(s.last()) =~= s);
        let p = split_char(s.drop_last(), sep);
        assert(p.len() == 1);
        assert(p.last() == s.drop_last());
        assert(split_char(s, sep) == p.update(p.len() - 1, p.last().push(s.last())));
        assert(seq![s.drop_last()].update(0, s.drop_last().push(s.last())) =~= seq![s]);
    }
}

/// Cutting at a separator between two texts cuts each text apart.
proof fn lemma_split_join(x: Seq<char>, sep: char, y: Seq<char>)
    ensures
        split_char(x + seq![sep] + y, sep) == split_char(x, sep) + split_char(y, sep),
    decreases y.len(),
{
    lemma_split_char_nonempty(x, sep);
    if y.len() == 0 {
        assert(x + seq![sep] + y =~= (x + seq![sep]));
        assert((x + seq![sep]).drop_last() =~= x);
    } else {
        lemma_split_join(x, sep, y.drop_last());
        lemma_split_char_nonempty(y.drop_last(), sep);
        assert((x + seq![sep] + y).drop_last() =~= x + seq![sep] + y.drop_last());
        let a = split_char(x, sep);
        let b = split_char(y.drop_last(), sep);
        if y.last() == sep {
            assert((a + b).push(seq![]) =~= a + b.push(seq![]));
        } else {
            let ab = a + b;
            assert(ab.update(ab.len() - 1, ab.last().push(y.last())) =~= a + b.update(b.len() - 1, b.last().push(y.last())));
        }
    }
}

/// `a-b-c` cut at `-` is `a`, `b`, `c` when none of them holds a `-`.
pub proof fn lemma_split_three(a: Seq<char>, b: Seq<char>, c: Seq<char>, sep: char)
    requires
        !a.contains(sep),
        !b.contains(sep),
        !c.contains(sep),
    ensures
        split_char(a + seq![sep] + b + seq![sep] + c, sep) == seq![a, b, c],
{
    lemma_split_join(a + seq![sep] + b, sep, c);
    lemma_split_join(a, sep, b);
    lemma_split_whole(a, sep);
    lemma_split_whole(b, sep);
    lemma_split_whole(c, sep);
    assert(seq![a] + seq![b] + seq![c] =~= seq![a, b, c]);
}

/// The numbers among the pieces, in order: `filter_map(|x| x.parse().ok())`.
pub open spec fn parsed_numbers(pieces: Seq<Seq<char>>) -> Seq<u32>
    decreases pieces.len(),
{
    if pieces.len() == 0 {
        seq![]
    } else {
        let r = parsed_numbers(pieces.drop_last());
        match parse_u32_spec(pieces.last()) {
            Some(v) => r.push(v),
            None => r,
        }
    }
}

/// The numbers among the pieces of `s` cut at `sep`.
pub fn split_numbers(s: &str, sep: char) -> (r: Vec<u32>)
    ensures
        r@ == parsed_numbers(split_char(s@, sep)),
{
    let n = s.unicode_len();
    let mut out: Vec<u32> = Vec::new();
    let mut piece: Vec<char> = Vec::new();
    let mut i: usize = 0;
    while i < n
        invariant
            n == s@.len(),
            i <= n,
            split_char(s@.take(i as int), sep).len() >= 1,
            piece@ == split_char(s@.take(i as int), sep).last(),
            out@ == parsed_numbers(split_char(s@.take(i as int), sep).drop_last()),
        decreases n - i,
    {
        let c = s.get_char(i);
        let ghost before = split_char(s@.take(i as int), sep);
        assert(s@.take(i + 1).drop_last() =~= s@.take(i as int));
        if c == sep {
            match parse_u32(&piece) {
                Some(v) => out.push(v),
                None => {},
            }
            piece = Vec::new();
            proof {
                let after = split_char(s@.take(i + 1), sep);
                assert(after == before.push(seq![]));
                assert(after.drop_last() =~= before);
                assert(before =~= before.drop_last().push(before.last()));
            }
        } else {
            piece.push(c);
            proof {
                let after = split_char(s@.take(i + 1), sep);
                assert(after.drop_last() =~= before.drop_last());
            }
        }
        i = i + 1;
    }
    let ghost all = split_char(s@, sep);
    assert(s@.take(n as int) =~= s@);
    match parse_u32(&piece) {
        Some(v) => out.push(v),
        None => {},
    }
    assert(all =~= all.drop_last().push(all.last()));
    out
}

/// Unicode's White_Space characters, the ones `char::is_whitespace`
/// accepts.
pub open spec fn is_white_space(c: char) -> bool {
    let u = c as u32;
    ||| 9 <= u <= 13
    ||| u == 32
    ||| u == 0x85
    ||| u == 0xA0
    ||| u == 0x1680
    ||| 0x2000 <= u <= 0x200A
    ||| u == 0x2028
    ||| u == 0x2029
    ||| u == 0x202F
    ||| u == 0x205F
    ||| u == 0x3000
}

pub fn is_whitespace(c: char) -> (r: bool)
    ensures
        r == is_white_space(c),
{
    let u = c as u32;
    (9 <= u && u <= 13) || u == 32 || u == 0x85 || u == 0xA0 || u == 0x1680 || (0x2000 <= u && u
        <= 0x200A) || u == 0x2028 || u == 0x2029 || u == 0x202F || u == 0x205F || u == 0x3000
}

/// `s` without the white space at its start.
pub open spec fn trim_start_spec(s: Seq<char>) -> Seq<char>
    decreases s.len(),
{
    if s.len() > 0 && is_white_space(s[0]) { trim_start_spec(s.drop_first()) } else { s }
}

/// `s` without the white space at its end.
pub open spec fn trim_end_spec(s: Seq<char>) -> Seq<char>
    decreases s.len(),
{
    if s.len() > 0 && is_white_space(s.last()) { trim_end_spec(s.drop_last()) } else { s }
}

/// What `str::trim` leaves.
pub open spec fn trimmed(s: Seq<char>) -> Seq<char> {
    trim_end_spec(trim_start_spec(s))
}

/// `s` without white space at either end, as `str::trim` cuts it.
pub fn trim(s: &str) -> (r: String)
    ensures
        r@ == trimmed(s@),
{
    let n = s.unicode_len();
    let mut lo: usize = 0;
    assert(s@.subrange(0, n as int) =~= s@);
    while lo < n && is_whitespace(s.get_char(lo))
        invariant
            n == s@.len(),
            lo <= n,
            trim_start_spec(s@) == trim_start_spec(s@.subrange(lo as int, n as int)),
        decreases n - lo,
    {
        assert(s@.subrange(lo as int, n as int).drop_first() =~= s@.subrange(lo + 1, n as int));
        lo = lo + 1;
    }
    let ghost front = s@.subrange(lo as int, n as int);
    assert(trim_start_spec(s@) == front);
    let mut hi: usize = n;
    while hi > lo && is_whitespace(s.get_char(hi - 1))
        invariant
            n == s@.len(),
            lo <= hi <= n,
            front == s@.subrange(lo as int, n as int),
            trim_end_spec(front) == trim_end_spec(s@.subrange(lo as int, hi as int)),
        decreases hi,
    {
        assert(s@.subrange(lo as int, hi as int).drop_last() =~= s@.subrange(lo as int, hi - 1));
        hi = hi - 1;
    }
    String::from_str(s.substring_char(lo, hi))
}

/// Where `c` first occurs in `s`; -1 when it does not.
pub open spec fn index_of(s: Seq<char>, c: char) -> int
    decreases s.len(),
{
    if s.len() == 0 {
        -1
    } else if s[0] == c {
        0
    } else {
        let r = index_of(s.drop_first(), c);
        if r < 0 { -1 } else { r + 1 }
    }
}

proof fn lemma_index_of_skip(s: Seq<char>, c: char, i: int)
    requires
        0 <= i <= s.len(),
        forall|j: int| 0 <= j < i ==> s[j] != c,
    ensures
        index_of(s, c) == (if index_of(s.skip(i), c) < 0 { -1 } else { index_of(s.skip(i), c) + i }),
        -1 <= index_of(s, c) < s.len(),
        index_of(s, c) >= 0 ==> s[index_of(s, c)] == c,
    decreases i,
{
    if i == 0 {
        assert(s.skip(0) =~= s);
        lemma_index_of_range(s, c);
    } else {
        lemma_index_of_skip(s.drop_first(), c, i - 1);
        assert(s.drop_first().skip(i - 1) =~= s.skip(i));
        lemma_index_of_range(s, c);
    }
}

proof fn lemma_index_of_range(s: Seq<char>, c: char)
    ensures
        -1 <= index_of(s, c) < s.len(),
        index_of(s, c) >= 0 ==> s[index_of(s, c)] == c,
    decreases s.len(),
{
    if s.len() > 0 && s[0] != c {
        lemma_index_of_range(s.drop_first(), c);
    }
}

/// `s` cut at its first `n - 1` occurrences of `c`, as `str::splitn`
/// cuts it: the last piece keeps the rest, separators and all.
pub open spec fn splitn_spec(s: Seq<char>, n: nat, c: char) -> Seq<Seq<char>>
    decreases n,
{
    if n <= 1 {
        seq![s]
    } else {
        let i = index_of(s, c);
        if i < 0 { seq![s] } else { seq![s.take(i)] + splitn_spec(s.skip(i + 1), (n - 1) as nat, c) }
    }
}

fn find_char(s: &str, c: char) -> (r: Option<usize>)
    ensures
        match r {
            Some(i) => index_of(s@, c) == i,
            None => index_of(s@, c) == -1,
        },
{
    let n = s.unicode_len();
    let mut i: usize = 0;
    while i < n
        invariant
            n == s@.len(),
            i <= n,
            forall|j: int| 0 <= j < i ==> s@[j] != c,
        decreases n - i,
    {
        if s.get_char(i) == c {
            proof {
                lemma_index_of_skip(s@, c, i as int);
                assert(s@.skip(i as int)[0] == c);
            }
            return Some(i);
        }
        i = i + 1;
    }
    proof {
        lemma_index_of_skip(s@, c, n as int);
        assert(s@.skip(n as int).len() == 0);
    }
    None
}

/// Appends the trimmed pieces of `s` cut by `splitn(n, c)`.
fn push_split_trimmed(s: &str, n: usize, c: char, out: &mut Vec<String>)
    ensures
        final(out)@.len() == old(out)@.len() + splitn_spec(s@, n as nat, c).len(),
        forall|k: int| 0 <= k < old(out)@.len() ==> final(out)@[k] == old(out)@[k],
        forall|k: int| 0 <= k < splitn_spec(s@, n as nat, c).len()
            ==> #[trigger] final(out)@[old(out)@.len() + k]@ == trimmed(splitn_spec(s@, n as nat, c)[k]),
    decreases n,
{
    if n <= 1 {
        out.push(trim(s));
        return;
    }
    match find_char(s, c) {
        None => {
            out.push(trim(s));
        },
        Some(i) => {
            let len = s.unicode_len();
            proof { lemma_index_of_range(s@, c); }
            let head = s.substring_char(0, i);
            let rest = s.substring_char(i + 1, len);
            assert(head@ =~= s@.take(i as int));
            assert(rest@ =~= s@.skip(i + 1));
            let ghost before = out@;
            out.push(trim(head));
            let ghost mid = out@;
            push_split_trimmed(rest, n - 1, c, out);
            proof {
                let pieces = splitn_spec(s@, n as nat, c);
                let tail = splitn_spec(s@.skip(i + 1), (n - 1) as nat, c);
                assert(pieces == seq![s@.take(i as int)] + tail);
                assert forall|k: int| 0 <= k < pieces.len()
                    implies #[trigger] out@[before.len() + k]@ == trimmed(pieces[k]) by {
                    if k == 0 {
                        assert(out@[before.len() as int] == mid[before.len() as int]);
                    } else {
                        assert(out@[mid.len() + (k - 1)]@ == trimmed(tail[k - 1]));
                        assert(mid.len() + (k - 1) == before.len() + k);
                    }
                }
            }
        },
    }
}

/// The fields of a `name,a,b[,notes]` input: cut at the first three
/// commas, each field trimmed.
pub fn split_fields(input: &str) -> (r: Vec<String>)
    ensures
        r@.len() == splitn_spec(input@, 4, ',').len(),
        forall|k: int| 0 <= k < r@.len() ==> #[trigger] r@[k]@ == trimmed(splitn_spec(input@, 4, ',')[k]),
{
    let mut out: Vec<String> = Vec::new();
    push_split_trimmed(input, 4, ',', &mut out);
    assert forall|k: int| 0 <= k < out@.len() implies #[trigger] out@[k]@ == trimmed(splitn_spec(input@, 4, ',')[k]) by {
        assert(out@[0 + k] == out@[k]);
    }
    out
}

} // verus!
