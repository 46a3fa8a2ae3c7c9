//! The chart's half that is astro's own: the moment a chart is drawn
//! for, the colours of the bodies, and finding an object by what the
//! user types.

use vstd::prelude::*;
use vstd::string::*;
use crate::text::{same_text, push_char, trim, trimmed};

verus! {

/// One hour of the app's left pane: the moment a chart is drawn for.
#[derive(Clone, Copy, Debug)]
pub struct Moment {
    pub year: i32,
    pub month: u32,
    pub day: u32,
    pub hour: u32,
}

/// Where the hour keys of the chart take the selected hour (`index` of
/// `len` hours): `l`/`h` one hour on or back, `j`/`k` (and the page
/// keys) a day; `None` for other keys. Stops at the first and last hour.
pub open spec fn hour_step_spec(key: Seq<char>, index: int, len: int) -> Option<int> {
    if key == "l"@ {
        Some(if index + 1 < len - 1 { index + 1 } else { len - 1 })
    } else if key == "h"@ {
        Some(if index > 0 { index - 1 } else { 0 })
    } else if key == "j"@ || key == "PgDOWN"@ {
        Some(if index + 24 < len - 1 { index + 24 } else { len - 1 })
    } else if key == "k"@ || key == "PgUP"@ {
        Some(if index > 24 { index - 24 } else { 0 })
    } else {
        None
    }
}

pub fn hour_step(key: &str, index: usize, len: usize) -> (r: Option<usize>)
    requires
        key@ == "l"@ ==> len > 0 && index < usize::MAX,
        key@ == "j"@ || key@ == "PgDOWN"@ ==> len > 0 && index + 24 <= usize::MAX,
    ensures
        match r {
            Some(i) => hour_step_spec(key@, index as int, len as int) == Some(i as int),
            None => hour_step_spec(key@, index as int, len as int) is None,
        },
{
    if same_text(key, "l") {
        let last = len - 1;
        Some(if index + 1 < last { index + 1 } else { last })
    } else if same_text(key, "h") {
        Some(if index > 0 { index - 1 } else { 0 })
    } else if same_text(key, "j") || same_text(key, "PgDOWN") {
        let last = len - 1;
        Some(if index + 24 < last { index + 24 } else { last })
    } else if same_text(key, "k") || same_text(key, "PgUP") {
        Some(if index > 24 { index - 24 } else { 0 })
    } else {
        None
    }
}

/// The colour a body is drawn in.
pub open spec fn body_rgb_spec(name: Seq<char>) -> (u8, u8, u8) {
    if name == "sun"@ { (255, 225, 120) }
    else if name == "moon"@ { (235, 235, 225) }
    else if name == "mercury"@ { (190, 180, 170) }
    else if name == "venus"@ { (255, 245, 210) }
    else if name == "mars"@ { (235, 110, 70) }
    else if name == "jupiter"@ { (240, 205, 150) }
    else if name == "saturn"@ { (230, 205, 140) }
    else if name == "uranus"@ { (150, 220, 230) }
    else if name == "neptune"@ { (130, 160, 245) }
    else { (200, 200, 200) }
}

pub fn body_rgb(name: &str) -> (r: (u8, u8, u8))
    ensures
        r == body_rgb_spec(name@),
{
    if same_text(name, "sun") { (255, 225, 120) }
    else if same_text(name, "moon") { (235, 235, 225) }
    else if same_text(name, "mercury") { (190, 180, 170) }
    else if same_text(name, "venus") { (255, 245, 210) }
    else if same_text(name, "mars") { (235, 110, 70) }
    else if same_text(name, "jupiter") { (240, 205, 150) }
    else if same_text(name, "saturn") { (230, 205, 140) }
    else if same_text(name, "uranus") { (150, 220, 230) }
    else if same_text(name, "neptune") { (130, 160, 245) }
    else { (200, 200, 200) }
}

/// What `str::to_lowercase` makes of a text: Unicode's lowercase
/// mapping, which its tables decide.
pub uninterp spec fn lowercase_of(s: Seq<char>) -> Seq<char>;

/// `str::to_lowercase`. Claimed: the result depends on the text alone.
/// Left unsaid: which mapping Unicode's tables give.
#[verifier::external_body]
fn to_lowercase(s: &str) -> (r: String)
    ensures
        r@ == lowercase_of(s@),
{
    s.to_lowercase()
}

/// `s` without its spaces.
pub open spec fn without_spaces(s: Seq<char>) -> Seq<char>
    decreases s.len(),
{
    if s.len() == 0 {
        seq![]
    } else if s.last() == ' ' {
        without_spaces(s.drop_last())
    } else {
        without_spaces(s.drop_last()).push(s.last())
    }
}

/// How names are compared: lower case, spaces gone (`m 31` is `M31`).
pub open spec fn squashed(s: Seq<char>) -> Seq<char> {
    without_spaces(lowercase_of(s))
}

pub fn squash(s: &str) -> (r: String)
    ensures
        r@ == squashed(s@),
{
    let low = to_lowercase(s);
    let t = low.as_str();
    let n = t.unicode_len();
    let mut out = String::new();
    let mut i: usize = 0;
    while i < n
        invariant
            n == t@.len(),
            t@ == lowercase_of(s@),
            i <= n,
            out@ == without_spaces(t@.take(i as int)),
        decreases n - i,
    {
        let c = t.get_char(i);
        assert(t@.take(i + 1).drop_last() =~= t@.take(i as int));
        if c != ' ' {
            push_char(&mut out, c);
        }
        i = i + 1;
    }
    assert(t@.take(n as int) =~= t@);
    out
}

/// The names one deep-sky object goes by: its id (`M31`, `C14`), its
/// other designations (`NGC 224`, joined by `&`, `/` or `,`) and its
/// common name.
#[derive(Clone, Debug)]
pub struct DsoNames {
    pub id: String,
    pub alt: String,
    pub name: String,
}

pub open spec fn is_alt_sep(c: char) -> bool {
    c == '&' || c == '/' || c == ','
}

/// The designations in `alt`, cut at each separator.
pub open spec fn alt_parts(s: Seq<char>) -> Seq<Seq<char>>
    decreases s.len(),
{
    if s.len() == 0 {
        seq![seq![]]
    } else {
        let p = alt_parts(s.drop_last());
        if is_alt_sep(s.last()) {
            p.push(seq![])
        } else {
            p.update(p.len() - 1, p.last().push(s.last()))
        }
    }
}

proof fn lemma_alt_parts_nonempty(s: Seq<char>)
    ensures
        alt_parts(s).len() >= 1,
    decreases s.len(),
{
    if s.len() > 0 {
        lemma_alt_parts_nonempty(s.drop_last());
    }
}

/// An object answers to `q` by its id or one of its designations.
pub open spec fn named_exactly(d: DsoNames, q: Seq<char>) -> bool {
    ||| squashed(d.id@) == q
    ||| exists|k: int| 0 <= k < alt_parts(d.alt@).len() && squashed(#[trigger] alt_parts(d.alt@)[k]) == q
}

pub open spec fn contains_seq(hay: Seq<char>, needle: Seq<char>) -> bool {
    exists|k: int| 0 <= k <= hay.len() - needle.len() && #[trigger] hay.subrange(k, k + needle.len()) == needle
}

/// An object answers to `q` by part of its common name.
pub open spec fn named_partly(d: DsoNames, q: Seq<char>) -> bool {
    d.name@.len() > 0 && contains_seq(squashed(d.name@), q)
}

/// The object a typed name means: the first one whose id or another
/// designation it is, else the first whose common name holds it; none
/// for an empty query. Compared squashed (lower case, no spaces), after
/// trimming the query.
pub open spec fn find_spec(asked: Seq<char>, all: Seq<DsoNames>) -> Option<int> {
    let q = squashed(trimmed(asked));
    if q.len() == 0 {
        None
    } else if exists|i: int| 0 <= i < all.len() && named_exactly(#[trigger] all[i], q) {
        Some(choose|i: int| 0 <= i < all.len() && named_exactly(all[i], q)
            && forall|j: int| 0 <= j < i ==> !named_exactly(#[trigger] all[j], q))
    } else if exists|i: int| 0 <= i < all.len() && named_partly(#[trigger] all[i], q) {
        Some(choose|i: int| 0 <= i < all.len() && named_partly(all[i], q)
            && forall|j: int| 0 <= j < i ==> !named_partly(#[trigger] all[j], q))
    } else {
        None
    }
}

fn contains_text(hay: &str, needle: &str) -> (r: bool)
    ensures
        r == contains_seq(hay@, needle@),
{
    let n = hay.unicode_len();
    let m = needle.unicode_len();
    if m > n {
        return false;
    }
    let mut k: usize = 0;
    while k <= n - m
        invariant
            n == hay@.len(),
            m == needle@.len(),
            m <= n,
            k <= n - m + 1,
            forall|j: int| 0 <= j < k ==> #[trigger] hay@.subrange(j, j + m) != needle@,
        decreases n - m + 1 - k,
    {
        let mut same = true;
        let mut t: usize = 0;
        while t < m
            invariant
                n == hay@.len(),
                m == needle@.len(),
                k + m <= n,
                t <= m,
                same == forall|u: int| 0 <= u < t ==> hay@[k + u] == needle@[u],
            decreases m - t,
        {
            if hay.get_char(k + t) != needle.get_char(t) {
                same = false;
            }
            t = t + 1;
        }
        if same {
            assert(hay@.subrange(k as int, k + m) =~= needle@);
            return true;
        }
        assert(hay@.subrange(k as int, k + m)[0] == hay@[k as int]);
        proof {
            let u = choose|u: int| 0 <= u < m && hay@[k + u] != needle@[u];
            assert(hay@.subrange(k as int, k + m)[u] != needle@[u]);
        }
        k = k + 1;
    }
    false
}

/// Whether `d` answers to `q` by its id or a designation.
fn exact_match(d: &DsoNames, q: &str) -> (r: bool)
    ensures
        r == named_exactly(*d, q@),
{
    let id = squash(d.id.as_str());
    if same_text(id.as_str(), q) {
        return true;
    }
    let alt = d.alt.as_str();
    let n = alt.unicode_len();
    let mut piece = String::new();
    let mut i: usize = 0;
    while i < n
        invariant
            n == alt@.len(),
            alt@ == d.alt@,
            i <= n,
            alt_parts(alt@.take(i as int)).len() >= 1,
            piece@ == alt_parts(alt@.take(i as int)).last(),
            forall|k: int| 0 <= k < alt_parts(alt@.take(i as int)).len() - 1
                ==> squashed(#[trigger] alt_parts(alt@.take(i as int))[k]) != q@,
        decreases n - i,
    {
        let c = alt.get_char(i);
        let ghost before = alt_parts(alt@.take(i as int));
        assert(alt@.take(i + 1).drop_last() =~= alt@.take(i as int));
        if c == '&' || c == '/' || c == ',' {
            let s = squash(piece.as_str());
            if same_text(s.as_str(), q) {
                proof {
                    let after = alt_parts(alt@.take(i + 1));
                    assert(after[before.len() - 1] == before.last());
                    lemma_alt_parts_grow(alt@, i as int + 1);
                    assert(after == before.push(seq![]));
                    assert(alt_parts(alt@)[before.len() - 1] == piece@);
                    assert(squashed(alt_parts(alt@)[before.len() - 1]) == q@);
                }
                return true;
            }
            piece = String::new();
            proof {
                let after = alt_parts(alt@.take(i + 1));
                assert(after == before.push(seq![]));
                assert forall|k: int| 0 <= k < after.len() - 1 implies squashed(#[trigger] after[k]) != q@ by {
                    assert(after[k] == before[k]);
                }
            }
        } else {
            push_char(&mut piece, c);
            proof {
                let after = alt_parts(alt@.take(i + 1));
                assert forall|k: int| 0 <= k < after.len() - 1 implies squashed(#[trigger] after[k]) != q@ by {
                    assert(after[k] == before[k]);
                }
            }
        }
        i = i + 1;
    }
    assert(alt@.take(n as int) =~= alt@);
    let s = squash(piece.as_str());
    let r = same_text(s.as_str(), q);
    proof {
        let all = alt_parts(alt@);
        if !r {
            assert forall|k: int| 0 <= k < all.len() implies squashed(#[trigger] all[k]) != q@ by {
                if k < all.len() - 1 {
                } else {
                }
            }
        }
    }
    r
}

/// The object a typed name means (see `find_spec`): its place in `all`.
pub fn find(asked: &str, all: &Vec<DsoNames>) -> (r: Option<usize>)
    ensures
        match r {
            Some(i) => find_spec(asked@, all@) == Some(i as int),
            None => find_spec(asked@, all@) is None,
        },
{
    let t = trim(asked);
    let q = squash(t.as_str());
    let ghost qs = q@;
    if q.as_str().unicode_len() == 0 {
        return None;
    }
    let n = all.len();
    let mut i: usize = 0;
    while i < n
        invariant
            n == all@.len(),
            i <= n,
            q@ == qs,
            qs == squashed(trimmed(asked@)),
            qs.len() > 0,
            forall|j: int| 0 <= j < i ==> !named_exactly(#[trigger] all@[j], qs),
        decreases n - i,
    {
        if exact_match(&all[i], q.as_str()) {
            proof {
                let w = choose|w: int| 0 <= w < all@.len() && named_exactly(all@[w], qs)
                    && forall|j: int| 0 <= j < w ==> !named_exactly(#[trigger] all@[j], qs);
                assert(0 <= i < all@.len() && named_exactly(all@[i as int], qs)
                    && forall|j: int| 0 <= j < i ==> !named_exactly(#[trigger] all@[j], qs));
                if w < i {
                } else if w > i {
                    assert(!named_exactly(all@[i as int], qs));
                }
            }
            return Some(i);
        }
        i = i + 1;
    }
    let mut i: usize = 0;
    while i < n
        invariant
            n == all@.len(),
            i <= n,
            q@ == qs,
            qs == squashed(trimmed(asked@)),
            qs.len() > 0,
            forall|j: int| 0 <= j < n ==> !named_exactly(#[trigger] all@[j], qs),
            forall|j: int| 0 <= j < i ==> !named_partly(#[trigger] all@[j], qs),
        decreases n - i,
    {
        let d = &all[i];
        if d.name.as_str().unicode_len() > 0 {
            let s = squash(d.name.as_str());
            if contains_text(s.as_str(), q.as_str()) {
                proof {
                    let w = choose|w: int| 0 <= w < all@.len() && named_partly(all@[w], qs)
                        && forall|j: int| 0 <= j < w ==> !named_partly(#[trigger] all@[j], qs);
                    assert(0 <= i < all@.len() && named_partly(all@[i as int], qs)
                        && forall|j: int| 0 <= j < i ==> !named_partly(#[trigger] all@[j], qs));
                    if w < i {
                    } else if w > i {
                        assert(!named_partly(all@[i as int], qs));
                    }
                }
                return Some(i);
            }
        }
        i = i + 1;
    }
    None
}

/// The hour keys step by one hour (`h` back, `l` on) and by a day of 24
/// hours (`k` back, `j` on), stopping at the first and last hour; away
/// from the ends `h` undoes `l` and `k` undoes `j`.
pub proof fn hour_keys_step_an_hour_or_a_day(index: int, len: int)
    requires
        0 <= index < len,
    ensures
        index > 0 ==> hour_step_spec("h"@, index, len) == Some(index - 1),
        index == 0 ==> hour_step_spec("h"@, index, len) == Some(0int),
        index + 1 < len ==> hour_step_spec("l"@, index, len) == Some(index + 1),
        index + 1 == len ==> hour_step_spec("l"@, index, len) == Some(index),
        index >= 24 ==> hour_step_spec("k"@, index, len) == Some(index - 24),
        index < 24 ==> hour_step_spec("k"@, index, len) == Some(0int),
        index + 24 < len ==> hour_step_spec("j"@, index, len) == Some(index + 24),
        index + 24 >= len ==> hour_step_spec("j"@, index, len) == Some(len - 1),
        index + 1 < len ==> hour_step_spec("h"@, index + 1, len) == Some(index),
        index + 24 < len ==> hour_step_spec("k"@, index + 24, len) == Some(index),
{
    reveal_strlit("l");
    reveal_strlit("h");
    reveal_strlit("j");
    reveal_strlit("k");
    assert("l"@.len() == 1 && "l"@[0] == 'l');
    assert("h"@.len() == 1 && "h"@[0] == 'h');
    assert("j"@.len() == 1 && "j"@[0] == 'j');
    assert("k"@.len() == 1 && "k"@[0] == 'k');
    reveal_strlit("PgDOWN");
    assert("PgDOWN"@.len() == 6);
}

/// The name search accepts any part of a common name: when no object
/// goes by the query as an id or designation, the result is the first
/// object whose squashed common name holds the squashed query at some
/// position `k`.
pub proof fn find_matches_any_part_of_a_name(asked: Seq<char>, all: Seq<DsoNames>, i: int, k: int)
    requires
        ({
            let q = squashed(trimmed(asked));
            let name = squashed(all[i].name@);
            &&& q.len() > 0
            &&& 0 <= i < all.len()
            &&& forall|j: int| 0 <= j < all.len() ==> !named_exactly(#[trigger] all[j], q)
            &&& all[i].name@.len() > 0
            &&& 0 <= k && k + q.len() <= name.len()
            &&& name.subrange(k, k + q.len()) == q
            &&& forall|j: int, p: int| 0 <= j < i && 0 <= p && p + q.len() <= squashed(all[j].name@).len()
                && all[j].name@.len() > 0 ==> #[trigger] squashed(all[j].name@).subrange(p, p + q.len()) != q
        }),
    ensures
        find_spec(asked, all) == Some(i),
{
    let q = squashed(trimmed(asked));
    assert(named_partly(all[i], q));
    assert forall|j: int| 0 <= j < i implies !named_partly(#[trigger] all[j], q) by {
        if named_partly(all[j], q) {
            let p = choose|p: int| 0 <= p <= squashed(all[j].name@).len() - q.len()
                && #[trigger] squashed(all[j].name@).subrange(p, p + q.len()) == q;
            assert(squashed(all[j].name@).subrange(p, p + q.len()) != q);
        }
    }
    let w = choose|w: int| 0 <= w < all.len() && named_partly(all[w], q)
        && forall|j: int| 0 <= j < w ==> !named_partly(#[trigger] all[j], q);
    if w < i {
        assert(!named_partly(all[w], q));
    } else if w > i {
        assert(!named_partly(all[i], q));
    }
}

/// What is typed counts only up to case and spaces (as Unicode lowers
/// it): two queries that squash alike find the same object.
pub proof fn find_ignores_case_and_spaces(a: Seq<char>, b: Seq<char>, all: Seq<DsoNames>)
    requires
        squashed(trimmed(a)) == squashed(trimmed(b)),
    ensures
        find_spec(a, all) == find_spec(b, all),
{
}

/// Every part cut so far stays a part of the whole.
proof fn lemma_alt_parts_grow(s: Seq<char>, i: int)
    requires
        0 <= i <= s.len(),
    ensures
        alt_parts(s.take(i)).len() <= alt_parts(s).len(),
        forall|k: int| 0 <= k < alt_parts(s.take(i)).len() - 1 ==> alt_parts(s)[k] == alt_parts(s.take(i))[k],
    decreases s.len() - i,
{
    if i < s.len() {
        lemma_alt_parts_grow(s, i + 1);
        lemma_alt_parts_nonempty(s.take(i));
        assert(s.take(i + 1).drop_last() =~= s.take(i));
    } else {
        assert(s.take(i) =~= s);
    }
}

} // verus!
