//! A night at the telescope: which evening a moment belongs to, the
//! list of targets, and the keys of the plan screen.

use vstd::prelude::*;
use vstd::string::*;
use crate::calendar::{night_of_spec, julian_day_number, date_of_julian_day};
use crate::text::{same_text, split_numbers, split_char, parsed_numbers, push_char, push_padded, signed_padded, lemma_padded_digits, lemma_split_three, parse_u32_spec};
use crate::gear::data::{astro_dir, astro_dir_spec, joined, view_of};

verus! {

/// What was seen of a target, and when and with what.
#[derive(Clone, Debug)]
pub struct Seen {
    /// Local time, `HH:MM`.
    pub time: String,
    pub combo: String,
    pub note: String,
}

/// One object on the night's list: its id (`M31`, `C14`) and, once
/// marked, what was seen of it.
#[derive(Clone, Debug)]
pub struct Target {
    pub id: String,
    pub seen: Option<Seen>,
}

impl Default for Seen {
    fn default() -> (r: Seen)
        ensures
            r.time@ == Seq::<char>::empty(),
            r.combo@ == Seq::<char>::empty(),
            r.note@ == Seq::<char>::empty(),
    {
        Seen { time: String::new(), combo: String::new(), note: String::new() }
    }
}

impl Default for Target {
    fn default() -> (r: Target)
        ensures
            r.id@ == Seq::<char>::empty(),
            r.seen is None,
    {
        Target { id: String::new(), seen: None }
    }
}

/// The evening a moment belongs to: before 08:00 is still the night
/// before; from then on it is the coming evening. Before 08:00 the date
/// is stepped back one day through its Julian day number, so that
/// month and year ends and leap days come out right (see
/// `small_hours_belong_to_the_evening_before`).
pub fn night_of(year: i32, month: u32, day: u32, hour: u32) -> (r: (i32, u32, u32))
    requires
        !(hour < 8 && month <= 2 && year == i32::MIN),
    ensures
        r == night_of_spec(year, month, day, hour),
        hour >= 8 ==> r == (year, month, day),
{
    if hour >= 8 {
        return (year, month, day);
    }
    let z = julian_day_number(year, month, day);
    date_of_julian_day(z - 1)
}

/// A night's date as it is stored, `YYYY-MM-DD` (`{:04}-{:02}-{:02}`).
pub open spec fn date_label_spec(y: i32, m: u32, d: u32) -> Seq<char> {
    signed_padded(y as int, 4) + seq!['-'] + signed_padded(m as int, 2) + seq!['-'] + signed_padded(d as int, 2)
}

pub fn date_label(date: (i32, u32, u32)) -> (r: String)
    ensures
        r@ == date_label_spec(date.0, date.1, date.2),
{
    let mut out = String::new();
    push_padded(&mut out, date.0 as i64, 4);
    push_char(&mut out, '-');
    push_padded(&mut out, date.1 as i64, 2);
    push_char(&mut out, '-');
    push_padded(&mut out, date.2 as i64, 2);
    out
}

/// A night's date read back from its stored form is the date it was
/// stored with (for years from 0 on; a year below 0 starts the label
/// with a `-`, which the reading takes for a separator).
pub proof fn a_stored_date_reads_back(y: i32, m: u32, d: u32)
    requires
        y >= 0,
    ensures
        ymd_spec(date_label_spec(y, m, d)) == (y, m, d),
{
    let a = signed_padded(y as int, 4);
    let b = signed_padded(m as int, 2);
    let c = signed_padded(d as int, 2);
    lemma_padded_digits(y as nat, 4);
    lemma_padded_digits(m as nat, 2);
    lemma_padded_digits(d as nat, 2);
    lemma_split_three(a, b, c, '-');
    let pieces = seq![a, b, c];
    assert(parse_u32_spec(a) == Some(y as u32));
    assert(parse_u32_spec(b) == Some(m));
    assert(parse_u32_spec(c) == Some(d));
    assert(pieces.drop_last().drop_last().drop_last() =~= Seq::<Seq<char>>::empty());
    assert(pieces.drop_last().drop_last() =~= seq![a]);
    assert(pieces.drop_last() =~= seq![a, b]);
    assert(seq![a].drop_last() =~= Seq::<Seq<char>>::empty());
    assert(seq![a].last() == a);
    assert(parsed_numbers(Seq::<Seq<char>>::empty()) =~= Seq::<u32>::empty());
    assert(parsed_numbers(seq![a]) =~= seq![y as u32]);
    assert(parsed_numbers(seq![a, b]) =~= seq![y as u32, m]);
    assert(parsed_numbers(pieces) =~= seq![y as u32, m, d]);
}

/// Where the nights are kept: `~/.astro/nights`.
pub fn nights_dir(home: Option<&str>) -> (r: String)
    ensures
        r@ == joined(astro_dir_spec(view_of(home)), "nights"@),
{
    let dir = astro_dir(home);
    let mut out = String::from_str(dir.as_str());
    let n = dir.as_str().unicode_len();
    if n > 0 && dir.as_str().get_char(n - 1) != '/' {
        push_char(&mut out, '/');
    }
    out.append("nights");
    out
}

/// A night's file in the nights' directory: `<date>.<ext>`.
pub fn night_file(dir: &str, date: &str, ext: &str) -> (r: String)
    ensures
        r@ == joined(dir@, date@ + seq!['.'] + ext@),
{
    let mut out = String::from_str(dir);
    let n = dir.unicode_len();
    if n > 0 && dir.get_char(n - 1) != '/' {
        push_char(&mut out, '/');
    }
    out.append(date);
    push_char(&mut out, '.');
    out.append(ext);
    assert(out@ =~= joined(dir@, date@ + seq!['.'] + ext@));
    out
}

/// Whether some target on the list has this id.
pub open spec fn has_target(targets: Seq<Target>, id: Seq<char>) -> bool {
    exists|i: int| 0 <= i < targets.len() && targets[i].id@ == id
}

/// Adds an object once; says whether it was new. A new target goes at
/// the end, not yet seen; an id already on the list changes nothing.
pub fn add_target(targets: &mut Vec<Target>, id: &str) -> (added: bool)
    ensures
        added == !has_target(old(targets)@, id@),
        added ==> final(targets)@.len() == old(targets)@.len() + 1
            && final(targets)@.take(old(targets)@.len() as int) == old(targets)@
            && final(targets)@.last().id@ == id@
            && final(targets)@.last().seen is None,
        !added ==> final(targets)@ == old(targets)@,
        has_target(final(targets)@, id@),
{
    let n = targets.len();
    let mut i: usize = 0;
    while i < n
        invariant
            n == targets@.len(),
            targets@ == old(targets)@,
            i <= n,
            forall|j: int| 0 <= j < i ==> targets@[j].id@ != id@,
        decreases n - i,
    {
        if same_text(targets[i].id.as_str(), id) {
            assert(targets@[i as int].id@ == id@);
            return false;
        }
        i = i + 1;
    }
    targets.push(Target { id: String::from_str(id), seen: None });
    assert(targets@.take(n as int) =~= old(targets)@);
    assert(targets@[n as int].id@ == id@);
    true
}

/// The year, month and day written in a night's `YYYY-MM-DD` date: the
/// numbers among its `-`-separated parts, with 2000, 1 and 1 for the
/// ones missing. The year is the first number's bits read as an `i32`.
pub open spec fn ymd_spec(date: Seq<char>) -> (i32, u32, u32) {
    let p = parsed_numbers(split_char(date, '-'));
    (
        if p.len() > 0 { p[0] as i32 } else { 2000 },
        if p.len() > 1 { p[1] } else { 1 },
        if p.len() > 2 { p[2] } else { 1 },
    )
}

pub fn ymd_of(date: &str) -> (r: (i32, u32, u32))
    ensures
        r == ymd_spec(date@),
{
    let p = split_numbers(date, '-');
    let y: i32 = if p.len() > 0 { p[0] as i32 } else { 2000 };
    let m: u32 = if p.len() > 1 { p[1] } else { 1 };
    let d: u32 = if p.len() > 2 { p[2] } else { 1 };
    (y, m, d)
}

/// A combo's label up to its first double space: the telescope and
/// eyepiece without the figures after them.
pub open spec fn before_gap(s: Seq<char>) -> Seq<char>
    decreases s.len(),
{
    if s.len() < 2 {
        s
    } else if s[0] == ' ' && s[1] == ' ' {
        seq![]
    } else {
        seq![s[0]] + before_gap(s.drop_first())
    }
}

pub fn short(label: &str) -> (r: String)
    ensures
        r@ == before_gap(label@),
{
    let n = label.unicode_len();
    let mut i: usize = 0;
    assert(label@.skip(0) =~= label@);
    assert(label@.take(0) + label@ =~= label@);
    while i < n && i + 1 < n
        invariant
            n == label@.len(),
            i <= n,
            before_gap(label@) == label@.take(i as int) + before_gap(label@.skip(i as int)),
        decreases n - i,
    {
        if label.get_char(i) == ' ' && label.get_char(i + 1) == ' ' {
            assert(before_gap(label@.skip(i as int)) =~= Seq::<char>::empty());
            assert(label@.take(i as int) + Seq::<char>::empty() =~= label@.take(i as int));
            return String::from_str(label.substring_char(0, i));
        }
        assert(label@.skip(i as int).drop_first() =~= label@.skip(i + 1));
        assert(label@.take(i + 1) =~= label@.take(i as int) + seq![label@[i as int]]);
        i = i + 1;
    }
    assert(label@.take(i as int) + label@.skip(i as int) =~= label@);
    String::from_str(label)
}

/// The name a seen target is logged under: its catalogue label when the
/// catalogue has it, else its id.
pub open spec fn logged_name(t: Target, label: Option<String>) -> Seq<char> {
    match label {
        Some(l) => l@,
        None => t.id@,
    }
}

/// The log lines of one target: none unless it was seen; then its time
/// and name, what it was seen with, and the note, each line only when
/// there is something to say.
pub open spec fn seen_lines(t: Target, label: Option<String>) -> Seq<char> {
    match t.seen {
        None => seq![],
        Some(s) => "\t\t"@ + s.time@ + " "@ + logged_name(t, label) + "\n"@
            + (if s.combo@.len() > 0 { "\t\t\tWith: "@ + s.combo@ + "\n"@ } else { seq![] })
            + (if s.note@.len() > 0 { "\t\t\t"@ + s.note@ + "\n"@ } else { seq![] }),
    }
}

/// The label given for target `i`; none when the list is shorter.
pub open spec fn label_at(labels: Seq<Option<String>>, i: int) -> Option<String> {
    if 0 <= i < labels.len() { labels[i] } else { None }
}

/// The lines of the first `k` targets.
pub open spec fn seen_entries(targets: Seq<Target>, labels: Seq<Option<String>>, k: int) -> Seq<char>
    decreases k,
{
    if k <= 0 {
        seq![]
    } else {
        seen_entries(targets, labels, k - 1) + seen_lines(targets[k - 1], label_at(labels, k - 1))
    }
}

pub open spec fn any_seen(targets: Seq<Target>) -> bool {
    exists|i: int| 0 <= i < targets.len() && targets[i].seen is Some
}

/// The `Seen` part of a night's log: a heading and the seen targets in
/// plan order, or nothing when none was seen.
pub open spec fn seen_section_spec(targets: Seq<Target>, labels: Seq<Option<String>>) -> Seq<char> {
    if any_seen(targets) {
        "\tSeen\n"@ + seen_entries(targets, labels, targets.len() as int)
    } else {
        seq![]
    }
}

fn push_seen_lines(out: &mut String, t: &Target, label: &Option<String>)
    ensures
        final(out)@ == old(out)@ + seen_lines(*t, *label),
{
    match &t.seen {
        None => {
            assert(old(out)@ + Seq::<char>::empty() =~= old(out)@);
        },
        Some(s) => {
            out.append("\t\t");
            out.append(s.time.as_str());
            out.append(" ");
            match label {
                Some(l) => out.append(l.as_str()),
                None => out.append(t.id.as_str()),
            }
            out.append("\n");
            if s.combo.as_str().unicode_len() > 0 {
                out.append("\t\t\tWith: ");
                out.append(s.combo.as_str());
                out.append("\n");
            }
            if s.note.as_str().unicode_len() > 0 {
                out.append("\t\t\t");
                out.append(s.note.as_str());
                out.append("\n");
            }
            assert(out@ =~= old(out)@ + seen_lines(*t, *label));
        },
    }
}

/// `labels[i]` is the catalogue label of `targets[i]`, if any.
pub fn seen_section(targets: &Vec<Target>, labels: &Vec<Option<String>>) -> (r: String)
    ensures
        r@ == seen_section_spec(targets@, labels@),
{
    let n = targets.len();
    let mut any = false;
    let mut i: usize = 0;
    while i < n
        invariant
            n == targets@.len(),
            i <= n,
            any == exists|j: int| 0 <= j < i && targets@[j].seen is Some,
        decreases n - i,
    {
        if targets[i].seen.is_some() {
            any = true;
        }
        i = i + 1;
    }
    let mut out = String::new();
    if !any {
        return out;
    }
    out.append("\tSeen\n");
    let mut i: usize = 0;
    while i < n
        invariant
            n == targets@.len(),
            i <= n,
            out@ == "\tSeen\n"@ + seen_entries(targets@, labels@, i as int),
        decreases n - i,
    {
        let none: Option<String> = None;
        let label = if i < labels.len() { &labels[i] } else { &none };
        assert(*label == label_at(labels@, i as int));
        push_seen_lines(&mut out, &targets[i], label);
        i = i + 1;
    }
    out
}

/// The plan screen's line under a seen target: when, with which combo
/// (its short label), and the note after a colon when there is one.
pub open spec fn seen_line_spec(s: Seen) -> Seq<char> {
    "seen "@ + s.time@ + " with "@ + before_gap(s.combo@)
        + (if s.note@.len() > 0 { ": "@ + s.note@ } else { seq![] })
}

pub fn seen_line(s: &Seen) -> (r: String)
    ensures
        r@ == seen_line_spec(*s),
{
    let mut out = String::from_str("seen ");
    out.append(s.time.as_str());
    out.append(" with ");
    let c = short(s.combo.as_str());
    out.append(c.as_str());
    if s.note.as_str().unicode_len() > 0 {
        out.append(": ");
        out.append(s.note.as_str());
    }
    assert(out@ =~= seen_line_spec(*s));
    out
}

/// What a key does on the plan screen, given the selected row.
#[derive(Clone, Copy, Debug, PartialEq, Eq, Structural)]
pub enum PlanKey {
    /// Back to the chart, with no object to go to.
    Leave,
    /// Select this row.
    Select(usize),
    /// Go to this row's object in the chart.
    Open(usize),
    /// Take this row off the plan, then select the second row given.
    Remove(usize, usize),
    /// Ask what was seen of this row's object and mark it seen.
    MarkSeen(usize),
    /// Mark this row not seen.
    Unmark(usize),
    /// Nothing to do.
    Nothing,
}

/// The plan screen's keys, with `sel` the selected row of `n`.
pub open spec fn plan_key_spec(key: Seq<char>, sel: int, n: int) -> PlanKey {
    if key == "q"@ || key == "ESC"@ || key == "p"@ {
        PlanKey::Leave
    } else if key == "j"@ || key == "DOWN"@ {
        PlanKey::Select(if sel + 1 < n { (sel + 1) as usize } else { (if n > 0 { n - 1 } else { 0 }) as usize })
    } else if key == "k"@ || key == "UP"@ {
        PlanKey::Select((if sel > 0 { sel - 1 } else { 0 }) as usize)
    } else if key == "ENTER"@ {
        if sel < n { PlanKey::Open(sel as usize) } else { PlanKey::Leave }
    } else if key == "x"@ || key == "D"@ {
        if sel < n {
            PlanKey::Remove(sel as usize, (if sel < (if n > 1 { n - 2 } else { 0 }) { sel } else { if n > 1 { n - 2 } else { 0 } }) as usize)
        } else {
            PlanKey::Nothing
        }
    } else if key == "o"@ {
        if sel < n { PlanKey::MarkSeen(sel as usize) } else { PlanKey::Nothing }
    } else if key == "u"@ {
        if sel < n { PlanKey::Unmark(sel as usize) } else { PlanKey::Nothing }
    } else {
        PlanKey::Nothing
    }
}

pub fn plan_key(key: &str, sel: usize, n: usize) -> (r: PlanKey)
    requires
        key@ == "j"@ || key@ == "DOWN"@ ==> sel < usize::MAX,
    ensures
        r == plan_key_spec(key@, sel as int, n as int),
{
    if same_text(key, "q") || same_text(key, "ESC") || same_text(key, "p") {
        PlanKey::Leave
    } else if same_text(key, "j") || same_text(key, "DOWN") {
        let last = if n > 0 { n - 1 } else { 0 };
        PlanKey::Select(if sel + 1 < last { sel + 1 } else { last })
    } else if same_text(key, "k") || same_text(key, "UP") {
        PlanKey::Select(if sel > 0 { sel - 1 } else { 0 })
    } else if same_text(key, "ENTER") {
        if sel < n { PlanKey::Open(sel) } else { PlanKey::Leave }
    } else if same_text(key, "x") || same_text(key, "D") {
        if sel < n {
            let left = n - 1;
            let last = if left > 0 { left - 1 } else { 0 };
            PlanKey::Remove(sel, if sel < last { sel } else { last })
        } else {
            PlanKey::Nothing
        }
    } else if same_text(key, "o") {
        if sel < n { PlanKey::MarkSeen(sel) } else { PlanKey::Nothing }
    } else if same_text(key, "u") {
        if sel < n { PlanKey::Unmark(sel) } else { PlanKey::Nothing }
    } else {
        PlanKey::Nothing
    }
}

/// The plan screen's keys over every selected row `sel` of `n`: `u`
/// marks the selected target not seen, `o` asks what was seen of it,
/// `x`/`D` remove it, Enter opens it, and `j`/`k` move one row down or
/// up, stopping at the last and first row.
pub proof fn plan_keys_act_on_the_selected_row(sel: int, n: int)
    requires
        0 <= sel < n,
        n <= usize::MAX,
    ensures
        plan_key_spec("u"@, sel, n) == PlanKey::Unmark(sel as usize),
        plan_key_spec("o"@, sel, n) == PlanKey::MarkSeen(sel as usize),
        plan_key_spec("ENTER"@, sel, n) == PlanKey::Open(sel as usize),
        plan_key_spec("x"@, sel, n) matches PlanKey::Remove(i, _) && i == sel,
        plan_key_spec("D"@, sel, n) matches PlanKey::Remove(i, _) && i == sel,
        sel + 1 < n ==> plan_key_spec("j"@, sel, n) == PlanKey::Select((sel + 1) as usize),
        sel + 1 == n ==> plan_key_spec("j"@, sel, n) == PlanKey::Select(sel as usize),
        sel > 0 ==> plan_key_spec("k"@, sel, n) == PlanKey::Select((sel - 1) as usize),
        sel == 0 ==> plan_key_spec("k"@, sel, n) == PlanKey::Select(0),
        plan_key_spec("q"@, sel, n) == PlanKey::Leave,
{
    reveal_strlit("q");
    reveal_strlit("ESC");
    reveal_strlit("p");
    reveal_strlit("j");
    reveal_strlit("DOWN");
    reveal_strlit("k");
    reveal_strlit("UP");
    reveal_strlit("ENTER");
    reveal_strlit("x");
    reveal_strlit("D");
    reveal_strlit("o");
    reveal_strlit("u");
    assert("q"@.len() == 1 && "q"@[0] == 'q');
    assert("p"@.len() == 1 && "p"@[0] == 'p');
    assert("j"@.len() == 1 && "j"@[0] == 'j');
    assert("k"@.len() == 1 && "k"@[0] == 'k');
    assert("x"@.len() == 1 && "x"@[0] == 'x');
    assert("D"@.len() == 1 && "D"@[0] == 'D');
    assert("o"@.len() == 1 && "o"@[0] == 'o');
    assert("u"@.len() == 1 && "u"@[0] == 'u');
    assert("ESC"@.len() == 3 && "UP"@.len() == 2 && "DOWN"@.len() == 4 && "ENTER"@.len() == 5);
}

/// A seen target's log lines begin with its time and name, and end with
/// its note whenever it has one, whatever the combo: the note line's
/// presence depends on the note alone. An unseen target has no lines,
/// and a plan of one seen target logs the heading and its lines.
pub proof fn a_seen_targets_note_is_logged(t: Target, label: Option<String>)
    ensures
        t.seen is None ==> seen_lines(t, label).len() == 0,
        t.seen is Some ==> seen_section_spec(seq![t], seq![label]) == "\tSeen\n"@ + seen_lines(t, label),
        t.seen matches Some(s) ==> {
            let lines = seen_lines(t, label);
            let head = "\t\t"@ + s.time@ + " "@ + logged_name(t, label) + "\n"@;
            let tail = "\t\t\t"@ + s.note@ + "\n"@;
            &&& head.len() <= lines.len()
            &&& lines.subrange(0, head.len() as int) == head
            &&& s.note@.len() > 0 ==> tail.len() <= lines.len()
                && lines.subrange(lines.len() - tail.len(), lines.len() as int) == tail
        },
{
    if t.seen is Some {
        let one = seq![t];
        assert(one[0].seen is Some);
        assert(any_seen(one));
        assert(label_at(seq![label], 0) == label);
        assert(seen_entries(one, seq![label], 1) =~= seen_entries(one, seq![label], 0) + seen_lines(t, label));
        assert(seen_entries(one, seq![label], 1) =~= seen_lines(t, label));
    }
    match t.seen {
        None => {},
        Some(s) => {
            let lines = seen_lines(t, label);
            let head = "\t\t"@ + s.time@ + " "@ + logged_name(t, label) + "\n"@;
            let mid = if s.combo@.len() > 0 { "\t\t\tWith: "@ + s.combo@ + "\n"@ } else { seq![] };
            let tail = "\t\t\t"@ + s.note@ + "\n"@;
            let last = if s.note@.len() > 0 { tail } else { seq![] };
            assert(lines =~= head + mid + last);
            assert(lines.subrange(0, head.len() as int) =~= head);
            if s.note@.len() > 0 {
                assert(lines.subrange(lines.len() - tail.len(), lines.len() as int) =~= tail);
            }
        },
    }
}

} // verus!
