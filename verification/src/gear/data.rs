//! Where the gear catalogue's files live, the settings with their
//! defaults, and which old backups a new one retires.

use vstd::prelude::*;
use vstd::string::*;
use crate::text::{push_char, push_padded, signed_padded};
use vstd::set_lib::{lemma_map_size, lemma_int_range, set_int_range, lemma_subset_equality, lemma_set_subset_finite};
use vstd::relations::{injective_on, lemma_injective_on_subset};

verus! {

/// A path with one more relative part, as `PathBuf::join` forms it: a
/// `/` between the two unless the base is empty or already ends in one.
pub open spec fn joined(base: Seq<char>, part: Seq<char>) -> Seq<char> {
    if base.len() == 0 || base.last() == '/' { base + part } else { base.push('/') + part }
}

fn join(base: &str, part: &str) -> (r: String)
    ensures
        r@ == joined(base@, part@),
{
    let mut out = String::from_str(base);
    let n = base.unicode_len();
    if n > 0 && base.get_char(n - 1) != '/' {
        push_char(&mut out, '/');
    }
    out.append(part);
    out
}

/// The home directory, `/tmp` when `HOME` is not set.
pub open spec fn home_dir(home: Option<Seq<char>>) -> Seq<char> {
    match home {
        Some(h) => h,
        None => "/tmp"@,
    }
}

/// `~/.astro`, for the value of `HOME` (`None` when it is not set).
pub open spec fn astro_dir_spec(home: Option<Seq<char>>) -> Seq<char> {
    joined(home_dir(home), ".astro"@)
}

pub open spec fn view_of(home: Option<&str>) -> Option<Seq<char>> {
    match home {
        Some(h) => Some(h@),
        None => None,
    }
}

pub fn astro_dir(home: Option<&str>) -> (r: String)
    ensures
        r@ == astro_dir_spec(view_of(home)),
{
    match home {
        Some(h) => join(h, ".astro"),
        None => join("/tmp", ".astro"),
    }
}

/// The catalogue file, `~/.astro/gear.json`.
pub fn save_path(home: Option<&str>) -> (r: String)
    ensures
        r@ == joined(astro_dir_spec(view_of(home)), "gear.json"@),
{
    let dir = astro_dir(home);
    join(dir.as_str(), "gear.json")
}

/// The settings file, `~/.astro/gear_config.json`.
pub fn config_path(home: Option<&str>) -> (r: String)
    ensures
        r@ == joined(astro_dir_spec(view_of(home)), "gear_config.json"@),
{
    let dir = astro_dir(home);
    join(dir.as_str(), "gear_config.json")
}

/// The backups' directory, `~/.astro/gear_backups`.
pub fn backup_dir(home: Option<&str>) -> (r: String)
    ensures
        r@ == joined(astro_dir_spec(view_of(home)), "gear_backups"@),
{
    let dir = astro_dir(home);
    join(dir.as_str(), "gear_backups")
}

/// The screen's settings: header colours, 256-colour indices, and how
/// many backups to keep.
#[derive(Clone, Debug)]
pub struct Config {
    pub ts_header_bg: String,
    pub ep_header_bg: String,
    pub tag_color: u16,
    pub cursor_bg: u16,
    pub text_color: u16,
    pub check_good: u16,
    pub check_bad: u16,
    pub auto_backup: bool,
    pub backup_count: usize,
}

pub fn default_ts_bg() -> (r: String)
    ensures
        r@ == "00524b"@,
{
    String::from_str("00524b")
}

pub fn default_ep_bg() -> (r: String)
    ensures
        r@ == "4c3c1d"@,
{
    String::from_str("4c3c1d")
}

pub fn default_tag() -> (r: u16)
    ensures
        r == 46,
{
    46
}

pub fn default_cursor_bg() -> (r: u16)
    ensures
        r == 234,
{
    234
}

pub fn default_text() -> (r: u16)
    ensures
        r == 248,
{
    248
}

pub fn default_check_good() -> (r: u16)
    ensures
        r == 112,
{
    112
}

pub fn default_check_bad() -> (r: u16)
    ensures
        r == 208,
{
    208
}

pub fn default_true() -> (r: bool)
    ensures
        r,
{
    true
}

pub fn default_backup_count() -> (r: usize)
    ensures
        r == 5,
{
    5
}

impl Default for Config {
    /// Every setting at its default, the value a settings file that
    /// leaves it out gets too.
    fn default() -> (c: Config)
        ensures
            c.ts_header_bg@ == "00524b"@,
            c.ep_header_bg@ == "4c3c1d"@,
            c.tag_color == 46,
            c.cursor_bg == 234,
            c.text_color == 248,
            c.check_good == 112,
            c.check_bad == 208,
            c.auto_backup,
            c.backup_count == 5,
    {
        Config {
            ts_header_bg: default_ts_bg(),
            ep_header_bg: default_ep_bg(),
            tag_color: default_tag(),
            cursor_bg: default_cursor_bg(),
            text_color: default_text(),
            check_good: default_check_good(),
            check_bad: default_check_bad(),
            auto_backup: default_true(),
            backup_count: default_backup_count(),
        }
    }
}

/// A backup's file name for a Unix time: `astro_gear_<secs>.json`.
pub open spec fn backup_name_spec(ts: int) -> Seq<char> {
    "astro_gear_"@ + signed_padded(ts, 0) + ".json"@
}

pub fn backup_file_name(ts: i64) -> (r: String)
    ensures
        r@ == backup_name_spec(ts as int),
{
    let mut out = String::from_str("astro_gear_");
    push_padded(&mut out, ts, 0);
    out.append(".json");
    out
}

/// Whether `s` begins with `prefix`.
pub open spec fn starts_with_spec(s: Seq<char>, prefix: Seq<char>) -> bool {
    prefix.len() <= s.len() && s.take(prefix.len() as int) == prefix
}

pub fn starts_with(s: &str, prefix: &str) -> (r: bool)
    ensures
        r == starts_with_spec(s@, prefix@),
{
    let n = s.unicode_len();
    let m = prefix.unicode_len();
    if m > n {
        return false;
    }
    let mut i: usize = 0;
    while i < m
        invariant
            n == s@.len(),
            m == prefix@.len(),
            m <= n,
            i <= m,
            forall|j: int| 0 <= j < i ==> s@[j] == prefix@[j],
        decreases m - i,
    {
        if s.get_char(i) != prefix.get_char(i) {
            assert(s@.take(m as int)[i as int] != prefix@[i as int]);
            return false;
        }
        i = i + 1;
    }
    assert(s@.take(m as int) =~= prefix@);
    true
}

/// A file in the backups' directory: its name, and when it was last
/// written (nanoseconds from the Unix epoch; `None` when unknown).
#[derive(Clone, Debug)]
pub struct BackupFile {
    pub name: String,
    pub modified: Option<i128>,
}

/// Only the files named `astro_gear_...` are backups.
pub open spec fn is_backup(f: BackupFile) -> bool {
    starts_with_spec(f.name@, "astro_gear_"@)
}

/// Time order, an unknown time first.
pub open spec fn older(a: Option<i128>, b: Option<i128>) -> bool {
    match (a, b) {
        (None, Some(_)) => true,
        (Some(x), Some(y)) => x < y,
        _ => false,
    }
}

/// How many backups among the first `k` files are older than `key`.
pub open spec fn n_older(files: Seq<BackupFile>, k: int, key: Option<i128>) -> int
    decreases k,
{
    if k <= 0 {
        0
    } else {
        n_older(files, k - 1, key) + if is_backup(files[k - 1]) && older(files[k - 1].modified, key) { 1int } else { 0int }
    }
}

/// How many backups among the first `k` files have the time `key`.
pub open spec fn n_same(files: Seq<BackupFile>, k: int, key: Option<i128>) -> int
    decreases k,
{
    if k <= 0 {
        0
    } else {
        n_same(files, k - 1, key) + if is_backup(files[k - 1]) && files[k - 1].modified == key { 1int } else { 0int }
    }
}

/// How many of the first `k` files are backups.
pub open spec fn n_backups(files: Seq<BackupFile>, k: int) -> int
    decreases k,
{
    if k <= 0 {
        0
    } else {
        n_backups(files, k - 1) + if is_backup(files[k - 1]) { 1int } else { 0int }
    }
}

/// A backup's place when the backups are sorted by time, oldest first,
/// the sort keeping the listing's order among equal times.
pub open spec fn age_rank(files: Seq<BackupFile>, i: int) -> int {
    n_older(files, files.len() as int, files[i].modified) + n_same(files, i, files[i].modified)
}

/// The backups to delete so that `count` remain: the oldest ones, when
/// there are more than `count`.
pub open spec fn retired(files: Seq<BackupFile>, count: int, i: int) -> bool {
    let nb = n_backups(files, files.len() as int);
    &&& is_backup(files[i])
    &&& nb > count
    &&& age_rank(files, i) < nb - count
}

proof fn lemma_older_counts(files: Seq<BackupFile>, k: int, a: Option<i128>, b: Option<i128>)
    requires
        older(a, b),
    ensures
        n_older(files, k, b) >= n_older(files, k, a) + n_same(files, k, a),
    decreases k,
{
    if k > 0 {
        lemma_older_counts(files, k - 1, a, b);
    }
}

proof fn lemma_same_grows(files: Seq<BackupFile>, k1: int, k2: int, key: Option<i128>)
    requires
        0 <= k1 <= k2,
    ensures
        n_same(files, k1, key) <= n_same(files, k2, key),
    decreases k2,
{
    if k2 > k1 {
        lemma_same_grows(files, k1, k2 - 1, key);
    }
}

/// Rotation keeps the newest: no backup that is deleted is newer than a
/// backup that is kept.
pub proof fn the_newest_backups_are_kept(files: Seq<BackupFile>, count: int, i: int, j: int)
    requires
        0 <= i < files.len(),
        0 <= j < files.len(),
        retired(files, count, i),
        is_backup(files[j]),
        !retired(files, count, j),
    ensures
        !older(files[j].modified, files[i].modified),
{
    let n = files.len() as int;
    if older(files[j].modified, files[i].modified) {
        lemma_older_counts(files, n, files[j].modified, files[i].modified);
        lemma_same_grows(files, j + 1, n, files[j].modified);
        assert(n_same(files, j + 1, files[j].modified) == n_same(files, j, files[j].modified) + 1);
        lemma_same_grows(files, 0, i, files[i].modified);
        assert(age_rank(files, j) < age_rank(files, i));
    }
}

proof fn lemma_counts_disjoint(files: Seq<BackupFile>, k: int, key: Option<i128>)
    ensures
        n_older(files, k, key) + n_same(files, k, key) <= n_backups(files, k),
        0 <= n_older(files, k, key),
        0 <= n_same(files, k, key),
    decreases k,
{
    if k > 0 {
        lemma_counts_disjoint(files, k - 1, key);
        if older(files[k - 1].modified, key) {
            assert(files[k - 1].modified != key);
        }
    }
}

proof fn lemma_backups_grow(files: Seq<BackupFile>, k1: int, k2: int)
    requires
        0 <= k1 <= k2,
    ensures
        n_backups(files, k1) <= n_backups(files, k2),
    decreases k2,
{
    if k2 > k1 {
        lemma_backups_grow(files, k1, k2 - 1);
    }
}

/// A backup's age rank is one of `0 .. number of backups`.
proof fn lemma_rank_bounds(files: Seq<BackupFile>, i: int)
    requires
        0 <= i < files.len(),
        is_backup(files[i]),
    ensures
        0 <= age_rank(files, i) < n_backups(files, files.len() as int),
{
    let n = files.len() as int;
    let key = files[i].modified;
    lemma_counts_disjoint(files, n, key);
    lemma_same_grows(files, i + 1, n, key);
    lemma_same_grows(files, 0, i, key);
    assert(n_same(files, i + 1, key) == n_same(files, i, key) + 1);
}

/// No two backups share an age rank.
proof fn lemma_rank_injective(files: Seq<BackupFile>, i: int, j: int)
    requires
        0 <= i < files.len(),
        0 <= j < files.len(),
        is_backup(files[i]),
        is_backup(files[j]),
        i != j,
    ensures
        age_rank(files, i) != age_rank(files, j),
{
    let n = files.len() as int;
    let ki = files[i].modified;
    let kj = files[j].modified;
    if older(kj, ki) {
        lemma_older_counts(files, n, kj, ki);
        lemma_same_grows(files, j + 1, n, kj);
        assert(n_same(files, j + 1, kj) == n_same(files, j, kj) + 1);
        lemma_same_grows(files, 0, i, ki);
    } else if older(ki, kj) {
        lemma_older_counts(files, n, ki, kj);
        lemma_same_grows(files, i + 1, n, ki);
        assert(n_same(files, i + 1, ki) == n_same(files, i, ki) + 1);
        lemma_same_grows(files, 0, j, kj);
    } else {
        assert(ki == kj);
        if j < i {
            lemma_same_grows(files, j + 1, i, kj);
            assert(n_same(files, j + 1, kj) == n_same(files, j, kj) + 1);
        } else {
            lemma_same_grows(files, i + 1, j, ki);
            assert(n_same(files, i + 1, ki) == n_same(files, i, ki) + 1);
        }
    }
}

/// The places of the backups among the first `k` files.
pub open spec fn backup_places(files: Seq<BackupFile>, k: int) -> Set<int> {
    Set::new(|i: int| 0 <= i < k && i < files.len() && is_backup(files[i]))
}

proof fn lemma_backup_places_len(files: Seq<BackupFile>, k: int)
    requires
        0 <= k <= files.len(),
    ensures
        backup_places(files, k).finite(),
        backup_places(files, k).len() == n_backups(files, k),
    decreases k,
{
    if k == 0 {
        assert(backup_places(files, 0) =~= Set::<int>::empty());
    } else {
        lemma_backup_places_len(files, k - 1);
        if is_backup(files[k - 1]) {
            assert(backup_places(files, k) =~= backup_places(files, k - 1).insert(k - 1));
        } else {
            assert(backup_places(files, k) =~= backup_places(files, k - 1));
        }
    }
}

/// The places of the backups that rotation deletes.
pub open spec fn retired_places(files: Seq<BackupFile>, count: int) -> Set<int> {
    Set::new(|i: int| 0 <= i < files.len() && retired(files, count, i))
}

/// Rotation deletes exactly as many backups as there are beyond
/// `count`, and none when there are not more: the newest `count` stay.
pub proof fn exactly_the_excess_is_retired(files: Seq<BackupFile>, count: int)
    requires
        count >= 0,
    ensures
        retired_places(files, count).finite(),
        retired_places(files, count).len() == (if n_backups(files, files.len() as int) > count {
            n_backups(files, files.len() as int) - count
        } else {
            0
        }),
{
    let n = files.len() as int;
    let nb = n_backups(files, n);
    let bs = backup_places(files, n);
    lemma_backup_places_len(files, n);
    if nb <= count {
        assert(retired_places(files, count) =~= Set::<int>::empty());
        return;
    }
    let m = nb - count;
    let rank = |i: int| age_rank(files, i);
    assert(injective_on(rank, bs)) by {
        assert forall|x1: int, x2: int| bs.contains(x1) && bs.contains(x2) && #[trigger] rank(x1) == #[trigger] rank(x2) implies x1 == x2 by {
            if x1 != x2 {
                lemma_rank_injective(files, x1, x2);
            }
        }
    }
    let image = bs.map(rank);
    lemma_map_size(bs, image, rank);
    lemma_int_range(0, nb);
    assert(image.subset_of(set_int_range(0, nb))) by {
        assert forall|x: int| image.contains(x) implies set_int_range(0, nb).contains(x) by {
            let i = choose|i: int| bs.contains(i) && rank(i) == x;
            lemma_rank_bounds(files, i);
        }
    }
    lemma_subset_equality(image, set_int_range(0, nb));
    let rs = retired_places(files, count);
    assert(rs.subset_of(bs));
    lemma_set_subset_finite(bs, rs);
    lemma_injective_on_subset(rank, rs, bs);
    let low = rs.map(rank);
    assert(low =~= set_int_range(0, m)) by {
        assert forall|x: int| low.contains(x) implies set_int_range(0, m).contains(x) by {
            let i = choose|i: int| rs.contains(i) && rank(i) == x;
            lemma_rank_bounds(files, i);
        }
        assert forall|x: int| set_int_range(0, m).contains(x) implies low.contains(x) by {
            assert(image.contains(x));
            let i = choose|i: int| bs.contains(i) && rank(i) == x;
            assert(rs.contains(i));
        }
    }
    lemma_map_size(rs, low, rank);
    lemma_int_range(0, m);
}

fn count_backups(files: &Vec<BackupFile>) -> (r: usize)
    ensures
        r == n_backups(files@, files@.len() as int),
{
    let n = files.len();
    let mut c: usize = 0;
    let mut i: usize = 0;
    while i < n
        invariant
            n == files@.len(),
            i <= n,
            c == n_backups(files@, i as int),
            c <= i,
        decreases n - i,
    {
        if starts_with(files[i].name.as_str(), "astro_gear_") {
            c = c + 1;
        }
        i = i + 1;
    }
    c
}

fn is_older(a: Option<i128>, b: Option<i128>) -> (r: bool)
    ensures
        r == older(a, b),
{
    match (a, b) {
        (None, Some(_)) => true,
        (Some(x), Some(y)) => x < y,
        _ => false,
    }
}

fn rank_of(files: &Vec<BackupFile>, i: usize) -> (r: usize)
    requires
        i < files@.len(),
    ensures
        r == age_rank(files@, i as int),
{
    let n = files.len();
    let key = files[i].modified;
    let mut c: usize = 0;
    let mut j: usize = 0;
    while j < n
        invariant
            n == files@.len(),
            i < n,
            key == files@[i as int].modified,
            j <= n,
            c == n_older(files@, j as int, key) + (if j <= i { n_same(files@, j as int, key) } else { n_same(files@, i as int, key) }),
            c <= j,
        decreases n - j,
    {
        let f = &files[j];
        if starts_with(f.name.as_str(), "astro_gear_") {
            if is_older(f.modified, key) {
                c = c + 1;
            } else if j < i && f.modified == key {
                c = c + 1;
            }
        }
        proof {
            if j < i && is_backup(files@[j as int]) && older(files@[j as int].modified, key) {
                assert(files@[j as int].modified != key);
            }
        }
        j = j + 1;
    }
    c
}

/// The places, in listing order, of the backups to delete so that the
/// newest `count` remain (see `retired`).
pub fn backups_to_remove(files: &Vec<BackupFile>, count: usize) -> (r: Vec<usize>)
    ensures
        forall|k: int| 0 <= k < r@.len() ==> (r@[k] as int) < files@.len(),
        forall|k: int, l: int| 0 <= k < l < r@.len() ==> r@[k] < r@[l],
        forall|i: int| 0 <= i < files@.len() ==> (retired(files@, count as int, i) <==> r@.contains(i as usize)),
        r@.len() == (if n_backups(files@, files@.len() as int) > count {
            n_backups(files@, files@.len() as int) - count
        } else {
            0
        }),
{
    let n = files.len();
    let nb = count_backups(files);
    let mut out: Vec<usize> = Vec::new();
    if nb <= count {
        return out;
    }
    let excess = nb - count;
    let mut i: usize = 0;
    while i < n
        invariant
            n == files@.len(),
            nb == n_backups(files@, n as int),
            nb > count,
            excess == nb - count,
            i <= n,
            forall|k: int| 0 <= k < out@.len() ==> (out@[k] as int) < i,
            forall|k: int, l: int| 0 <= k < l < out@.len() ==> out@[k] < out@[l],
            forall|j: int| 0 <= j < i ==> (retired(files@, count as int, j) <==> out@.contains(j as usize)),
        decreases n - i,
    {
        let ghost prev = out@;
        if starts_with(files[i].name.as_str(), "astro_gear_") && rank_of(files, i) < excess {
            out.push(i);
            proof {
                assert(out@ == prev.push(i));
                assert forall|j: int| 0 <= j <= i implies (retired(files@, count as int, j) <==> out@.contains(j as usize)) by {
                    if j < i {
                        if out@.contains(j as usize) {
                            let k = choose|k: int| 0 <= k < out@.len() && out@[k] == j as usize;
                            assert(k < prev.len());
                            assert(prev[k] == j as usize);
                            assert(prev.contains(j as usize));
                        }
                        if prev.contains(j as usize) {
                            let k = choose|k: int| 0 <= k < prev.len() && prev[k] == j as usize;
                            assert(out@[k] == j as usize);
                        }
                    } else {
                        assert(out@[out@.len() - 1] == j as usize);
                    }
                }
            }
        } else {
            proof {
                if out@.contains(i) {
                    let k = choose|k: int| 0 <= k < out@.len() && out@[k] == i;
                }
            }
        }
        i = i + 1;
    }
    proof {
        let s = out@.map_values(|x: usize| x as int);
        assert(s.no_duplicates()) by {
            assert forall|a: int, b: int| 0 <= a < s.len() && 0 <= b < s.len() && a != b implies s[a] != s[b] by {
                if a < b {
                    assert(out@[a] < out@[b]);
                } else {
                    assert(out@[b] < out@[a]);
                }
            }
        }
        s.unique_seq_to_set();
        assert(s.to_set() =~= retired_places(files@, count as int)) by {
            assert forall|x: int| s.to_set().contains(x) implies retired_places(files@, count as int).contains(x) by {
                let k = choose|k: int| 0 <= k < s.len() && s[k] == x;
                assert(out@.contains(out@[k]));
            }
            assert forall|x: int| retired_places(files@, count as int).contains(x) implies s.to_set().contains(x) by {
                assert(out@.contains(x as usize));
                let k = choose|k: int| 0 <= k < out@.len() && out@[k] == x as usize;
                assert(s[k] == x);
            }
        }
        exactly_the_excess_is_retired(files@, count as int);
    }
    out
}

} // verus!
