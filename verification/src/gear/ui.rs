//! The rules of the catalogue screen: two lists (telescopes above,
//! eyepieces below), a cursor in each, tags, reordering, and the helpers
//! that lay the rows out.

use vstd::prelude::*;
use vstd::string::*;
use crate::calendar::{julian_day, valid_date, civil_date, civil_date_inverts_julian_day};
use crate::text::{push_char, push_padded, signed_padded, same_text, trim, trimmed};

verus! {

/// Which list the keys act on.
#[derive(Clone, Copy, Debug, PartialEq, Eq, Structural)]
pub enum Focus {
    Ts,
    Ep,
}

/// One list as the rules see it: its items, a tag per item, and the
/// cursor, a position in the order the list is shown in.
pub struct ColumnView<T> {
    pub items: Seq<T>,
    pub tagged: Seq<bool>,
    pub idx: int,
}

/// Two adjacent entries of `s` exchanged.
pub open spec fn swapped<A>(s: Seq<A>, i: int, j: int) -> Seq<A> {
    s.update(i, s[j]).update(j, s[i])
}

impl<T> ColumnView<T> {
    /// One tag per item, and the cursor on an item (or at 0 when empty).
    pub open spec fn wf(self) -> bool {
        &&& self.tagged.len() == self.items.len()
        &&& 0 <= self.idx
        &&& (self.idx < self.items.len() || self.idx == 0)
    }

    pub open spec fn len(self) -> int {
        self.items.len() as int
    }

    pub open spec fn with_idx(self, idx: int) -> Self {
        ColumnView { items: self.items, tagged: self.tagged, idx }
    }

    pub open spec fn moved_down(self) -> Self {
        if self.idx + 1 < self.len() { self.with_idx(self.idx + 1) } else { self }
    }

    pub open spec fn moved_up(self) -> Self {
        if self.idx > 0 { self.with_idx(self.idx - 1) } else { self }
    }

    /// The entry under the cursor moved one place up, its tag with it.
    pub open spec fn shifted_up(self) -> Self {
        if self.idx > 0 {
            ColumnView {
                items: swapped(self.items, self.idx, self.idx - 1),
                tagged: swapped(self.tagged, self.idx, self.idx - 1),
                idx: self.idx - 1,
            }
        } else {
            self
        }
    }

    /// The entry under the cursor moved one place down, its tag with it.
    pub open spec fn shifted_down(self) -> Self {
        if self.idx + 1 < self.len() {
            ColumnView {
                items: swapped(self.items, self.idx, self.idx + 1),
                tagged: swapped(self.tagged, self.idx, self.idx + 1),
                idx: self.idx + 1,
            }
        } else {
            self
        }
    }

    pub open spec fn at_first(self) -> Self {
        self.with_idx(0)
    }

    pub open spec fn at_last(self) -> Self {
        self.with_idx(if self.len() > 0 { self.len() - 1 } else { 0 })
    }

    /// The item under the cursor, by its place in the stored list:
    /// `order` lists the stored places in the order shown.
    pub open spec fn current(self, order: Seq<usize>) -> Option<int> {
        if 0 <= self.idx < order.len() { Some(order[self.idx] as int) } else { None }
    }

    pub open spec fn tag_toggled(self, order: Seq<usize>) -> Self {
        match self.current(order) {
            Some(i) => if i < self.tagged.len() {
                ColumnView { items: self.items, tagged: self.tagged.update(i, !self.tagged[i]), idx: self.idx }
            } else {
                self
            },
            None => self,
        }
    }

    pub open spec fn all_tagged(self, tag: bool) -> Self {
        ColumnView { items: self.items, tagged: Seq::new(self.tagged.len(), |i: int| tag), idx: self.idx }
    }

    pub open spec fn pushed(self, item: T) -> Self {
        ColumnView { items: self.items.push(item), tagged: self.tagged.push(false), idx: self.idx }
    }

    /// The item under the cursor gone, with its tag; the cursor stays
    /// on the list.
    pub open spec fn deleted(self, order: Seq<usize>) -> Self {
        match self.current(order) {
            Some(i) => {
                let items = self.items.remove(i);
                let tagged = if i < self.tagged.len() { self.tagged.remove(i) } else { self.tagged };
                let idx = if self.idx >= items.len() {
                    if items.len() > 0 { items.len() - 1 } else { 0 }
                } else {
                    self.idx
                };
                ColumnView { items, tagged, idx }
            },
            None => self,
        }
    }
}

/// The whole screen's state as the rules see it.
pub struct SelectionView<T, E> {
    pub ts: ColumnView<T>,
    pub ep: ColumnView<E>,
    pub focus: Focus,
    pub sort_on: bool,
}

impl<T, E> SelectionView<T, E> {
    pub open spec fn wf(self) -> bool {
        self.ts.wf() && self.ep.wf()
    }

    pub open spec fn with_ts(self, ts: ColumnView<T>) -> Self {
        SelectionView { ts, ep: self.ep, focus: self.focus, sort_on: self.sort_on }
    }

    pub open spec fn with_ep(self, ep: ColumnView<E>) -> Self {
        SelectionView { ts: self.ts, ep, focus: self.focus, sort_on: self.sort_on }
    }

    pub open spec fn focus_toggled(self) -> Self {
        SelectionView {
            ts: self.ts,
            ep: self.ep,
            focus: if self.focus == Focus::Ts { Focus::Ep } else { Focus::Ts },
            sort_on: self.sort_on,
        }
    }

    pub open spec fn sort_toggled(self) -> Self {
        SelectionView { ts: self.ts, ep: self.ep, focus: self.focus, sort_on: !self.sort_on }
    }

    pub open spec fn moved_down(self) -> Self {
        match self.focus {
            Focus::Ts => self.with_ts(self.ts.moved_down()),
            Focus::Ep => self.with_ep(self.ep.moved_down()),
        }
    }

    pub open spec fn moved_up(self) -> Self {
        match self.focus {
            Focus::Ts => self.with_ts(self.ts.moved_up()),
            Focus::Ep => self.with_ep(self.ep.moved_up()),
        }
    }

    /// Reordering acts on the stored order, so it does nothing while
    /// the lists are shown sorted.
    pub open spec fn shifted_up(self) -> Self {
        if self.sort_on {
            self
        } else {
            match self.focus {
                Focus::Ts => self.with_ts(self.ts.shifted_up()),
                Focus::Ep => self.with_ep(self.ep.shifted_up()),
            }
        }
    }

    pub open spec fn shifted_down(self) -> Self {
        if self.sort_on {
            self
        } else {
            match self.focus {
                Focus::Ts => self.with_ts(self.ts.shifted_down()),
                Focus::Ep => self.with_ep(self.ep.shifted_down()),
            }
        }
    }

    pub open spec fn at_first(self) -> Self {
        match self.focus {
            Focus::Ts => self.with_ts(self.ts.at_first()),
            Focus::Ep => self.with_ep(self.ep.at_first()),
        }
    }

    pub open spec fn at_last(self) -> Self {
        match self.focus {
            Focus::Ts => self.with_ts(self.ts.at_last()),
            Focus::Ep => self.with_ep(self.ep.at_last()),
        }
    }

    /// `order` is the shown order of the list in focus.
    pub open spec fn tag_toggled(self, order: Seq<usize>) -> Self {
        match self.focus {
            Focus::Ts => self.with_ts(self.ts.tag_toggled(order)),
            Focus::Ep => self.with_ep(self.ep.tag_toggled(order)),
        }
    }

    pub open spec fn all_tagged(self) -> Self {
        match self.focus {
            Focus::Ts => self.with_ts(self.ts.all_tagged(true)),
            Focus::Ep => self.with_ep(self.ep.all_tagged(true)),
        }
    }

    pub open spec fn none_tagged(self) -> Self {
        SelectionView {
            ts: self.ts.all_tagged(false),
            ep: self.ep.all_tagged(false),
            focus: self.focus,
            sort_on: self.sort_on,
        }
    }

    pub open spec fn deleted(self, order: Seq<usize>) -> Self {
        match self.focus {
            Focus::Ts => self.with_ts(self.ts.deleted(order)),
            Focus::Ep => self.with_ep(self.ep.deleted(order)),
        }
    }
}

/// One list: the items in their stored order, a tag per item, and the
/// cursor.
pub struct Column<T> {
    items: Vec<T>,
    tagged: Vec<bool>,
    idx: usize,
}

impl<T> View for Column<T> {
    type V = ColumnView<T>;

    closed spec fn view(&self) -> ColumnView<T> {
        ColumnView { items: self.items@, tagged: self.tagged@, idx: self.idx as int }
    }
}

/// Every entry of a list of flags set to `tag`.
fn set_all(flags: &mut Vec<bool>, tag: bool)
    ensures
        final(flags)@ == Seq::new(old(flags)@.len(), |i: int| tag),
{
    let n = flags.len();
    let mut i: usize = 0;
    while i < n
        invariant
            n == flags@.len(),
            n == old(flags)@.len(),
            i <= n,
            forall|j: int| 0 <= j < i ==> flags@[j] == tag,
        decreases n - i,
    {
        flags.set(i, tag);
        i = i + 1;
    }
    assert(flags@ =~= Seq::new(old(flags)@.len(), |i: int| tag));
}

proof fn lemma_swapped_symmetric<A>(s: Seq<A>, i: int, j: int)
    requires
        0 <= i < s.len(),
        0 <= j < s.len(),
    ensures
        swapped(s, i, j) == swapped(s, j, i),
{
    let a1 = s.update(i, s[j]);
    let a = a1.update(j, s[i]);
    let b1 = s.update(j, s[i]);
    let b = b1.update(i, s[j]);
    assert(a == swapped(s, i, j));
    assert(b == swapped(s, j, i));
    assert forall|k: int| 0 <= k < s.len() implies a[k] == b[k] by {
        if k == i {
            assert(b[k] == s[j]);
            if k == j {
                assert(a[k] == s[i]);
            } else {
                assert(a[k] == a1[k]);
            }
        } else if k == j {
            assert(a[k] == s[i]);
            assert(b[k] == b1[k]);
        } else {
            assert(a[k] == a1[k]);
            assert(b[k] == b1[k]);
        }
    }
    assert(a =~= b);
}

/// Exchanges the entries at `i - 1` and `i`.
fn swap_with_previous<A>(v: &mut Vec<A>, i: usize)
    requires
        0 < i < old(v)@.len(),
    ensures
        final(v)@ == swapped(old(v)@, i as int, i - 1),
{
    let ghost o = v@;
    let x = v.remove(i);
    v.insert(i - 1, x);
    let ghost w = swapped(o, i as int, i - 1);
    assert(v@.len() == o.len());
    assert forall|k: int| 0 <= k < o.len() implies v@[k] == w[k] by {
        let r = o.remove(i as int);
        assert(v@ == r.insert(i - 1, o[i as int]));
        if k < i - 1 {
            assert(v@[k] == r[k]);
        } else if k == i - 1 {
        } else if k == i {
            assert(v@[k] == r[k - 1]);
        } else {
            assert(v@[k] == r[k - 1]);
        }
    }
    assert(v@ =~= w);
}

impl<T> Column<T> {
    fn new(items: Vec<T>) -> (c: Self)
        ensures
            c@.wf(),
            c@.items == items@,
            c@.tagged == Seq::new(items@.len(), |i: int| false),
            c@.idx == 0,
    {
        let n = items.len();
        let mut tagged: Vec<bool> = Vec::new();
        let mut i: usize = 0;
        while i < n
            invariant
                i <= n,
                tagged@ == Seq::new(i as nat, |j: int| false),
            decreases n - i,
        {
            tagged.push(false);
            i = i + 1;
            assert(tagged@ =~= Seq::new(i as nat, |j: int| false));
        }
        Column { items, tagged, idx: 0 }
    }

    fn move_down(&mut self)
        requires
            old(self)@.wf(),
        ensures
            final(self)@ == old(self)@.moved_down(),
    {
        let n = self.items.len();
        if self.idx + 1 < n {
            self.idx = self.idx + 1;
        }
    }

    fn move_up(&mut self)
        ensures
            final(self)@ == old(self)@.moved_up(),
    {
        if self.idx > 0 {
            self.idx = self.idx - 1;
        }
    }

    fn shift_up(&mut self)
        requires
            old(self)@.wf(),
        ensures
            final(self)@ == old(self)@.shifted_up(),
    {
        if self.idx > 0 {
            swap_with_previous(&mut self.items, self.idx);
            swap_with_previous(&mut self.tagged, self.idx);
            self.idx = self.idx - 1;
        }
    }

    fn shift_down(&mut self)
        requires
            old(self)@.wf(),
        ensures
            final(self)@ == old(self)@.shifted_down(),
    {
        let n = self.items.len();
        if self.idx + 1 < n {
            swap_with_previous(&mut self.items, self.idx + 1);
            swap_with_previous(&mut self.tagged, self.idx + 1);
            self.idx = self.idx + 1;
            proof {
                lemma_swapped_symmetric(old(self)@.items, self.idx as int, self.idx - 1);
                lemma_swapped_symmetric(old(self)@.tagged, self.idx as int, self.idx - 1);
            }
        }
    }

    fn go_first(&mut self)
        ensures
            final(self)@ == old(self)@.at_first(),
    {
        self.idx = 0;
    }

    fn go_last(&mut self)
        ensures
            final(self)@ == old(self)@.at_last(),
    {
        self.idx = if self.items.len() > 0 { self.items.len() - 1 } else { 0 };
    }

    fn current(&self, order: &Vec<usize>) -> (r: Option<usize>)
        ensures
            match r {
                Some(i) => self@.current(order@) == Some(i as int),
                None => self@.current(order@) is None,
            },
    {
        if self.idx < order.len() {
            Some(order[self.idx])
        } else {
            None
        }
    }

    fn toggle_tag(&mut self, order: &Vec<usize>)
        ensures
            final(self)@ == old(self)@.tag_toggled(order@),
    {
        if let Some(i) = self.current(order) {
            if i < self.tagged.len() {
                let b = self.tagged[i];
                self.tagged.set(i, !b);
            }
        }
    }

    fn set_tags(&mut self, tag: bool)
        ensures
            final(self)@ == old(self)@.all_tagged(tag),
    {
        set_all(&mut self.tagged, tag);
    }

    fn push(&mut self, item: T)
        ensures
            final(self)@ == old(self)@.pushed(item),
    {
        self.items.push(item);
        self.tagged.push(false);
    }

    fn delete(&mut self, order: &Vec<usize>)
        requires
            old(self)@.current(order@) matches Some(i) ==> i < old(self)@.len(),
        ensures
            final(self)@ == old(self)@.deleted(order@),
    {
        if let Some(i) = self.current(order) {
            self.items.remove(i);
            if i < self.tagged.len() {
                self.tagged.remove(i);
            }
            if self.idx >= self.items.len() {
                self.idx = if self.items.len() > 0 { self.items.len() - 1 } else { 0 };
            }
        }
    }
}

/// The catalogue screen's state: both lists, which one has the focus,
/// and whether they are shown sorted.
pub struct Selection<T, E> {
    ts: Column<T>,
    ep: Column<E>,
    focus: Focus,
    sort_on: bool,
}

impl<T, E> View for Selection<T, E> {
    type V = SelectionView<T, E>;

    closed spec fn view(&self) -> SelectionView<T, E> {
        SelectionView { ts: self.ts@, ep: self.ep@, focus: self.focus, sort_on: self.sort_on }
    }
}

impl<T, E> Selection<T, E> {
    /// Both lists untagged, the cursors at the top, the focus on the
    /// telescopes, unsorted.
    pub fn new(telescopes: Vec<T>, eyepieces: Vec<E>) -> (s: Self)
        ensures
            s@.wf(),
            s@.ts.items == telescopes@,
            s@.ep.items == eyepieces@,
            s@.ts.tagged == Seq::new(telescopes@.len(), |i: int| false),
            s@.ep.tagged == Seq::new(eyepieces@.len(), |i: int| false),
            s@.ts.idx == 0,
            s@.ep.idx == 0,
            s@.focus == Focus::Ts,
            !s@.sort_on,
    {
        Selection { ts: Column::new(telescopes), ep: Column::new(eyepieces), focus: Focus::Ts, sort_on: false }
    }

    pub fn telescopes(&self) -> (r: &Vec<T>)
        ensures
            r@ == self@.ts.items,
    {
        &self.ts.items
    }

    pub fn eyepieces(&self) -> (r: &Vec<E>)
        ensures
            r@ == self@.ep.items,
    {
        &self.ep.items
    }

    pub fn ts_tagged(&self) -> (r: &Vec<bool>)
        ensures
            r@ == self@.ts.tagged,
    {
        &self.ts.tagged
    }

    pub fn ep_tagged(&self) -> (r: &Vec<bool>)
        ensures
            r@ == self@.ep.tagged,
    {
        &self.ep.tagged
    }

    pub fn ts_idx(&self) -> (r: usize)
        ensures
            r == self@.ts.idx,
    {
        self.ts.idx
    }

    pub fn ep_idx(&self) -> (r: usize)
        ensures
            r == self@.ep.idx,
    {
        self.ep.idx
    }

    pub fn focus(&self) -> (r: Focus)
        ensures
            r == self@.focus,
    {
        self.focus
    }

    pub fn sort_on(&self) -> (r: bool)
        ensures
            r == self@.sort_on,
    {
        self.sort_on
    }

    pub fn toggle_focus(&mut self)
        ensures
            final(self)@ == old(self)@.focus_toggled(),
    {
        self.focus = match self.focus {
            Focus::Ts => Focus::Ep,
            Focus::Ep => Focus::Ts,
        };
    }

    pub fn toggle_sort(&mut self)
        ensures
            final(self)@ == old(self)@.sort_toggled(),
    {
        self.sort_on = !self.sort_on;
    }

    pub fn move_down(&mut self)
        requires
            old(self)@.wf(),
        ensures
            final(self)@ == old(self)@.moved_down(),
            final(self)@.wf(),
    {
        match self.focus {
            Focus::Ts => self.ts.move_down(),
            Focus::Ep => self.ep.move_down(),
        }
    }

    pub fn move_up(&mut self)
        requires
            old(self)@.wf(),
        ensures
            final(self)@ == old(self)@.moved_up(),
            final(self)@.wf(),
    {
        match self.focus {
            Focus::Ts => self.ts.move_up(),
            Focus::Ep => self.ep.move_up(),
        }
    }

    pub fn shift_up(&mut self)
        requires
            old(self)@.wf(),
        ensures
            final(self)@ == old(self)@.shifted_up(),
            final(self)@.wf(),
    {
        if self.sort_on {
            return;
        }
        match self.focus {
            Focus::Ts => self.ts.shift_up(),
            Focus::Ep => self.ep.shift_up(),
        }
    }

    pub fn shift_down(&mut self)
        requires
            old(self)@.wf(),
        ensures
            final(self)@ == old(self)@.shifted_down(),
            final(self)@.wf(),
    {
        if self.sort_on {
            return;
        }
        match self.focus {
            Focus::Ts => self.ts.shift_down(),
            Focus::Ep => self.ep.shift_down(),
        }
    }

    pub fn go_first(&mut self)
        requires
            old(self)@.wf(),
        ensures
            final(self)@ == old(self)@.at_first(),
            final(self)@.wf(),
    {
        match self.focus {
            Focus::Ts => self.ts.go_first(),
            Focus::Ep => self.ep.go_first(),
        }
    }

    pub fn go_last(&mut self)
        requires
            old(self)@.wf(),
        ensures
            final(self)@ == old(self)@.at_last(),
            final(self)@.wf(),
    {
        match self.focus {
            Focus::Ts => self.ts.go_last(),
            Focus::Ep => self.ep.go_last(),
        }
    }

    /// The stored place of the telescope under the cursor, given the
    /// order the telescopes are shown in.
    pub fn current_ts_orig_idx(&self, order: &Vec<usize>) -> (r: Option<usize>)
        ensures
            match r {
                Some(i) => self@.ts.current(order@) == Some(i as int),
                None => self@.ts.current(order@) is None,
            },
    {
        self.ts.current(order)
    }

    /// The stored place of the eyepiece under the cursor, given the
    /// order the eyepieces are shown in.
    pub fn current_ep_orig_idx(&self, order: &Vec<usize>) -> (r: Option<usize>)
        ensures
            match r {
                Some(i) => self@.ep.current(order@) == Some(i as int),
                None => self@.ep.current(order@) is None,
            },
    {
        self.ep.current(order)
    }

    /// Flips the tag of the entry under the cursor; `order` is the shown
    /// order of the list in focus.
    pub fn toggle_tag(&mut self, order: &Vec<usize>)
        requires
            old(self)@.wf(),
        ensures
            final(self)@ == old(self)@.tag_toggled(order@),
            final(self)@.wf(),
    {
        match self.focus {
            Focus::Ts => self.ts.toggle_tag(order),
            Focus::Ep => self.ep.toggle_tag(order),
        }
    }

    /// Tags every entry of the list in focus.
    pub fn tag_all(&mut self)
        requires
            old(self)@.wf(),
        ensures
            final(self)@ == old(self)@.all_tagged(),
            final(self)@.wf(),
    {
        match self.focus {
            Focus::Ts => self.ts.set_tags(true),
            Focus::Ep => self.ep.set_tags(true),
        }
    }

    /// Clears the tags of both lists.
    pub fn untag_all(&mut self)
        requires
            old(self)@.wf(),
        ensures
            final(self)@ == old(self)@.none_tagged(),
            final(self)@.wf(),
    {
        self.ts.set_tags(false);
        self.ep.set_tags(false);
    }

    /// A new telescope at the end of the list, untagged.
    pub fn add_telescope(&mut self, t: T)
        requires
            old(self)@.wf(),
        ensures
            final(self)@ == old(self)@.with_ts(old(self)@.ts.pushed(t)),
            final(self)@.wf(),
    {
        self.ts.push(t);
    }

    /// A new eyepiece at the end of the list, untagged.
    pub fn add_eyepiece(&mut self, e: E)
        requires
            old(self)@.wf(),
        ensures
            final(self)@ == old(self)@.with_ep(old(self)@.ep.pushed(e)),
            final(self)@.wf(),
    {
        self.ep.push(e);
    }

    /// The telescope stored at `i` replaced (an edit).
    pub fn replace_telescope(&mut self, i: usize, t: T)
        requires
            old(self)@.wf(),
            i < old(self)@.ts.len(),
        ensures
            final(self)@ == old(self)@.with_ts(ColumnView {
                items: old(self)@.ts.items.update(i as int, t),
                tagged: old(self)@.ts.tagged,
                idx: old(self)@.ts.idx,
            }),
            final(self)@.wf(),
    {
        self.ts.items.set(i, t);
    }

    /// The eyepiece stored at `i` replaced (an edit).
    pub fn replace_eyepiece(&mut self, i: usize, e: E)
        requires
            old(self)@.wf(),
            i < old(self)@.ep.len(),
        ensures
            final(self)@ == old(self)@.with_ep(ColumnView {
                items: old(self)@.ep.items.update(i as int, e),
                tagged: old(self)@.ep.tagged,
                idx: old(self)@.ep.idx,
            }),
            final(self)@.wf(),
    {
        self.ep.items.set(i, e);
    }

    /// Deletes the entry under the cursor of the list in focus; `order`
    /// is that list's shown order, a list of its stored places.
    pub fn delete_selected(&mut self, order: &Vec<usize>)
        requires
            old(self)@.wf(),
            old(self)@.focus == Focus::Ts ==> (old(self)@.ts.current(order@) matches Some(i) ==> i < old(self)@.ts.len()),
            old(self)@.focus == Focus::Ep ==> (old(self)@.ep.current(order@) matches Some(i) ==> i < old(self)@.ep.len()),
        ensures
            final(self)@ == old(self)@.deleted(order@),
            final(self)@.wf(),
    {
        match self.focus {
            Focus::Ts => self.ts.delete(order),
            Focus::Ep => self.ep.delete(order),
        }
    }
}

/// Every key of the screen keeps one tag per item and each cursor on
/// its list (or at 0 on an empty list).
pub proof fn every_step_keeps_the_lists_well_formed<T, E>(
    s: SelectionView<T, E>,
    order: Seq<usize>,
    t: T,
    e: E,
)
    requires
        s.wf(),
    ensures
        s.focus_toggled().wf(),
        s.sort_toggled().wf(),
        s.moved_down().wf(),
        s.moved_up().wf(),
        s.shifted_up().wf(),
        s.shifted_down().wf(),
        s.at_first().wf(),
        s.at_last().wf(),
        s.tag_toggled(order).wf(),
        s.all_tagged().wf(),
        s.none_tagged().wf(),
        s.with_ts(s.ts.pushed(t)).wf(),
        s.with_ep(s.ep.pushed(e)).wf(),
        (s.focus == Focus::Ts ==> (s.ts.current(order) matches Some(i) ==> i < s.ts.len()))
            && (s.focus == Focus::Ep ==> (s.ep.current(order) matches Some(i) ==> i < s.ep.len()))
            ==> s.deleted(order).wf(),
{
}

/// Moving the entry under the cursor up and then down again puts the
/// list, its tags and the cursor back as they were.
pub proof fn shift_down_undoes_shift_up<T>(c: ColumnView<T>)
    requires
        c.wf(),
        c.idx > 0,
    ensures
        c.shifted_up().shifted_down() == c,
{
    let u = c.shifted_up();
    assert(u.shifted_down().items =~= c.items);
    assert(u.shifted_down().tagged =~= c.tagged);
}

/// Moving the entry under the cursor down and then up again puts the
/// list, its tags and the cursor back as they were.
pub proof fn shift_up_undoes_shift_down<T>(c: ColumnView<T>)
    requires
        c.wf(),
        c.idx + 1 < c.len(),
    ensures
        c.shifted_down().shifted_up() == c,
{
    let d = c.shifted_down();
    assert(d.shifted_up().items =~= c.items);
    assert(d.shifted_up().tagged =~= c.tagged);
}

/// On the screen: with the lists unsorted, moving the entry under the
/// cursor up and then down again (or down and then up) leaves both
/// lists, their tags and cursors as they were.
pub proof fn reordering_undoes_itself<T, E>(s: SelectionView<T, E>)
    requires
        s.wf(),
        !s.sort_on,
    ensures
        (match s.focus {
            Focus::Ts => s.ts.idx > 0,
            Focus::Ep => s.ep.idx > 0,
        }) ==> s.shifted_up().shifted_down() == s,
        (match s.focus {
            Focus::Ts => s.ts.idx + 1 < s.ts.len(),
            Focus::Ep => s.ep.idx + 1 < s.ep.len(),
        }) ==> s.shifted_down().shifted_up() == s,
{
    match s.focus {
        Focus::Ts => {
            if s.ts.idx > 0 {
                shift_down_undoes_shift_up(s.ts);
            }
            if s.ts.idx + 1 < s.ts.len() {
                shift_up_undoes_shift_down(s.ts);
            }
        },
        Focus::Ep => {
            if s.ep.idx > 0 {
                shift_down_undoes_shift_up(s.ep);
            }
            if s.ep.idx + 1 < s.ep.len() {
                shift_up_undoes_shift_down(s.ep);
            }
        },
    }
}

/// New gear goes at the end of its list, untagged: the tags already
/// there are unchanged, the new entry's tag is off, and the number of
/// tagged entries stays the same; the cursor does not move.
pub proof fn new_gear_arrives_untagged<T>(c: ColumnView<T>, item: T)
    requires
        c.wf(),
    ensures
        ({
            let p = c.pushed(item);
            &&& p.wf()
            &&& p.items.len() == c.items.len() + 1
            &&& p.items[p.items.len() - 1] == item
            &&& forall|k: int| 0 <= k < c.items.len() ==> p.items[k] == c.items[k]
            &&& p.tagged.len() == c.tagged.len() + 1
            &&& !p.tagged[p.tagged.len() - 1]
            &&& forall|k: int| 0 <= k < c.tagged.len() ==> p.tagged[k] == c.tagged[k]
            &&& n_tagged(p.tagged) == n_tagged(c.tagged)
            &&& p.idx == c.idx
        }),
{
    let p = c.pushed(item);
    assert(p.tagged.drop_last() =~= c.tagged);
}

/// A moved entry keeps its tag, the cursor stays on it, and nothing
/// else in the list changes place.
pub proof fn a_moved_entry_keeps_its_tag<T>(c: ColumnView<T>)
    requires
        c.wf(),
        c.idx > 0,
    ensures
        ({
            let u = c.shifted_up();
            &&& u.items[u.idx] == c.items[c.idx]
            &&& u.tagged[u.idx] == c.tagged[c.idx]
            &&& u.items[c.idx] == c.items[u.idx]
            &&& u.tagged[c.idx] == c.tagged[u.idx]
            &&& u.items.len() == c.items.len()
            &&& forall|k: int| 0 <= k < c.len() && k != c.idx && k != u.idx ==> u.items[k] == c.items[k] && u.tagged[k] == c.tagged[k]
        }),
{
}

/// The cursor going down and back up comes back to where it was, and
/// the same for up and back down.
pub proof fn cursor_moves_undo_each_other<T>(c: ColumnView<T>)
    requires
        c.wf(),
    ensures
        c.idx + 1 < c.len() ==> c.moved_down().moved_up() == c,
        c.idx > 0 ==> c.moved_up().moved_down() == c,
{
}

/// Toggling a tag twice leaves the tags as they were.
pub proof fn toggling_a_tag_twice_changes_nothing<T>(c: ColumnView<T>, order: Seq<usize>)
    requires
        c.wf(),
    ensures
        c.tag_toggled(order).tag_toggled(order) == c,
{
    match c.current(order) {
        Some(i) => {
            if i < c.tagged.len() {
                assert(c.tag_toggled(order).tag_toggled(order).tagged =~= c.tagged);
            }
        },
        None => {},
    }
}

/// After tagging all, every entry of the list in focus is tagged; after
/// untagging all, no entry of either list is.
pub proof fn tag_all_and_untag_all<T, E>(s: SelectionView<T, E>)
    requires
        s.wf(),
    ensures
        s.focus == Focus::Ts ==> forall|i: int| 0 <= i < s.ts.len() ==> s.all_tagged().ts.tagged[i],
        s.focus == Focus::Ep ==> forall|i: int| 0 <= i < s.ep.len() ==> s.all_tagged().ep.tagged[i],
        forall|i: int| 0 <= i < s.ts.len() ==> !s.none_tagged().ts.tagged[i],
        forall|i: int| 0 <= i < s.ep.len() ==> !s.none_tagged().ep.tagged[i],
{
}

/// Deleting takes out exactly the entry under the cursor, and its tag:
/// the entries before it stay in place and the ones after move up one.
pub proof fn delete_takes_out_the_entry_under_the_cursor<T>(c: ColumnView<T>, order: Seq<usize>)
    requires
        c.wf(),
        c.current(order) matches Some(i) && i < c.len(),
    ensures
        ({
            let i = c.current(order)->0;
            let d = c.deleted(order);
            &&& d.len() == c.len() - 1
            &&& forall|k: int| 0 <= k < i ==> d.items[k] == c.items[k] && d.tagged[k] == c.tagged[k]
            &&& forall|k: int| i <= k < d.len() ==> d.items[k] == c.items[k + 1] && d.tagged[k] == c.tagged[k + 1]
        }),
{
}

/// How many entries are tagged.
pub open spec fn n_tagged(tags: Seq<bool>) -> int
    decreases tags.len(),
{
    if tags.len() == 0 {
        0
    } else {
        n_tagged(tags.drop_last()) + if tags.last() { 1int } else { 0int }
    }
}

/// How many entries are tagged, for the header line.
pub fn count_tagged(tags: &Vec<bool>) -> (r: usize)
    ensures
        r == n_tagged(tags@),
{
    let n = tags.len();
    let mut c: usize = 0;
    let mut i: usize = 0;
    while i < n
        invariant
            n == tags@.len(),
            i <= n,
            c <= i,
            c == n_tagged(tags@.take(i as int)),
        decreases n - i,
    {
        assert(tags@.take(i + 1).drop_last() =~= tags@.take(i as int));
        if tags[i] {
            c = c + 1;
        }
        i = i + 1;
    }
    assert(tags@.take(n as int) =~= tags@);
    c
}

/// Whether the answer to "Delete selected? (y/n)" is yes: `y` or `Y`,
/// white space around it ignored.
pub fn is_yes(answer: &str) -> (r: bool)
    ensures
        r == (trimmed(answer@) == "y"@ || trimmed(answer@) == "Y"@),
{
    let t = trim(answer);
    same_text(t.as_str(), "y") || same_text(t.as_str(), "Y")
}

/// `label value tail` when there is a value, else nothing.
pub open spec fn line_if(label: Seq<char>, value: Seq<char>, tail: Seq<char>) -> Seq<char> {
    if value.len() > 0 { label + value + tail } else { seq![] }
}

fn push_line_if(out: &mut String, label: &str, value: &str, tail: &str)
    ensures
        final(out)@ == old(out)@ + line_if(label@, value@, tail@),
{
    if value.unicode_len() > 0 {
        out.append(label);
        out.append(value);
        out.append(tail);
    }
    assert(out@ =~= old(out)@ + line_if(label@, value@, tail@));
}

/// The head of an observation log: title, date, and the conditions the
/// sky screen knew when gear mode was opened, each line only when known.
pub open spec fn log_header_spec(
    date: Seq<char>,
    location: Seq<char>,
    hour: Seq<char>,
    weather: Seq<char>,
    moon: Seq<char>,
    visible: Seq<char>,
) -> Seq<char> {
    "# Observation Log\n\n"@ + "Date: "@ + date + "\n"@
        + line_if("Location: "@, location, "\n"@)
        + line_if("Time: "@, hour, ":00\n"@)
        + line_if("Weather: "@, weather, "\n"@)
        + line_if("Moon: "@, moon, "\n"@)
        + line_if("Visible: "@, visible, "\n"@)
}

pub fn log_header(
    date: &str,
    location: &str,
    hour: &str,
    weather: &str,
    moon: &str,
    visible: &str,
) -> (r: String)
    ensures
        r@ == log_header_spec(date@, location@, hour@, weather@, moon@, visible@),
{
    let mut out = String::from_str("# Observation Log\n\n");
    out.append("Date: ");
    out.append(date);
    out.append("\n");
    push_line_if(&mut out, "Location: ", location, "\n");
    push_line_if(&mut out, "Time: ", hour, ":00\n");
    push_line_if(&mut out, "Weather: ", weather, "\n");
    push_line_if(&mut out, "Moon: ", moon, "\n");
    push_line_if(&mut out, "Visible: ", visible, "\n");
    out
}

/// What a key does in gear mode.
#[derive(Clone, Copy, Debug, PartialEq, Eq, Structural)]
pub enum GearKey {
    /// Back to the sky chart, saving (and backing up when configured).
    BackToSky,
    /// Quit astro, saving (and backing up when configured).
    Quit,
    /// Quit astro without saving.
    QuitNoSave,
    ClearStatus,
    Help,
    AddTelescope,
    AddEyepiece,
    Edit,
    ToggleFocus,
    Down,
    Up,
    ShiftUp,
    ShiftDown,
    First,
    Last,
    ToggleTag,
    UntagAll,
    TagAll,
    ToggleSort,
    Delete,
    ObservationLog,
    ExportCsv,
    ExportJson,
    Redraw,
    Version,
    Nothing,
}

/// The gear screen's key map.
pub open spec fn gear_key_spec(k: Seq<char>) -> GearKey {
    if k == "g"@ || k == "G"@ { GearKey::BackToSky }
    else if k == "q"@ { GearKey::Quit }
    else if k == "Q"@ { GearKey::QuitNoSave }
    else if k == "ESC"@ { GearKey::ClearStatus }
    else if k == "?"@ { GearKey::Help }
    else if k == "t"@ { GearKey::AddTelescope }
    else if k == "e"@ { GearKey::AddEyepiece }
    else if k == "ENTER"@ { GearKey::Edit }
    else if k == "TAB"@ { GearKey::ToggleFocus }
    else if k == "j"@ || k == "DOWN"@ { GearKey::Down }
    else if k == "k"@ || k == "UP"@ { GearKey::Up }
    else if k == "S-UP"@ { GearKey::ShiftUp }
    else if k == "S-DOWN"@ { GearKey::ShiftDown }
    else if k == "HOME"@ { GearKey::First }
    else if k == "END"@ { GearKey::Last }
    else if k == " "@ || k == "SPACE"@ { GearKey::ToggleTag }
    else if k == "u"@ { GearKey::UntagAll }
    else if k == "A"@ { GearKey::TagAll }
    else if k == "o"@ { GearKey::ToggleSort }
    else if k == "D"@ { GearKey::Delete }
    else if k == "C-O"@ { GearKey::ObservationLog }
    else if k == "x"@ { GearKey::ExportCsv }
    else if k == "X"@ { GearKey::ExportJson }
    else if k == "r"@ { GearKey::Redraw }
    else if k == "v"@ { GearKey::Version }
    else { GearKey::Nothing }
}

pub fn gear_key(k: &str) -> (r: GearKey)
    ensures
        r == gear_key_spec(k@),
{
    if same_text(k, "g") || same_text(k, "G") { GearKey::BackToSky }
    else if same_text(k, "q") { GearKey::Quit }
    else if same_text(k, "Q") { GearKey::QuitNoSave }
    else if same_text(k, "ESC") { GearKey::ClearStatus }
    else if same_text(k, "?") { GearKey::Help }
    else if same_text(k, "t") { GearKey::AddTelescope }
    else if same_text(k, "e") { GearKey::AddEyepiece }
    else if same_text(k, "ENTER") { GearKey::Edit }
    else if same_text(k, "TAB") { GearKey::ToggleFocus }
    else if same_text(k, "j") || same_text(k, "DOWN") { GearKey::Down }
    else if same_text(k, "k") || same_text(k, "UP") { GearKey::Up }
    else if same_text(k, "S-UP") { GearKey::ShiftUp }
    else if same_text(k, "S-DOWN") { GearKey::ShiftDown }
    else if same_text(k, "HOME") { GearKey::First }
    else if same_text(k, "END") { GearKey::Last }
    else if same_text(k, " ") || same_text(k, "SPACE") { GearKey::ToggleTag }
    else if same_text(k, "u") { GearKey::UntagAll }
    else if same_text(k, "A") { GearKey::TagAll }
    else if same_text(k, "o") { GearKey::ToggleSort }
    else if same_text(k, "D") { GearKey::Delete }
    else if same_text(k, "C-O") { GearKey::ObservationLog }
    else if same_text(k, "x") { GearKey::ExportCsv }
    else if same_text(k, "X") { GearKey::ExportJson }
    else if same_text(k, "r") { GearKey::Redraw }
    else if same_text(k, "v") { GearKey::Version }
    else { GearKey::Nothing }
}

/// The stored order `0, 1, .., n - 1`: how a list is shown unsorted.
pub fn stored_order(n: usize) -> (r: Vec<usize>)
    ensures
        r@ == Seq::new(n as nat, |i: int| i as usize),
{
    let mut r: Vec<usize> = Vec::new();
    let mut i: usize = 0;
    while i < n
        invariant
            i <= n,
            r@ == Seq::new(i as nat, |j: int| j as usize),
        decreases n - i,
    {
        r.push(i);
        i = i + 1;
        assert(r@ =~= Seq::new(i as nat, |j: int| j as usize));
    }
    r
}

/// `text` cut to `n` characters, its last one replaced by an ellipsis
/// when it was longer.
pub open spec fn truncated(text: Seq<char>, n: int) -> Seq<char> {
    if text.len() <= n {
        text
    } else {
        text.take(if n > 0 { n - 1 } else { 0 }) + seq!['\u{2026}']
    }
}

/// The name cut to `n` characters, with an ellipsis when shortened.
pub fn truncate_or_pad(s: &str, n: usize) -> (r: String)
    ensures
        r@ == truncated(s@, n as int),
        r@.len() <= if n > 0 { n as int } else { 1 },
        s@.len() <= n ==> r@ == s@,
{
    let cc = s.unicode_len();
    if cc <= n {
        String::from_str(s)
    } else {
        let k = if n > 0 { n - 1 } else { 0 };
        let mut out = String::from_str(s.substring_char(0, k));
        push_char(&mut out, '\u{2026}');
        out
    }
}

/// `text` with every `"` doubled.
pub open spec fn doubled_quotes(text: Seq<char>) -> Seq<char>
    decreases text.len(),
{
    if text.len() == 0 {
        seq![]
    } else {
        let rest = doubled_quotes(text.drop_last());
        if text.last() == '"' { rest + seq!['"', '"'] } else { rest.push(text.last()) }
    }
}

/// A CSV field: quoted, with its quotes doubled, when it holds a comma,
/// a quote or a line break; else as it is.
pub open spec fn csv_field(text: Seq<char>) -> Seq<char> {
    if text.contains(',') || text.contains('"') || text.contains('\n') {
        seq!['"'] + doubled_quotes(text) + seq!['"']
    } else {
        text
    }
}

pub fn csv_escape(s: &str) -> (r: String)
    ensures
        r@ == csv_field(s@),
{
    let n = s.unicode_len();
    let mut special = false;
    let mut i: usize = 0;
    while i < n
        invariant
            n == s@.len(),
            i <= n,
            special == exists|j: int| 0 <= j < i && (s@[j] == ',' || s@[j] == '"' || s@[j] == '\n'),
        decreases n - i,
    {
        let c = s.get_char(i);
        if c == ',' || c == '"' || c == '\n' {
            special = true;
        }
        i = i + 1;
    }
    proof {
        if special {
            let j = choose|j: int| 0 <= j < n && (s@[j] == ',' || s@[j] == '"' || s@[j] == '\n');
            assert(s@.contains(s@[j]));
        } else {
            assert(!s@.contains(','));
            assert(!s@.contains('"'));
            assert(!s@.contains('\n'));
        }
    }
    if !special {
        return String::from_str(s);
    }
    let mut out = String::new();
    push_char(&mut out, '"');
    let mut i: usize = 0;
    while i < n
        invariant
            n == s@.len(),
            i <= n,
            out@ == seq!['"'] + doubled_quotes(s@.take(i as int)),
        decreases n - i,
    {
        let c = s.get_char(i);
        push_char(&mut out, c);
        if c == '"' {
            push_char(&mut out, '"');
        }
        assert(s@.take(i + 1).drop_last() =~= s@.take(i as int));
        i = i + 1;
        assert(out@ =~= seq!['"'] + doubled_quotes(s@.take(i as int)));
    }
    push_char(&mut out, '"');
    assert(s@.take(n as int) =~= s@);
    out
}

/// The first row shown of a list of `total` rows in a pane `h` rows
/// high, so that row `idx` shows, near the middle when it can.
pub open spec fn scroll_offset_spec(idx: int, total: int, h: int) -> int {
    if total <= h {
        0
    } else if idx < h / 2 {
        0
    } else if idx + h / 2 >= total {
        total - h
    } else {
        idx - h / 2
    }
}

/// The first row to show; the selected row is always on screen and the
/// pane is never scrolled past the end of the list.
pub fn scroll_offset(idx: usize, total: usize, h: usize) -> (r: usize)
    requires
        total > h && idx >= h / 2 ==> idx + h / 2 <= usize::MAX,
    ensures
        r == scroll_offset_spec(idx as int, total as int, h as int),
        total > h && h > 0 && idx < total ==> r <= idx < r + h && r + h <= total,
{
    if total <= h {
        return 0;
    }
    let half = h / 2;
    if idx < half {
        0
    } else if idx + half >= total {
        total - h
    } else {
        idx - half
    }
}

/// The value of a hexadecimal digit byte.
pub open spec fn hex_digit(b: u8) -> Option<int> {
    if 48 <= b <= 57 {
        Some(b - 48)
    } else if 97 <= b <= 102 {
        Some(b - 87)
    } else if 65 <= b <= 70 {
        Some(b - 55)
    } else {
        None
    }
}

/// What `u8::from_str_radix(.., 16)` makes of two bytes: a `+` and one
/// digit, or two digits.
pub open spec fn hex_pair(b0: u8, b1: u8) -> Option<int> {
    if b0 == 43 {
        hex_digit(b1)
    } else {
        match (hex_digit(b0), hex_digit(b1)) {
            (Some(h), Some(l)) => Some(16 * h + l),
            _ => None,
        }
    }
}

/// A colour channel (0 to 255) on the 6 steps of the 256-colour cube.
pub open spec fn cube_step(c: int) -> int {
    if c < 48 { 0 } else if c < 115 { 1 } else { (c - 35) / 40 }
}

pub open spec fn channel(bytes: Seq<u8>, at: int) -> int {
    match hex_pair(bytes[at], bytes[at + 1]) {
        Some(v) => v,
        None => 0,
    }
}

/// The 256-colour index of an `rrggbb` colour; 234 when it is too short.
pub open spec fn color_index(bytes: Seq<u8>) -> int {
    if bytes.len() < 6 {
        234
    } else {
        16 + 36 * cube_step(channel(bytes, 0)) + 6 * cube_step(channel(bytes, 2)) + cube_step(channel(bytes, 4))
    }
}

fn exec_hex_digit(b: u8) -> (r: Option<u32>)
    ensures
        match hex_digit(b) {
            Some(v) => r == Some(v as u32),
            None => r is None,
        },
{
    if 48 <= b && b <= 57 {
        Some((b - 48) as u32)
    } else if 97 <= b && b <= 102 {
        Some((b - 87) as u32)
    } else if 65 <= b && b <= 70 {
        Some((b - 55) as u32)
    } else {
        None
    }
}

fn exec_channel(bytes: &[u8], at: usize) -> (r: u32)
    requires
        at + 1 < bytes@.len(),
    ensures
        r == channel(bytes@, at as int),
        r <= 255,
{
    let b0 = bytes[at];
    let b1 = bytes[at + 1];
    if b0 == 43 {
        match exec_hex_digit(b1) {
            Some(v) => v,
            None => 0,
        }
    } else {
        match (exec_hex_digit(b0), exec_hex_digit(b1)) {
            (Some(h), Some(l)) => 16 * h + l,
            _ => 0,
        }
    }
}

fn exec_cube_step(c: u32) -> (r: u32)
    requires
        c <= 255,
    ensures
        r == cube_step(c as int),
        r <= 5,
{
    if c < 48 { 0 } else if c < 115 { 1 } else { (c - 35) / 40 }
}

/// The 256-colour index of a configured `rrggbb` header colour. The
/// slices at bytes 2, 4 and 6 must fall on character boundaries, as
/// `&hex[0..2]`, `&hex[2..4]` and `&hex[4..6]` demand.
pub fn hex_to_256(hex: &str) -> (r: u16)
    requires
        hex.spec_bytes().len() >= 6 ==> {
            &&& vstd::utf8::is_char_boundary(hex.spec_bytes(), 2)
            &&& vstd::utf8::is_char_boundary(hex.spec_bytes(), 4)
            &&& vstd::utf8::is_char_boundary(hex.spec_bytes(), 6)
        },
    ensures
        r == color_index(hex.spec_bytes()),
        hex.spec_bytes().len() >= 6 ==> 16 <= r <= 231,
{
    let bytes = hex.as_bytes();
    if bytes.len() < 6 {
        return 234;
    }
    let r = exec_cube_step(exec_channel(bytes, 0));
    let g = exec_cube_step(exec_channel(bytes, 2));
    let b = exec_cube_step(exec_channel(bytes, 4));
    (16 + 36 * r + 6 * g + b) as u16
}

/// The proleptic Gregorian date `(year, month, day)` of a count of days
/// since 1970-01-01, by Howard Hinnant's `civil_from_days`.
pub open spec fn date_of_day(days: int) -> (int, int, int) {
    let z = days + 719468;
    let era = z / 146097;
    let doe = z - era * 146097;
    let yoe = (doe - doe / 1460 + doe / 36524 - doe / 146096) / 365;
    let y = yoe + era * 400;
    let doy = doe - (365 * yoe + yoe / 4 - yoe / 100);
    let mp = (5 * doy + 2) / 153;
    let d = doy - (153 * mp + 2) / 5 + 1;
    let m = if mp < 10 { mp + 3 } else { mp - 9 };
    (if m <= 2 { y + 1 } else { y }, m, d)
}

/// The date of a day count is a real date, and it is the date that the
/// Julian day number of the plan's calendar gives for that day
/// (1970-01-01 is Julian day 2440588): the log's date stamp and the
/// night's calendar agree.
#[verifier::rlimit(40)]
pub proof fn log_dates_agree_with_the_night_calendar(days: int)
    requires
        -700_000_000_000 <= days <= 700_000_000_000,
    ensures
        ({
            let (y, m, d) = date_of_day(days);
            &&& valid_date(y, m, d)
            &&& julian_day(y, m, d) == days + 2440588
            &&& i32::MIN <= y <= i32::MAX ==> civil_date(days + 2440588) == (y as i32, m as u32, d as u32)
        }),
{
    let z = days + 719468;
    let era = z / 146097;
    let doe = z - era * 146097;
    let yoe = (doe - doe / 1460 + doe / 36524 - doe / 146096) / 365;
    let doy = doe - (365 * yoe + yoe / 4 - yoe / 100);
    let mp = (5 * doy + 2) / 153;
    let d = doy - (153 * mp + 2) / 5 + 1;
    let m = if mp < 10 { mp + 3 } else { mp - 9 };
    let y = yoe + era * 400;
    lemma_year_of_era(doe);
    assert(0 <= mp <= 11);
    assert(1 <= d);
    let y_out = if m <= 2 { y + 1 } else { y };
    lemma_julian_of_march_year(y, mp, d);
    assert(julian_day(y_out, m, d) == (1461 * (y + 4716)) / 4 + (306001 * (mp + 4)) / 10000 + d
        + (2 - y / 100 + (y / 100) / 4) - 1524);
    lemma_era_parts(era, yoe);
    assert((306001 * (mp + 4)) / 10000 == (153 * mp + 2) / 5 + 122) by {
        if mp == 0 {} else if mp == 1 {} else if mp == 2 {} else if mp == 3 {}
        else if mp == 4 {} else if mp == 5 {} else if mp == 6 {} else if mp == 7 {}
        else if mp == 8 {} else if mp == 9 {} else if mp == 10 {} else {}
    }
    assert(julian_day(y_out, m, d) == days + 2440588);
    lemma_month_length(y, yoe, era, mp, doy, d);
    if i32::MIN <= y_out <= i32::MAX {
        civil_date_inverts_julian_day(y_out, m, d);
    }
}

proof fn lemma_julian_of_march_year(y: int, mp: int, d: int)
    requires
        0 <= mp <= 11,
    ensures
        ({
            let m = if mp < 10 { mp + 3 } else { mp - 9 };
            let y_out = if m <= 2 { y + 1 } else { y };
            julian_day(y_out, m, d) == (1461 * (y + 4716)) / 4 + (306001 * (mp + 4)) / 10000 + d
                + (2 - y / 100 + (y / 100) / 4) - 1524
        }),
{
}

#[verifier::rlimit(40)]
proof fn lemma_era_parts(era: int, yoe: int)
    requires
        0 <= yoe < 400,
    ensures
        ({
            let y = yoe + era * 400;
            &&& (1461 * (y + 4716)) / 4 == 146100 * era + 1722519 + 365 * yoe + yoe / 4
            &&& y / 100 == 4 * era + yoe / 100
            &&& (y / 100) / 4 == era
            &&& (y + 1) % 4 == (yoe + 1) % 4
            &&& (y + 1) % 100 == (yoe + 1) % 100
            &&& (y + 1) % 400 == (yoe + 1) % 400
        }),
{
    let y = yoe + era * 400;
    let q4 = yoe / 4;
    let q100 = yoe / 100;
    assert(1461 * (y + 4716) == 4 * (146100 * era + 1722519 + 365 * yoe + q4) + (yoe - 4 * q4));
    assert(y == 100 * (4 * era + q100) + (yoe - 100 * q100));
    assert(4 * era + q100 == 4 * era + q100 && 0 <= q100 < 4);
    let w = yoe + 1;
    assert(y + 1 == w + 400 * era);
    assert((w + 400 * era) % 4 == w % 4) by {
        assert(w + 400 * era == w + 4 * (100 * era));
        vstd::arithmetic::div_mod::lemma_mod_multiples_vanish(100 * era, w, 4);
    }
    assert((w + 400 * era) % 100 == w % 100) by {
        assert(w + 400 * era == w + 100 * (4 * era));
        vstd::arithmetic::div_mod::lemma_mod_multiples_vanish(4 * era, w, 100);
    }
    assert((w + 400 * era) % 400 == w % 400) by {
        vstd::arithmetic::div_mod::lemma_mod_multiples_vanish(era, w, 400);
    }
}

#[verifier::rlimit(40)]
proof fn lemma_month_length(y: int, yoe: int, era: int, mp: int, doy: int, d: int)
    requires
        y == yoe + era * 400,
        0 <= yoe < 400,
        0 <= doy <= 365,
        doy == 365 ==> (yoe + 1) % 4 == 0 && ((yoe + 1) % 100 != 0 || (yoe + 1) % 400 == 0),
        mp == (5 * doy + 2) / 153,
        d == doy - (153 * mp + 2) / 5 + 1,
    ensures
        ({
            let m = if mp < 10 { mp + 3 } else { mp - 9 };
            let y_out = if m <= 2 { y + 1 } else { y };
            valid_date(y_out, m, d)
        }),
{
    lemma_era_parts(era, yoe);
    assert(0 <= mp <= 11);
    if mp == 0 {} else if mp == 1 {} else if mp == 2 {} else if mp == 3 {}
    else if mp == 4 {} else if mp == 5 {} else if mp == 6 {} else if mp == 7 {}
    else if mp == 8 {} else if mp == 9 {} else if mp == 10 {} else {
        assert(d <= 29);
    }
}

/// Within one 400-year era (day `doe` of it, counted from March 1), the
/// year `yoe` found by the leap-day-removing division and the day `doy`
/// left over: a day of that March-to-February year, day 365 only in a
/// year whose February has 29 days.
#[verifier::rlimit(40)]
proof fn lemma_year_of_era(doe: int)
    requires
        0 <= doe < 146097,
    ensures
        ({
            let yoe = (doe - doe / 1460 + doe / 36524 - doe / 146096) / 365;
            let doy = doe - (365 * yoe + yoe / 4 - yoe / 100);
            &&& 0 <= yoe < 400
            &&& 0 <= doy <= 365
            &&& doy == 365 ==> (yoe + 1) % 4 == 0 && ((yoe + 1) % 100 != 0 || (yoe + 1) % 400 == 0)
        }),
{
    if doe == 146096 {
    } else {
        let c = doe / 36524;
        let r = doe - 36524 * c;
        let k = r / 1461;
        let s = r - 1461 * k;
        let j = if s / 365 > 3 { 3 } else { s / 365 };
        assert(0 <= c <= 3);
        assert(0 <= k <= 24);
        assert(0 <= s <= 1460);
        assert(doe / 146096 == 0);
        assert(doe / 36524 == c);
        let delta = if 24 * c + k + s >= 1460 { 1int } else { 0int };
        assert(doe / 1460 == 25 * c + k + delta);
        assert((s - delta) / 365 == j);
        let yoe = (doe - doe / 1460 + doe / 36524 - doe / 146096) / 365;
        assert(doe - doe / 1460 + doe / 36524 - doe / 146096 == 36500 * c + 1460 * k + s - delta);
        assert(yoe == 100 * c + 4 * k + j);
        assert(yoe / 4 == 25 * c + k);
        assert(yoe / 100 == c);
    }
}

/// `YYYY-MM-DD`, each part zero-padded as `{:04}-{:02}-{:02}` writes it.
pub open spec fn iso_date(date: (int, int, int)) -> Seq<char> {
    signed_padded(date.0, 4) + seq!['-'] + signed_padded(date.1, 2) + seq!['-'] + signed_padded(date.2, 2)
}

/// The date of a day count since 1970-01-01 (see `date_of_day`).
#[verifier::rlimit(30)]
fn civil_from_days(days: i64) -> (r: (i64, i64, i64))
    requires
        -200_000_000_000_000 <= days <= 200_000_000_000_000,
    ensures
        (r.0 as int, r.1 as int, r.2 as int) == date_of_day(days as int),
{
    let z = days + 719468;
    let era: i64 = match z.checked_div_euclid(146097) {
        Some(q) => q,
        None => 0,
    };
    assert(era == z as int / 146097);
    let doe = z - era * 146097;
    assert(0 <= doe < 146097);
    let yoe = (doe - doe / 1460 + doe / 36524 - doe / 146096) / 365;
    let doy = doe - (365 * yoe + yoe / 4 - yoe / 100);
    proof {
        lemma_year_of_era(doe as int);
    }
    assert(0 <= yoe < 400 && 0 <= doy <= 365);
    let y = yoe + era * 400;
    let mp = (5 * doy + 2) / 153;
    let d = doy - (153 * mp + 2) / 5 + 1;
    let m = if mp < 10 { mp + 3 } else { mp - 9 };
    (if m <= 2 { y + 1 } else { y }, m, d)
}

/// The UTC date of a Unix time, `YYYY-MM-DD`: the date an observation
/// log is stamped with.
pub fn chrono_date(secs: i64) -> (r: String)
    ensures
        r@ == iso_date(date_of_day(secs as int / 86400)),
{
    let days: i64 = match secs.checked_div_euclid(86400) {
        Some(q) => q,
        None => 0,
    };
    assert(days == secs as int / 86400);
    let (y, m, d) = civil_from_days(days);
    let mut out = String::new();
    push_padded(&mut out, y, 4);
    push_char(&mut out, '-');
    push_padded(&mut out, m, 2);
    push_char(&mut out, '-');
    push_padded(&mut out, d, 2);
    out
}

} // verus!
