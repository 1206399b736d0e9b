//! The interactive "carry-over" category selector as a pure state machine:
//! a cursor over the category catalogue and one checked flag per category.
//! The terminal front end feeds it keys and acts on the returned [`Action`].
use vstd::prelude::*;

use crate::manifest::{
    catalogue, categories, category_views, default_ids_of, lemma_category_ids_unique, CategoryView,
};
use crate::text::string_views;

verus! {

/// A key press, as far as the selector distinguishes keys.
#[derive(Clone, Copy, Debug, PartialEq, Eq, Structural)]
pub enum Key {
    Up,
    Down,
    Enter,
    Esc,
    Char(char),
    Other,
}

/// What a key press should do.
#[derive(Clone, Copy, Debug, PartialEq, Eq, Structural)]
pub enum Action {
    Continue,
    Confirm,
    Cancel,
}

/// Selection state over the category catalogue (cursor + per-row checked
/// flags).
#[derive(Debug)]
pub struct Selection {
    cursor: usize,
    checked: Vec<bool>,
}

/// The mathematical content of a [`Selection`].
pub struct SelectionView {
    pub cursor: int,
    pub checked: Seq<bool>,
}

impl View for Selection {
    type V = SelectionView;

    closed spec fn view(&self) -> SelectionView {
        SelectionView { cursor: self.cursor as int, checked: self.checked@ }
    }
}

/// One flag per category, and the cursor on a row.
pub open spec fn well_formed(v: SelectionView) -> bool {
    &&& v.checked.len() == catalogue().len()
    &&& 0 <= v.cursor < catalogue().len()
}

/// The preselected flags: the categories that are on by default.
pub open spec fn defaults_checked() -> Seq<bool> {
    catalogue().map_values(|c: CategoryView| c.default_on)
}

/// The state the selector starts in.
pub open spec fn initial() -> SelectionView {
    SelectionView { cursor: 0, checked: defaults_checked() }
}

pub open spec fn moved_up(v: SelectionView) -> SelectionView {
    SelectionView { cursor: if v.cursor > 0 { v.cursor - 1 } else { 0 }, checked: v.checked }
}

pub open spec fn moved_down(v: SelectionView) -> SelectionView {
    SelectionView {
        cursor: if v.cursor + 1 < catalogue().len() { v.cursor + 1 } else { v.cursor },
        checked: v.checked,
    }
}

/// The cursor row's flag flipped.
pub open spec fn toggled(v: SelectionView) -> SelectionView {
    SelectionView { cursor: v.cursor, checked: v.checked.update(v.cursor, !v.checked[v.cursor]) }
}

pub open spec fn all_checked(s: Seq<bool>) -> bool {
    forall|i: int| 0 <= i < s.len() ==> #[trigger] s[i]
}

/// Everything checked, or everything cleared when all were checked.
pub open spec fn all_toggled(v: SelectionView) -> SelectionView {
    SelectionView {
        cursor: v.cursor,
        checked: Seq::new(v.checked.len(), |i: int| !all_checked(v.checked)),
    }
}

/// The preselected set restored.
pub open spec fn reset(v: SelectionView) -> SelectionView {
    SelectionView { cursor: v.cursor, checked: defaults_checked() }
}

/// The state after a key press, and the action it asks for.
pub open spec fn after_key(v: SelectionView, key: Key) -> (SelectionView, Action) {
    match key {
        Key::Up => (moved_up(v), Action::Continue),
        Key::Down => (moved_down(v), Action::Continue),
        Key::Enter => (v, Action::Confirm),
        Key::Esc => (v, Action::Cancel),
        Key::Char(c) => if c == 'k' {
            (moved_up(v), Action::Continue)
        } else if c == 'j' {
            (moved_down(v), Action::Continue)
        } else if c == ' ' {
            (toggled(v), Action::Continue)
        } else if c == 'a' {
            (all_toggled(v), Action::Continue)
        } else if c == 'd' {
            (reset(v), Action::Continue)
        } else if c == 'q' {
            (v, Action::Cancel)
        } else {
            (v, Action::Continue)
        },
        Key::Other => (v, Action::Continue),
    }
}

/// The ids of the categories among `cs` whose flag in `checked` is set, in
/// order.
pub open spec fn checked_ids(cs: Seq<CategoryView>, checked: Seq<bool>) -> Seq<Seq<char>>
    decreases cs.len(),
{
    if cs.len() == 0 {
        Seq::empty()
    } else {
        let p = checked_ids(cs.drop_last(), checked);
        if checked[cs.len() - 1] {
            p.push(cs.last().id)
        } else {
            p
        }
    }
}

/// `v` with the flag at `c` flipped.
fn flipped(v: &Vec<bool>, c: usize) -> (r: Vec<bool>)
    requires
        c < v@.len(),
    ensures
        r@ == v@.update(c as int, !v@[c as int]),
{
    let n = v.len();
    let mut out: Vec<bool> = Vec::new();
    for i in 0..n
        invariant
            n == v@.len(),
            c < n,
            out@ == v@.update(c as int, !v@[c as int]).take(i as int),
    {
        if i == c {
            out.push(!v[i]);
        } else {
            out.push(v[i]);
        }
        assert(out@ =~= v@.update(c as int, !v@[c as int]).take(i + 1));
    }
    assert(v@.update(c as int, !v@[c as int]).take(n as int) =~= v@.update(c as int, !v@[c as int]));
    out
}

impl Selection {
    #[verifier::type_invariant]
    spec fn inv(self) -> bool {
        well_formed(self@)
    }

    /// The selector's start: cursor on the first row, the defaults checked.
    pub fn new() -> (r: Selection)
        ensures
            r@ == initial(),
            well_formed(r@),
    {
        let cats = categories();
        let n = cats.len();
        let mut checked: Vec<bool> = Vec::new();
        for i in 0..n
            invariant
                n == cats@.len(),
                category_views(cats@) == catalogue(),
                checked@ == defaults_checked().take(i as int),
        {
            assert(category_views(cats@)[i as int] == cats@[i as int]@);
            checked.push(cats[i].default_on);
            assert(checked@ =~= defaults_checked().take(i + 1));
        }
        assert(defaults_checked().take(n as int) =~= defaults_checked());
        Selection { cursor: 0, checked }
    }

    /// The row under the cursor.
    pub fn cursor(&self) -> (r: usize)
        ensures
            r == self@.cursor,
            r < catalogue().len(),
    {
        proof {
            use_type_invariant(self);
        }
        self.cursor
    }

    /// Whether row `i` is checked.
    pub fn is_checked(&self, i: usize) -> (r: bool)
        requires
            i < catalogue().len(),
        ensures
            r == self@.checked[i as int],
    {
        proof {
            use_type_invariant(self);
        }
        self.checked[i]
    }

    pub fn move_up(&mut self)
        ensures
            final(self)@ == moved_up(old(self)@),
            well_formed(final(self)@),
    {
        proof {
            use_type_invariant(&*self);
        }
        if self.cursor > 0 {
            self.cursor = self.cursor - 1;
        }
    }

    pub fn move_down(&mut self)
        ensures
            final(self)@ == moved_down(old(self)@),
            well_formed(final(self)@),
    {
        proof {
            use_type_invariant(&*self);
        }
        if self.cursor + 1 < self.checked.len() {
            self.cursor = self.cursor + 1;
        }
    }

    /// Flip the flag of the cursor row.
    pub fn toggle(&mut self)
        ensures
            final(self)@ == toggled(old(self)@),
            well_formed(final(self)@),
    {
        proof {
            use_type_invariant(&*self);
        }
        self.checked = flipped(&self.checked, self.cursor);
    }

    /// Check everything, or clear everything if all are already checked.
    pub fn toggle_all(&mut self)
        ensures
            final(self)@ == all_toggled(old(self)@),
            well_formed(final(self)@),
    {
        proof {
            use_type_invariant(&*self);
        }
        let n = self.checked.len();
        let mut all = true;
        for i in 0..n
            invariant
                n == self.checked@.len(),
                all == (forall|j: int| 0 <= j < i ==> #[trigger] self.checked@[j]),
        {
            all = all && self.checked[i];
        }
        let mut checked: Vec<bool> = Vec::new();
        for i in 0..n
            invariant
                checked@ == Seq::new(i as nat, |j: int| !all),
        {
            checked.push(!all);
            assert(checked@ =~= Seq::new((i + 1) as nat, |j: int| !all));
        }
        self.checked = checked;
    }

    /// Restore the preselected (default) set.
    pub fn reset_defaults(&mut self)
        ensures
            final(self)@ == reset(old(self)@),
            well_formed(final(self)@),
    {
        proof {
            use_type_invariant(&*self);
        }
        self.checked = Selection::new().checked;
    }

    /// The ids of the checked categories, in catalogue order.
    pub fn selected_ids(&self) -> (r: Vec<String>)
        ensures
            string_views(r@) == checked_ids(catalogue(), self@.checked),
    {
        proof {
            use_type_invariant(self);
        }
        let cats = categories();
        let n = cats.len();
        let mut out: Vec<String> = Vec::new();
        for i in 0..n
            invariant
                n == cats@.len(),
                n == self.checked@.len(),
                category_views(cats@) == catalogue(),
                string_views(out@) == checked_ids(catalogue().take(i as int), self@.checked),
        {
            assert(category_views(cats@)[i as int] == cats@[i as int]@);
            assert(catalogue().take(i + 1).drop_last() =~= catalogue().take(i as int));
            let ghost before = string_views(out@);
            if self.checked[i] {
                out.push(cats[i].id.to_owned());
                assert(string_views(out@) =~= before.push(cats@[i as int].id@));
            }
        }
        assert(catalogue().take(n as int) =~= catalogue());
        out
    }

    /// Apply a key press and say what it asks for.
    pub fn handle_key(&mut self, key: Key) -> (r: Action)
        ensures
            (final(self)@, r) == after_key(old(self)@, key),
            well_formed(final(self)@),
    {
        proof {
            use_type_invariant(&*self);
        }
        match key {
            Key::Up => self.move_up(),
            Key::Down => self.move_down(),
            Key::Enter => return Action::Confirm,
            Key::Esc => return Action::Cancel,
            Key::Char(c) => {
                if c == 'k' {
                    self.move_up();
                } else if c == 'j' {
                    self.move_down();
                } else if c == ' ' {
                    self.toggle();
                } else if c == 'a' {
                    self.toggle_all();
                } else if c == 'd' {
                    self.reset_defaults();
                } else if c == 'q' {
                    return Action::Cancel;
                }
            },
            Key::Other => {},
        }
        Action::Continue
    }
}

proof fn lemma_checked_ids_defaults(k: int)
    requires
        0 <= k <= catalogue().len(),
    ensures
        checked_ids(catalogue().take(k), defaults_checked()) == default_ids_of(catalogue().take(k)),
    decreases k,
{
    if k > 0 {
        assert(catalogue().take(k).drop_last() =~= catalogue().take(k - 1));
        lemma_checked_ids_defaults(k - 1);
    } else {
        assert(catalogue().take(0) =~= Seq::<CategoryView>::empty());
    }
}

/// The selector starts with exactly the default categories selected.
pub proof fn lemma_initial_selects_defaults()
    ensures
        checked_ids(catalogue(), initial().checked) == default_ids_of(catalogue()),
{
    lemma_checked_ids_defaults(catalogue().len() as int);
    assert(catalogue().take(catalogue().len() as int) =~= catalogue());
}

/// Toggling the same row twice restores the selection.
pub proof fn lemma_toggle_twice(v: SelectionView)
    requires
        well_formed(v),
    ensures
        toggled(toggled(v)) == v,
{
    assert(toggled(toggled(v)).checked =~= v.checked);
}

proof fn lemma_checked_ids_len(cs: Seq<CategoryView>, checked: Seq<bool>)
    requires
        checked.len() >= cs.len(),
    ensures
        all_checked(checked) ==> checked_ids(cs, checked) == cs.map_values(|c: CategoryView| c.id),
        (forall|i: int| 0 <= i < checked.len() ==> !#[trigger] checked[i]) ==> checked_ids(cs, checked).len() == 0,
    decreases cs.len(),
{
    if cs.len() > 0 {
        lemma_checked_ids_len(cs.drop_last(), checked);
        assert(cs.map_values(|c: CategoryView| c.id) =~= cs.drop_last().map_values(|c: CategoryView| c.id).push(cs.last().id));
    } else {
        assert(cs.map_values(|c: CategoryView| c.id) =~= Seq::<Seq<char>>::empty());
    }
}

/// "All" selects every category, in catalogue order, unless every category
/// was already selected, in which case it selects none.
pub proof fn lemma_toggle_all_selects_all_or_none(v: SelectionView)
    requires
        well_formed(v),
    ensures
        !all_checked(v.checked) ==> checked_ids(catalogue(), all_toggled(v).checked)
            == catalogue().map_values(|c: CategoryView| c.id),
        all_checked(v.checked) ==> checked_ids(catalogue(), all_toggled(v).checked).len() == 0,
{
    let t = all_toggled(v).checked;
    lemma_checked_ids_len(catalogue(), t);
    if !all_checked(v.checked) {
        assert(all_checked(t));
    }
}

/// The selection after `k` downward moves.
pub open spec fn moved_down_times(v: SelectionView, k: nat) -> SelectionView
    decreases k,
{
    if k == 0 {
        v
    } else {
        moved_down(moved_down_times(v, (k - 1) as nat))
    }
}

/// However often the cursor moves down, it stays on a row: after `k` moves
/// it is `k` rows further down but never past the last row, and no flag
/// changes. From the top, `catalogue().len() - 1` moves or more end on the
/// last row.
pub proof fn lemma_move_down_repeatedly(v: SelectionView, k: nat)
    requires
        well_formed(v),
    ensures
        well_formed(moved_down_times(v, k)),
        moved_down_times(v, k).checked == v.checked,
        moved_down_times(v, k).cursor == if v.cursor + k < catalogue().len() - 1 {
            v.cursor + k
        } else {
            catalogue().len() - 1
        },
        v.cursor == 0 && k >= catalogue().len() - 1 ==> moved_down_times(v, k).cursor == catalogue().len() - 1,
    decreases k,
{
    if k > 0 {
        lemma_move_down_repeatedly(v, (k - 1) as nat);
    }
}

/// What each key does to a selection, row by row:
/// - `'a'` checks every row when some row is unchecked, and clears every row
///   when all are checked;
/// - space flips the cursor row and only it;
/// - `'d'` checks exactly the default categories;
/// - up / `'k'` and down / `'j'` move the cursor one row, stopping at the
///   first and last rows, and change no flag;
/// - enter confirms and escape / `'q'` cancels, changing nothing; any other
///   key changes nothing.
pub proof fn lemma_key_effects(v: SelectionView, key: Key)
    requires
        well_formed(v),
    ensures
        ({
            let (w, a) = after_key(v, key);
            let n = catalogue().len() as int;
            &&& w.checked.len() == n
            &&& key == Key::Char('a') ==> {
                &&& a == Action::Continue
                &&& w.cursor == v.cursor
                &&& forall|i: int| 0 <= i < n ==> #[trigger] w.checked[i] == !(forall|j: int|
                    0 <= j < n ==> #[trigger] v.checked[j])
            }
            &&& key == Key::Char(' ') ==> {
                &&& a == Action::Continue
                &&& w.cursor == v.cursor
                &&& w.checked[v.cursor] == !v.checked[v.cursor]
                &&& forall|i: int| 0 <= i < n && i != v.cursor ==> #[trigger] w.checked[i] == v.checked[i]
            }
            &&& key == Key::Char('d') ==> {
                &&& a == Action::Continue
                &&& w.cursor == v.cursor
                &&& forall|i: int| 0 <= i < n ==> #[trigger] w.checked[i] == catalogue()[i].default_on
            }
            &&& (key == Key::Up || key == Key::Char('k')) ==> {
                &&& a == Action::Continue
                &&& w.checked == v.checked
                &&& w.cursor == if v.cursor == 0 { 0 } else { v.cursor - 1 }
            }
            &&& (key == Key::Down || key == Key::Char('j')) ==> {
                &&& a == Action::Continue
                &&& w.checked == v.checked
                &&& w.cursor == if v.cursor == n - 1 { n - 1 } else { v.cursor + 1 }
            }
            &&& key == Key::Enter ==> a == Action::Confirm && w == v
            &&& (key == Key::Esc || key == Key::Char('q')) ==> a == Action::Cancel && w == v
            &&& (key == Key::Other || (key is Char && key->Char_0 != 'a' && key->Char_0 != ' '
                && key->Char_0 != 'd' && key->Char_0 != 'k' && key->Char_0 != 'j' && key->Char_0
                != 'q')) ==> a == Action::Continue && w == v
        }),
{
    let n = catalogue().len() as int;
    if key == Key::Char('a') {
        let w = after_key(v, key).0;
        if forall|j: int| 0 <= j < n ==> #[trigger] v.checked[j] {
            assert(all_checked(v.checked));
        } else {
            assert(!all_checked(v.checked));
        }
        assert(w == all_toggled(v));
    }
}

proof fn lemma_checked_ids_members(k: int, c: Seq<bool>, x: Seq<char>)
    requires
        0 <= k <= catalogue().len(),
        c.len() == catalogue().len(),
    ensures
        checked_ids(catalogue().take(k), c).contains(x) <==> exists|i: int|
            0 <= i < k && c[i] && #[trigger] catalogue()[i].id == x,
        checked_ids(catalogue().take(k), c).len() <= k,
    decreases k,
{
    if k > 0 {
        let cs = catalogue().take(k);
        assert(cs.drop_last() =~= catalogue().take(k - 1));
        lemma_checked_ids_members(k - 1, c, x);
        let p = checked_ids(catalogue().take(k - 1), c);
        if checked_ids(cs, c).contains(x) {
            let a = choose|a: int| 0 <= a < checked_ids(cs, c).len() && checked_ids(cs, c)[a] == x;
            if a < p.len() {
                assert(p[a] == x);
            } else {
                assert(catalogue()[k - 1].id == x);
            }
        }
        if exists|i: int| 0 <= i < k && c[i] && #[trigger] catalogue()[i].id == x {
            let i = choose|i: int| 0 <= i < k && c[i] && #[trigger] catalogue()[i].id == x;
            if i < k - 1 {
                let a = choose|a: int| 0 <= a < p.len() && p[a] == x;
                assert(checked_ids(cs, c)[a] == x);
            } else {
                assert(checked_ids(cs, c)[p.len() as int] == x);
            }
        }
    } else {
        assert(catalogue().take(0) =~= Seq::<CategoryView>::empty());
    }
}

/// The selected ids are exactly the ids of the checked rows: a category's
/// id is selected if and only if its row is checked, and every selected id
/// is the id of a checked row.
pub proof fn lemma_selected_ids_are_checked_rows(c: Seq<bool>)
    requires
        c.len() == catalogue().len(),
    ensures
        forall|i: int| 0 <= i < catalogue().len() ==> (checked_ids(catalogue(), c).contains(
            #[trigger] catalogue()[i].id,
        ) <==> c[i]),
        forall|x: Seq<char>| #[trigger] checked_ids(catalogue(), c).contains(x) ==> exists|i: int|
            0 <= i < catalogue().len() && c[i] && catalogue()[i].id == x,
{
    lemma_category_ids_unique();
    let n = catalogue().len() as int;
    assert(catalogue().take(n) =~= catalogue());
    assert forall|i: int| 0 <= i < n implies (checked_ids(catalogue(), c).contains(#[trigger] catalogue()[i].id)
        <==> c[i]) by {
        lemma_checked_ids_members(n, c, catalogue()[i].id);
        if checked_ids(catalogue(), c).contains(catalogue()[i].id) {
            let j = choose|j: int| 0 <= j < n && c[j] && #[trigger] catalogue()[j].id == catalogue()[i].id;
            if j != i {
                if j < i {
                    assert(catalogue()[j].id != catalogue()[i].id);
                } else {
                    assert(catalogue()[i].id != catalogue()[j].id);
                }
            }
        }
    }
    assert forall|x: Seq<char>| #[trigger] checked_ids(catalogue(), c).contains(x) implies exists|i: int|
        0 <= i < n && c[i] && catalogue()[i].id == x by {
        lemma_checked_ids_members(n, c, x);
    }
}

} // verus!
