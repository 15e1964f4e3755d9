//! The picker's state: the branch set, the filter text, the filtered indices
//! and the selection cursor, with the key handling that drives them.

use vstd::prelude::*;
use vstd::string::StrSliceExecFns;

use crate::branch::Branch;
use crate::text::{
    contains, lemma_contains_empty, lemma_contains_longer, lower_char_of, lower_of, lowercase,
    matches_folded, pop_char, push_char,
};

verus! {

/// A branch name matches a filter when its lowercased form contains the
/// lowercased filter.
pub open spec fn name_matches(name: Seq<char>, filter: Seq<char>) -> bool {
    contains(lower_of(name), lower_of(filter))
}

/// The indices of the branches of `bs` whose names match `filter`, ascending.
pub open spec fn filtered_spec(bs: Seq<Branch>, filter: Seq<char>) -> Seq<usize>
    decreases bs.len(),
{
    if bs.len() == 0 {
        Seq::empty()
    } else {
        let init = filtered_spec(bs.drop_last(), filter);
        if name_matches(bs.last().name@, filter) {
            init.push((bs.len() - 1) as usize)
        } else {
            init
        }
    }
}

/// The indices `0..n`.
pub open spec fn all_indices(n: nat) -> Seq<usize> {
    Seq::new(n, |i: int| i as usize)
}

/// The cursor after a reset on a list of `len` entries.
pub open spec fn reset_spec(len: nat) -> Option<usize> {
    if len > 0 { Some(0usize) } else { None }
}

/// The cursor after moving down on a list of `len` entries: the next entry,
/// wrapping from the last to the first.
pub open spec fn next_spec(sel: Option<usize>, len: nat) -> Option<usize> {
    if len == 0 {
        sel
    } else {
        match sel {
            Some(i) => if i + 1 >= len { Some(0usize) } else { Some((i + 1) as usize) },
            None => Some(0usize),
        }
    }
}

/// The cursor after moving up on a list of `len` entries: the previous entry,
/// wrapping from the first to the last.
pub open spec fn previous_spec(sel: Option<usize>, len: nat) -> Option<usize> {
    if len == 0 {
        sel
    } else {
        match sel {
            Some(i) => if i == 0 { Some((len - 1) as usize) } else { Some((i - 1) as usize) },
            None => Some(0usize),
        }
    }
}

/// A key as the picker reads it.
pub enum Key {
    Char(char),
    Esc,
    Up,
    Down,
    Enter,
    Backspace,
    Other,
}

/// What the session does after a key.
pub enum Action {
    /// Redraw and wait for the next key.
    Continue,
    /// Leave the session without switching branches.
    Quit,
    /// Switch to the named branch, then leave the session.
    Switch(String),
}

/// The picker's model.
pub struct App {
    branches: Vec<Branch>,
    filtered_branches: Vec<usize>,
    selected: Option<usize>,
    filter: String,
}

/// With a filter that folds to the empty text, every branch is selected.
proof fn lemma_filtered_all(bs: Seq<Branch>, filter: Seq<char>)
    requires
        lower_of(filter).len() == 0,
    ensures
        filtered_spec(bs, filter) == all_indices(bs.len()),
    decreases bs.len(),
{
    if bs.len() > 0 {
        lemma_filtered_all(bs.drop_last(), filter);
        lemma_contains_empty(lower_of(bs.last().name@), lower_of(filter));
        assert(filtered_spec(bs, filter) =~= all_indices(bs.len()));
    }
}

/// The indices of the branches whose names match `filter`, in order.
pub fn filter_indices(branches: &Vec<Branch>, filter: &String) -> (r: Vec<usize>)
    ensures
        r@ == filtered_spec(branches@, filter@),
        filter@.len() == 0 ==> r@ == all_indices(branches@.len()),
{
    let folded_filter = lowercase(filter.as_str());
    let mut out: Vec<usize> = Vec::new();
    let mut i: usize = 0;
    if filter.as_str().is_empty() {
        proof {
            lemma_filtered_all(branches@, filter@);
        }
        while i < branches.len()
            invariant
                i <= branches@.len(),
                out@ == all_indices(i as nat),
            decreases branches@.len() - i,
        {
            out.push(i);
            i = i + 1;
            assert(out@ =~= all_indices(i as nat));
        }
        return out;
    }
    while i < branches.len()
        invariant
            i <= branches@.len(),
            folded_filter@ == lower_of(filter@),
            out@ == filtered_spec(branches@.take(i as int), filter@),
        decreases branches@.len() - i,
    {
        let folded_name = lowercase(branches[i].name.as_str());
        proof {
            assert(branches@.take(i + 1).drop_last() =~= branches@.take(i as int));
            assert(branches@.take(i + 1).last() == branches@[i as int]);
        }
        if matches_folded(folded_name.as_str(), folded_filter.as_str()) {
            out.push(i);
        }
        i = i + 1;
    }
    assert(branches@.take(i as int) =~= branches@);
    out
}

impl App {
    /// The filtered indices agree with the filter, and the cursor is `None`
    /// exactly when there is nothing to select, else a valid position.
    pub open spec fn wf(&self) -> bool {
        &&& self.filtered_view() == filtered_spec(self.branches_spec(), self.filter_view())
        &&& match self.selected_spec() {
            None => self.filtered_view().len() == 0,
            Some(i) => i < self.filtered_view().len(),
        }
    }

    pub closed spec fn branches_spec(&self) -> Seq<Branch> {
        self.branches@
    }

    pub closed spec fn filtered_view(&self) -> Seq<usize> {
        self.filtered_branches@
    }

    pub closed spec fn selected_spec(&self) -> Option<usize> {
        self.selected
    }

    pub closed spec fn filter_view(&self) -> Seq<char> {
        self.filter@
    }

    /// A picker over `branches` with an empty filter: every branch is listed
    /// and the first one, if any, is selected.
    pub fn new(branches: Vec<Branch>) -> (r: App)
        ensures
            r.wf(),
            r.branches_spec() == branches@,
            r.filter_view().len() == 0,
            r.filtered_view() == all_indices(branches@.len()),
            r.selected_spec() == reset_spec(branches@.len()),
    {
        let mut app = App {
            branches,
            filtered_branches: Vec::new(),
            selected: None,
            filter: String::new(),
        };
        app.update_filter();
        app
    }

    /// Recomputes the filtered indices from the filter text and resets the cursor.
    pub fn update_filter(&mut self)
        ensures
            final(self).wf(),
            final(self).branches_spec() == old(self).branches_spec(),
            final(self).filter_view() == old(self).filter_view(),
            final(self).filtered_view() == filtered_spec(old(self).branches_spec(), old(self).filter_view()),
            old(self).filter_view().len() == 0 ==> final(self).filtered_view() == all_indices(
                old(self).branches_spec().len(),
            ),
            final(self).selected_spec() == reset_spec(final(self).filtered_view().len()),
    {
        self.filtered_branches = filter_indices(&self.branches, &self.filter);
        if self.filtered_branches.len() > 0 {
            self.selected = Some(0);
        } else {
            self.selected = None;
        }
    }

    /// Moves the cursor down one entry, wrapping from the last to the first.
    pub fn next(&mut self)
        requires
            old(self).wf(),
        ensures
            final(self).wf(),
            final(self).branches_spec() == old(self).branches_spec(),
            final(self).filter_view() == old(self).filter_view(),
            final(self).filtered_view() == old(self).filtered_view(),
            final(self).selected_spec() == next_spec(old(self).selected_spec(), old(self).filtered_view().len()),
    {
        let len = self.filtered_branches.len();
        if len == 0 {
            return;
        }
        let i = match self.selected {
            Some(i) => if i >= len - 1 { 0 } else { i + 1 },
            None => 0,
        };
        self.selected = Some(i);
    }

    /// Moves the cursor up one entry, wrapping from the first to the last.
    pub fn previous(&mut self)
        requires
            old(self).wf(),
        ensures
            final(self).wf(),
            final(self).branches_spec() == old(self).branches_spec(),
            final(self).filter_view() == old(self).filter_view(),
            final(self).filtered_view() == old(self).filtered_view(),
            final(self).selected_spec() == previous_spec(old(self).selected_spec(), old(self).filtered_view().len()),
    {
        let len = self.filtered_branches.len();
        if len == 0 {
            return;
        }
        let i = match self.selected {
            Some(i) => if i == 0 { len - 1 } else { i - 1 },
            None => 0,
        };
        self.selected = Some(i);
    }

    /// Appends a character to the filter text.
    pub fn add_char(&mut self, c: char)
        ensures
            final(self).wf(),
            final(self).branches_spec() == old(self).branches_spec(),
            final(self).filter_view() == old(self).filter_view().push(c),
            final(self).filtered_view() == filtered_spec(old(self).branches_spec(), final(self).filter_view()),
            final(self).selected_spec() == reset_spec(final(self).filtered_view().len()),
    {
        push_char(&mut self.filter, c);
        self.update_filter();
    }

    /// Removes the last character of the filter text; on an empty filter it
    /// changes nothing.
    pub fn remove_char(&mut self)
        requires
            old(self).wf(),
        ensures
            final(self).wf(),
            old(self).filter_view().len() == 0 ==> *final(self) == *old(self),
            old(self).filter_view().len() > 0 ==> {
                &&& final(self).branches_spec() == old(self).branches_spec()
                &&& final(self).filter_view() == old(self).filter_view().drop_last()
                &&& final(self).filtered_view() == filtered_spec(
                    old(self).branches_spec(),
                    final(self).filter_view(),
                )
                &&& final(self).selected_spec() == reset_spec(final(self).filtered_view().len())
            },
    {
        if self.filter.as_str().is_empty() {
            return;
        }
        let _ = pop_char(&mut self.filter);
        self.update_filter();
    }

    /// The branch set.
    pub fn branches(&self) -> (r: &Vec<Branch>)
        ensures
            r@ == self.branches_spec(),
    {
        &self.branches
    }

    /// The indices into the branch set of the branches that match the filter.
    pub fn filtered_indices(&self) -> (r: &Vec<usize>)
        ensures
            r@ == self.filtered_view(),
    {
        &self.filtered_branches
    }

    /// The cursor: a position in the filtered indices.
    pub fn selected(&self) -> (r: Option<usize>)
        ensures
            r == self.selected_spec(),
    {
        self.selected
    }

    /// The filter text.
    pub fn filter(&self) -> (r: &String)
        ensures
            r@ == self.filter_view(),
    {
        &self.filter
    }

    /// The branch under the cursor.
    pub open spec fn selected_branch_spec(&self) -> Option<Branch> {
        match self.selected_spec() {
            Some(i) => Some(self.branches_spec()[self.filtered_view()[i as int] as int]),
            None => None,
        }
    }

    /// The branch under the cursor, if any.
    pub fn selected_branch(&self) -> (r: Option<&Branch>)
        requires
            self.wf(),
        ensures
            match r {
                Some(b) => self.selected_branch_spec() == Some(*b),
                None => self.selected_branch_spec() is None,
            },
    {
        match self.selected {
            Some(i) => {
                let n = self.branches.len();
                proof {
                    lemma_filtered_in_bounds(self.branches@, self.filter@);
                }
                let k = self.filtered_branches[i];
                assert(k < n);
                Some(&self.branches[k])
            },
            None => None,
        }
    }

    /// The action for confirming the selection: switch to the branch under
    /// the cursor unless it is already checked out or nothing is selected.
    pub open spec fn confirm_spec(&self) -> Action {
        match self.selected_branch_spec() {
            Some(b) => if b.is_current { Action::Quit } else { Action::Switch(b.name) },
            None => Action::Quit,
        }
    }

    /// Handles one key event. Only presses act; `q` and Esc quit, Down and
    /// `j` move down, Up and `k` move up, Enter confirms, Backspace shortens
    /// the filter, and any other character extends it.
    pub fn handle_key(&mut self, key: Key, pressed: bool) -> (r: Action)
        requires
            old(self).wf(),
        ensures
            final(self).wf(),
            final(self).branches_spec() == old(self).branches_spec(),
            !pressed ==> r is Continue && *final(self) == *old(self),
            pressed ==> match key {
                Key::Esc => r is Quit && *final(self) == *old(self),
                Key::Enter => r == old(self).confirm_spec() && *final(self) == *old(self),
                Key::Down => r is Continue && final(self).filter_view() == old(self).filter_view()
                    && final(self).selected_spec() == next_spec(
                    old(self).selected_spec(),
                    old(self).filtered_view().len(),
                ),
                Key::Up => r is Continue && final(self).filter_view() == old(self).filter_view()
                    && final(self).selected_spec() == previous_spec(
                    old(self).selected_spec(),
                    old(self).filtered_view().len(),
                ),
                Key::Backspace => r is Continue && if old(self).filter_view().len() == 0 {
                    *final(self) == *old(self)
                } else {
                    final(self).filter_view() == old(self).filter_view().drop_last()
                        && final(self).selected_spec() == reset_spec(final(self).filtered_view().len())
                },
                Key::Char(c) => if c == 'q' {
                    r is Quit && *final(self) == *old(self)
                } else if c == 'j' {
                    r is Continue && final(self).filter_view() == old(self).filter_view()
                        && final(self).selected_spec() == next_spec(
                        old(self).selected_spec(),
                        old(self).filtered_view().len(),
                    )
                } else if c == 'k' {
                    r is Continue && final(self).filter_view() == old(self).filter_view()
                        && final(self).selected_spec() == previous_spec(
                        old(self).selected_spec(),
                        old(self).filtered_view().len(),
                    )
                } else {
                    r is Continue && final(self).filter_view() == old(self).filter_view().push(c)
                        && final(self).selected_spec() == reset_spec(final(self).filtered_view().len())
                },
                Key::Other => r is Continue && *final(self) == *old(self),
            },
    {
        if !pressed {
            return Action::Continue;
        }
        match key {
            Key::Esc => Action::Quit,
            Key::Char('q') => Action::Quit,
            Key::Down | Key::Char('j') => {
                self.next();
                Action::Continue
            },
            Key::Up | Key::Char('k') => {
                self.previous();
                Action::Continue
            },
            Key::Enter => self.confirm(),
            Key::Backspace => {
                self.remove_char();
                Action::Continue
            },
            Key::Char(c) => {
                self.add_char(c);
                Action::Continue
            },
            Key::Other => Action::Continue,
        }
    }

    /// Confirms the selection: the branch to switch to, or `Quit` where the
    /// selected branch is already checked out or nothing is selected.
    pub fn confirm(&self) -> (r: Action)
        requires
            self.wf(),
        ensures
            r == self.confirm_spec(),
    {
        match self.selected_branch() {
            Some(b) => if b.is_current { Action::Quit } else { Action::Switch(b.name.clone()) },
            None => Action::Quit,
        }
    }
}

/// Every filtered index is a position in the branch set, and the indices ascend.
pub proof fn lemma_filtered_in_bounds(bs: Seq<Branch>, filter: Seq<char>)
    requires
        bs.len() <= usize::MAX,
    ensures
        filtered_spec(bs, filter).len() <= bs.len(),
        forall|k: int| 0 <= k < filtered_spec(bs, filter).len() ==> filtered_spec(bs, filter)[k] < bs.len(),
        forall|a: int, b: int| 0 <= a < b < filtered_spec(bs, filter).len() ==> filtered_spec(bs, filter)[a] < filtered_spec(bs, filter)[b],
    decreases bs.len(),
{
    if bs.len() > 0 {
        let init = filtered_spec(bs.drop_last(), filter);
        lemma_filtered_in_bounds(bs.drop_last(), filter);
        let r = filtered_spec(bs, filter);
        assert forall|a: int, b: int| 0 <= a < b < r.len() implies r[a] < r[b] by {
            if b < init.len() {
                assert(r[a] == init[a] && r[b] == init[b]);
            } else {
                assert(r[a] == init[a]);
            }
        }
    }
}

/// Filtering selects exactly the branches whose lowercased name contains the
/// lowercased filter, and lists their indices in the branch set's order.
pub proof fn lemma_filter_exact(bs: Seq<Branch>, filter: Seq<char>)
    requires
        bs.len() <= usize::MAX,
    ensures
        forall|k: usize| #[trigger]
            filtered_spec(bs, filter).contains(k) <==> (k < bs.len() && name_matches(
                bs[k as int].name@,
                filter,
            )),
        forall|a: int, b: int|
            0 <= a < b < filtered_spec(bs, filter).len() ==> filtered_spec(bs, filter)[a]
                < filtered_spec(bs, filter)[b],
    decreases bs.len(),
{
    lemma_filtered_in_bounds(bs, filter);
    if bs.len() > 0 {
        let init_bs = bs.drop_last();
        let init = filtered_spec(init_bs, filter);
        lemma_filter_exact(init_bs, filter);
        lemma_filtered_in_bounds(init_bs, filter);
        let r = filtered_spec(bs, filter);
        assert forall|k: usize| #[trigger] r.contains(k) <==> (k < bs.len() && name_matches(
            bs[k as int].name@,
            filter,
        )) by {
            if k < bs.len() - 1 {
                assert(bs[k as int] == init_bs[k as int]);
            }
            if r.contains(k) {
                let j = choose|j: int| 0 <= j < r.len() && r[j] == k;
                if j < init.len() {
                    assert(init.contains(k));
                }
            }
            if k < bs.len() && name_matches(bs[k as int].name@, filter) {
                if k < bs.len() - 1 {
                    assert(init.contains(k));
                    let j = choose|j: int| 0 <= j < init.len() && init[j] == k;
                    assert(r[j] == k);
                } else {
                    assert(r[r.len() - 1] == k);
                }
            }
        }
    }
}

/// Moves the cursor down `k` times.
pub open spec fn next_times(sel: Option<usize>, len: nat, k: nat) -> Option<usize>
    decreases k,
{
    if k == 0 {
        sel
    } else {
        next_spec(next_times(sel, len, (k - 1) as nat), len)
    }
}

proof fn lemma_next_times_split(sel: Option<usize>, len: nat, a: nat, b: nat)
    ensures
        next_times(sel, len, a + b) == next_times(next_times(sel, len, a), len, b),
    decreases b,
{
    if b > 0 {
        lemma_next_times_split(sel, len, a, (b - 1) as nat);
        assert((a + b - 1) as nat == a + (b - 1) as nat);
    }
}

proof fn lemma_next_times_climb(i: usize, len: nat, k: nat)
    requires
        i + k < len,
        len <= usize::MAX,
    ensures
        next_times(Some(i), len, k) == Some((i + k) as usize),
    decreases k,
{
    if k > 0 {
        lemma_next_times_climb(i, len, (k - 1) as nat);
    }
}

/// Moving up or down keeps the cursor on a valid position of a list of `len`
/// entries, and moving down `len` times comes back to where it started.
pub proof fn lemma_cursor_wraps(i: usize, len: nat)
    requires
        i < len,
        len <= usize::MAX,
    ensures
        next_spec(Some(i), len) matches Some(j) && j < len,
        previous_spec(Some(i), len) matches Some(j) && j < len,
        next_times(Some(i), len, len) == Some(i),
{
    let up = (len - 1 - i) as nat;
    lemma_next_times_climb(i, len, up);
    assert(next_times(Some(i), len, up + 1) == Some(0usize));
    lemma_next_times_climb(0usize, len, i as nat);
    lemma_next_times_split(Some(i), len, up + 1, i as nat);
    assert(up + 1 + i == len);
}

/// Confirming while the current branch is selected switches nothing.
pub proof fn lemma_confirm_current_is_quit(app: App)
    requires
        app.wf(),
        app.selected_branch_spec() matches Some(b) && b.is_current,
    ensures
        app.confirm_spec() is Quit,
{
}

/// The branch switch failed; holds what the version-control tool reported.
pub struct CheckoutError {
    pub diagnostic: String,
}

/// The outcome of a branch switch from the tool's exit status and error output.
pub fn checkout_result(success: bool, diagnostic: String) -> (r: Result<(), CheckoutError>)
    ensures
        success ==> r is Ok,
        !success ==> (r matches Err(e) && e.diagnostic == diagnostic),
{
    if success {
        Ok(())
    } else {
        Err(CheckoutError { diagnostic })
    }
}

/// Appending a character to the filter never adds matches: every branch
/// selected by the longer filter is selected by the shorter one.
pub proof fn lemma_longer_filter_narrows(bs: Seq<Branch>, filter: Seq<char>, c: char)
    requires
        bs.len() <= usize::MAX,
    ensures
        forall|k: usize| #[trigger]
            filtered_spec(bs, filter.push(c)).contains(k) ==> filtered_spec(bs, filter).contains(k),
{
    lemma_filter_exact(bs, filter);
    lemma_filter_exact(bs, filter.push(c));
    assert(lower_of(filter.push(c)) =~= lower_of(filter).push(lower_char_of(c)));
    assert forall|k: usize| #[trigger]
        filtered_spec(bs, filter.push(c)).contains(k) implies filtered_spec(bs, filter).contains(k) by {
        lemma_contains_longer(lower_of(bs[k as int].name@), lower_of(filter), lower_char_of(c));
    }
}

} // verus!
