//! What a frame shows: the filter line and, for each filtered branch, its
//! markers, its tone and its age.

use vstd::prelude::*;
use vstd::string::StringExecFns;

use crate::branch::Branch;
use crate::picker::{lemma_filtered_in_bounds, App};
use crate::text::{decimal, decimal_string};

verus! {

pub const SECS_PER_MINUTE: i64 = 60;

pub const SECS_PER_HOUR: i64 = 3600;

pub const SECS_PER_DAY: i64 = 86400;

/// How long ago a branch was last active, in its largest whole unit.
pub enum Age {
    Days(u64),
    Hours(u64),
    Minutes(u64),
}

/// The age of a branch active at `then`, seen at `now`: whole days if at
/// least one, else whole hours if at least one, else whole minutes but never
/// fewer than one.
pub open spec fn age_spec(now: i64, then: i64) -> Age {
    let d = now - then;
    if d >= SECS_PER_DAY {
        Age::Days((d / SECS_PER_DAY as int) as u64)
    } else if d >= SECS_PER_HOUR {
        Age::Hours((d / SECS_PER_HOUR as int) as u64)
    } else if d >= 2 * SECS_PER_MINUTE {
        Age::Minutes((d / SECS_PER_MINUTE as int) as u64)
    } else {
        Age::Minutes(1)
    }
}

/// The age of a branch active at `then`, seen at `now`.
pub fn age(now: i64, then: i64) -> (r: Age)
    ensures
        r == age_spec(now, then),
{
    if now <= then {
        return Age::Minutes(1);
    }
    let d: u64 = if then >= 0 {
        (now - then) as u64
    } else if now >= 0 {
        now as u64 + (0 - (then + 1)) as u64 + 1
    } else {
        (now - then) as u64
    };
    assert(d == now - then);
    if d >= SECS_PER_DAY as u64 {
        Age::Days(d / SECS_PER_DAY as u64)
    } else if d >= SECS_PER_HOUR as u64 {
        Age::Hours(d / SECS_PER_HOUR as u64)
    } else if d >= 2 * SECS_PER_MINUTE as u64 {
        Age::Minutes(d / SECS_PER_MINUTE as u64)
    } else {
        Age::Minutes(1)
    }
}

/// The annotation for an age: a space, then the count and its unit letter in
/// parentheses, such as ` (3d)`.
pub open spec fn age_text_spec(a: Age) -> Seq<char> {
    match a {
        Age::Days(n) => seq![' ', '('] + decimal(n as nat) + seq!['d', ')'],
        Age::Hours(n) => seq![' ', '('] + decimal(n as nat) + seq!['h', ')'],
        Age::Minutes(n) => seq![' ', '('] + decimal(n as nat) + seq!['m', ')'],
    }
}

/// The annotation for an age.
pub fn age_text(a: &Age) -> (r: String)
    ensures
        r@ == age_text_spec(*a),
{
    let (n, unit) = match a {
        Age::Days(n) => (*n, "d)"),
        Age::Hours(n) => (*n, "h)"),
        Age::Minutes(n) => (*n, "m)"),
    };
    proof {
        reveal_strlit(" (");
        reveal_strlit("d)");
        reveal_strlit("h)");
        reveal_strlit("m)");
    }
    let mut s = String::from_str(" (");
    let digits = decimal_string(n);
    s.append(digits.as_str());
    s.append(unit);
    proof {
        match a {
            Age::Days(_) => assert(s@ =~= age_text_spec(*a)),
            Age::Hours(_) => assert(s@ =~= age_text_spec(*a)),
            Age::Minutes(_) => assert(s@ =~= age_text_spec(*a)),
        }
    }
    s
}

/// How a branch name is drawn.
pub enum Tone {
    /// Bold and bright: the row under the cursor.
    Selected,
    /// In the current-branch colour.
    Current,
    /// Muted.
    Muted,
}

/// One row of the branch list.
pub struct Row {
    /// The cursor is on this row.
    pub selected: bool,
    /// The branch is the checked-out one.
    pub current: bool,
    pub tone: Tone,
    pub name: String,
    /// The age annotation, such as ` (3d)`.
    pub age: String,
}

/// The tone of a branch name: the cursor's row stands out first, then the
/// checked-out branch; the rest are muted.
pub open spec fn tone_spec(selected: bool, current: bool) -> Tone {
    if selected {
        Tone::Selected
    } else if current {
        Tone::Current
    } else {
        Tone::Muted
    }
}

/// `r` shows branch `b`, with or without the cursor, at time `now`.
pub open spec fn shows(r: Row, b: Branch, selected: bool, now: i64) -> bool {
    &&& r.selected == selected
    &&& r.current == b.is_current
    &&& r.tone == tone_spec(selected, b.is_current)
    &&& r.name == b.name
    &&& r.age@ == age_text_spec(age_spec(now, b.last_activity))
}

/// The row for branch `b`.
pub fn row(b: &Branch, selected: bool, now: i64) -> (r: Row)
    ensures
        shows(r, *b, selected, now),
{
    let tone = if selected {
        Tone::Selected
    } else if b.is_current {
        Tone::Current
    } else {
        Tone::Muted
    };
    let a = age(now, b.last_activity);
    Row { selected, current: b.is_current, tone, name: b.name.clone(), age: age_text(&a) }
}

/// The rows of the list: one per filtered branch, in order, the cursor's row
/// marked as selected.
pub fn rows(app: &App, now: i64) -> (r: Vec<Row>)
    requires
        app.wf(),
    ensures
        r@.len() == app.filtered_view().len(),
        forall|i: int|
            0 <= i < r@.len() ==> shows(
                #[trigger] r@[i],
                app.branches_spec()[app.filtered_view()[i] as int],
                app.selected_spec() == Some(i as usize),
                now,
            ),
{
    let branches = app.branches();
    let filtered = app.filtered_indices();
    let selected = app.selected();
    let n = branches.len();
    proof {
        lemma_filtered_in_bounds(app.branches_spec(), app.filter_view());
    }
    let mut out: Vec<Row> = Vec::new();
    let mut i: usize = 0;
    while i < filtered.len()
        invariant
            i <= filtered@.len(),
            n == branches@.len(),
            branches@ == app.branches_spec(),
            filtered@ == app.filtered_view(),
            selected == app.selected_spec(),
            forall|k: int| 0 <= k < filtered@.len() ==> filtered@[k] < n,
            out@.len() == i,
            forall|k: int|
                0 <= k < i ==> shows(
                    #[trigger] out@[k],
                    app.branches_spec()[app.filtered_view()[k] as int],
                    app.selected_spec() == Some(k as usize),
                    now,
                ),
        decreases filtered@.len() - i,
    {
        let is_selected = match selected {
            Some(s) => s == i,
            None => false,
        };
        let r = row(&branches[filtered[i]], is_selected, now);
        out.push(r);
        i = i + 1;
    }
    out
}

/// The line above the list: `Filter: ` and the filter text, or nothing
/// while the filter is empty.
pub fn filter_line(app: &App) -> (r: Option<String>)
    ensures
        app.filter_view().len() == 0 ==> r is None,
        app.filter_view().len() > 0 ==> (r matches Some(s) && s@ == seq!['F', 'i', 'l', 't', 'e', 'r', ':', ' '] + app.filter_view()),
{
    let text = app.filter();
    if text.as_str().is_empty() {
        return None;
    }
    proof {
        reveal_strlit("Filter: ");
    }
    let mut s = String::from_str("Filter: ");
    s.append(text.as_str());
    assert(s@ =~= seq!['F', 'i', 'l', 't', 'e', 'r', ':', ' '] + app.filter_view());
    Some(s)
}

} // verus!
