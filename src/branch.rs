//! Local branches and the branch set: the branches of a repository, most
//! recently active first, at most `MAX_BRANCHES` of them.

use vstd::prelude::*;
use vstd::seq_lib::{to_multiset_build, to_multiset_insert};

verus! {

/// How many branches the branch set keeps.
pub const MAX_BRANCHES: usize = 10;

/// A local branch as the picker shows it.
pub struct Branch {
    pub name: String,
    /// Whether the repository's HEAD points at this branch.
    pub is_current: bool,
    /// Seconds since the Unix epoch (UTC) of the commit the branch points to.
    pub last_activity: i64,
}

/// What the repository reports of one local branch, before resolution.
pub struct RawBranch {
    /// The branch's name, or `None` where it cannot be read as text.
    pub name: Option<String>,
    pub is_head: bool,
    /// The commit time, in seconds since the epoch, of the commit the branch's
    /// reference points to; `None` where the reference or the commit cannot be resolved.
    pub commit_time: Option<i64>,
}

/// Whether a count of seconds since the epoch is an instant that a UTC date
/// and time can represent.
pub uninterp spec fn timestamp_representable(secs: int) -> bool;

/// Relies on `chrono::DateTime::<Utc>::from_timestamp(secs, 0)`: it returns
/// `Some` exactly for the representable instants.
#[verifier::external_body]
fn representable(secs: i64) -> (r: bool)
    ensures
        r == timestamp_representable(secs as int),
{
    chrono::DateTime::from_timestamp(secs, 0).is_some()
}

/// The activity timestamp of a branch: its commit time where that resolves to
/// a representable instant, else `now`.
pub open spec fn resolved_time(commit_time: Option<i64>, now: i64) -> i64 {
    match commit_time {
        Some(s) => if timestamp_representable(s as int) { s } else { now },
        None => now,
    }
}

/// The branches of `raws` that have a name, in order, with their resolved timestamps.
pub open spec fn resolved(raws: Seq<RawBranch>, now: i64) -> Seq<Branch>
    decreases raws.len(),
{
    if raws.len() == 0 {
        Seq::empty()
    } else {
        let init = resolved(raws.drop_last(), now);
        let r = raws.last();
        match r.name {
            Some(name) => init.push(
                Branch { name, is_current: r.is_head, last_activity: resolved_time(r.commit_time, now) },
            ),
            None => init,
        }
    }
}

/// Number of leading entries of `s` whose timestamp is at least `t`.
pub open spec fn insert_pos(s: Seq<Branch>, t: i64) -> nat
    decreases s.len(),
{
    if s.len() == 0 {
        0
    } else if s[0].last_activity >= t {
        1 + insert_pos(s.drop_first(), t)
    } else {
        0
    }
}

/// Inserts `b` after every entry that is at least as recent.
pub open spec fn insert_by_activity(s: Seq<Branch>, b: Branch) -> Seq<Branch> {
    s.insert(insert_pos(s, b.last_activity) as int, b)
}

/// The stable sort of `s`, most recent first: entries with equal timestamps
/// keep their relative order.
pub open spec fn sort_by_activity_spec(s: Seq<Branch>) -> Seq<Branch>
    decreases s.len(),
{
    if s.len() == 0 {
        s
    } else {
        insert_by_activity(sort_by_activity_spec(s.drop_last()), s.last())
    }
}

/// Entries are ordered from the most recent to the least recent.
pub open spec fn sorted_by_activity(s: Seq<Branch>) -> bool {
    forall|i: int, j: int| 0 <= i < j < s.len() ==> s[i].last_activity >= s[j].last_activity
}

/// The branch set made of `raws` at time `now`.
pub open spec fn branch_set(raws: Seq<RawBranch>, now: i64) -> Seq<Branch> {
    let sorted = sort_by_activity_spec(resolved(raws, now));
    if sorted.len() <= MAX_BRANCHES { sorted } else { sorted.take(MAX_BRANCHES as int) }
}

proof fn lemma_insert_pos_bounds(s: Seq<Branch>, t: i64)
    ensures
        insert_pos(s, t) <= s.len(),
        forall|q: int| 0 <= q < insert_pos(s, t) ==> s[q].last_activity >= t,
        insert_pos(s, t) < s.len() ==> s[insert_pos(s, t) as int].last_activity < t,
    decreases s.len(),
{
    if s.len() > 0 && s[0].last_activity >= t {
        lemma_insert_pos_bounds(s.drop_first(), t);
        assert forall|q: int| 0 <= q < insert_pos(s, t) implies s[q].last_activity >= t by {
            if q > 0 {
                assert(s[q] == s.drop_first()[q - 1]);
            }
        }
    }
}

proof fn lemma_insert_pos_exact(s: Seq<Branch>, t: i64, p: int)
    requires
        0 <= p <= s.len(),
        forall|q: int| 0 <= q < p ==> s[q].last_activity >= t,
        p < s.len() ==> s[p].last_activity < t,
    ensures
        insert_pos(s, t) == p,
    decreases s.len(),
{
    if p > 0 {
        lemma_insert_pos_exact(s.drop_first(), t, p - 1);
    }
}

proof fn lemma_insert_sorted(s: Seq<Branch>, b: Branch)
    requires
        sorted_by_activity(s),
    ensures
        sorted_by_activity(insert_by_activity(s, b)),
        insert_by_activity(s, b).len() == s.len() + 1,
{
    lemma_insert_pos_bounds(s, b.last_activity);
    let p = insert_pos(s, b.last_activity) as int;
    let r = insert_by_activity(s, b);
    assert forall|q: int| p <= q < s.len() implies s[q].last_activity < b.last_activity by {
        if q > p {
            assert(s[p].last_activity >= s[q].last_activity);
        }
    }
    assert forall|i: int, j: int| 0 <= i < j < r.len() implies r[i].last_activity
        >= r[j].last_activity by {
        if j < p {
        } else if j == p {
        } else if i < p {
            assert(r[j] == s[j - 1]);
        } else if i == p {
            assert(r[j] == s[j - 1]);
        } else {
            assert(r[i] == s[i - 1]);
            assert(r[j] == s[j - 1]);
        }
    }
}

/// The stable sort by activity is ordered most recent first and is a
/// permutation of its input.
pub proof fn lemma_sort_sorted(s: Seq<Branch>)
    ensures
        sorted_by_activity(sort_by_activity_spec(s)),
        sort_by_activity_spec(s).len() == s.len(),
        sort_by_activity_spec(s).to_multiset() == s.to_multiset(),
    decreases s.len(),
{
    if s.len() > 0 {
        let init = sort_by_activity_spec(s.drop_last());
        lemma_sort_sorted(s.drop_last());
        lemma_insert_sorted(init, s.last());
        lemma_insert_pos_bounds(init, s.last().last_activity);
        to_multiset_insert(init, insert_pos(init, s.last().last_activity) as int, s.last());
        to_multiset_build(s.drop_last(), s.last());
        assert(s.drop_last().push(s.last()) =~= s);
    }
}

/// The branch set holds at most `MAX_BRANCHES` entries, ordered from the most
/// recently active to the least; it holds every named branch when there are
/// no more than `MAX_BRANCHES` of them.
pub proof fn lemma_branch_set_bounded_and_sorted(raws: Seq<RawBranch>, now: i64)
    ensures
        branch_set(raws, now).len() <= MAX_BRANCHES,
        sorted_by_activity(branch_set(raws, now)),
        resolved(raws, now).len() <= MAX_BRANCHES ==> branch_set(raws, now).to_multiset()
            == resolved(raws, now).to_multiset(),
{
    lemma_sort_sorted(resolved(raws, now));
}

/// Resolves one reported branch: `None` where it has no name.
pub fn resolve_branch(raw: RawBranch, now: i64) -> (r: Option<Branch>)
    ensures
        raw.name is None ==> r is None,
        raw.name is Some ==> r == Some(
            Branch {
                name: raw.name->0,
                is_current: raw.is_head,
                last_activity: resolved_time(raw.commit_time, now),
            },
        ),
{
    match raw.name {
        None => None,
        Some(name) => {
            let last_activity = match raw.commit_time {
                Some(s) => if representable(s) { s } else { now },
                None => now,
            };
            Some(Branch { name, is_current: raw.is_head, last_activity })
        }
    }
}

/// Stable sort, most recently active first.
pub fn sort_by_activity(branches: Vec<Branch>) -> (r: Vec<Branch>)
    ensures
        r@ == sort_by_activity_spec(branches@),
{
    let ghost orig = branches@;
    let mut rest = branches;
    let n = rest.len();
    let mut out: Vec<Branch> = Vec::new();
    let mut i: usize = 0;
    while rest.len() > 0
        invariant
            n == orig.len(),
            i <= orig.len(),
            rest@ == orig.skip(i as int),
            out@ == sort_by_activity_spec(orig.take(i as int)),
            sorted_by_activity(out@),
            out@.len() == i,
        decreases rest.len(),
    {
        let b = rest.remove(0);
        assert(b == orig[i as int]);
        let t = b.last_activity;
        let mut p: usize = 0;
        while p < out.len() && out[p].last_activity >= t
            invariant
                p <= out@.len(),
                forall|q: int| 0 <= q < p ==> out@[q].last_activity >= t,
            decreases out@.len() - p,
        {
            p = p + 1;
        }
        proof {
            lemma_insert_pos_exact(out@, t, p as int);
            lemma_insert_sorted(out@, b);
            assert(orig.take(i + 1).drop_last() =~= orig.take(i as int));
            assert(orig.take(i + 1).last() == b);
            assert(rest@ =~= orig.skip(i + 1));
        }
        out.insert(p, b);
        i = i + 1;
    }
    assert(orig.take(i as int) =~= orig);
    out
}

/// Builds the branch set from what the repository reported: named branches
/// only, each timestamp resolved (falling back to `now`), most recent first,
/// at most `MAX_BRANCHES` of them.
pub fn load_branch_set(raws: Vec<RawBranch>, now: i64) -> (r: Vec<Branch>)
    ensures
        r@ == branch_set(raws@, now),
{
    let ghost orig = raws@;
    let mut rest = raws;
    let n = rest.len();
    let mut named: Vec<Branch> = Vec::new();
    let mut i: usize = 0;
    while rest.len() > 0
        invariant
            n == orig.len(),
            i <= orig.len(),
            rest@ == orig.skip(i as int),
            named@ == resolved(orig.take(i as int), now),
        decreases rest.len(),
    {
        let raw = rest.remove(0);
        proof {
            assert(raw == orig[i as int]);
            assert(orig.take(i + 1).drop_last() =~= orig.take(i as int));
            assert(orig.take(i + 1).last() == raw);
            assert(rest@ =~= orig.skip(i + 1));
        }
        match resolve_branch(raw, now) {
            Some(b) => named.push(b),
            None => {},
        }
        i = i + 1;
    }
    assert(orig.take(i as int) =~= orig);
    let mut sorted = sort_by_activity(named);
    if sorted.len() > MAX_BRANCHES {
        sorted.truncate(MAX_BRANCHES);
    }
    sorted
}

} // verus!
