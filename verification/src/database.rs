use vstd::prelude::*;

use crate::civil::{TIME_MAX, TZ_HOURS_MAX};
use crate::command::{Command, OneTimeEventImpl, RepetitiveEventImpl};

verus! {

/// How the store keeps its rows. Both modes keep them in memory for the
/// process lifetime; the mode is kept for callers that distinguish a
/// throwaway store from the long-lived one.
pub enum DbMode {
    InMemory,
    Filesystem,
}

pub struct UserInfo<'a> {
    pub uid: i64,
    pub name: &'a str,
    pub chat_id: i64,
    pub first_name: &'a str,
    pub last_name: &'a str,
    pub tz: i32,
}

#[derive(Debug, Clone, PartialEq, Eq, Structural)]
pub enum StoreError {
    DuplicateUser,
    InvalidTimezone,
}

pub struct UserRow {
    pub uid: i64,
    pub username: String,
    pub first_name: String,
    pub last_name: String,
    pub chat_id: i64,
    pub timezone: i32,
}

/// One pending notification. `parent_id` is `-1` for a plain one-time event,
/// or the id of the repeating template it was armed from.
pub struct ActiveRow {
    pub id: i64,
    pub uid: i64,
    pub parent_id: i64,
    pub text: String,
    pub due_time: i64,
}

/// A repeating-event template: first occurrence and interval in seconds.
pub struct RepRow {
    pub id: i64,
    pub uid: i64,
    pub text: String,
    pub start_time: i64,
    pub wait_time: i64,
}

#[derive(Debug, PartialEq)]
pub struct RetrieveEventsResult {
    pub command: Command,
    pub uid: i64,
}

/// The number of rows in `s` whose `parent_id` equals `pid`.
pub open spec fn child_count(s: Seq<ActiveRow>, pid: int) -> int
    decreases s.len(),
{
    if s.len() == 0 {
        0
    } else {
        child_count(s.drop_last(), pid) + if s.last().parent_id == pid {
            1int
        } else {
            0int
        }
    }
}

pub proof fn lemma_child_count_push(s: Seq<ActiveRow>, x: ActiveRow, pid: int)
    ensures
        child_count(s.push(x), pid) == child_count(s, pid) + if x.parent_id == pid {
            1int
        } else {
            0int
        },
{
    assert(s.push(x).drop_last() =~= s);
    assert(s.push(x).last() == x);
}

pub proof fn lemma_child_count_add(a: Seq<ActiveRow>, b: Seq<ActiveRow>, pid: int)
    ensures
        child_count(a + b, pid) == child_count(a, pid) + child_count(b, pid),
    decreases b.len(),
{
    if b.len() == 0 {
        assert(a + b =~= a);
    } else {
        lemma_child_count_add(a, b.drop_last(), pid);
        assert((a + b).drop_last() =~= a + b.drop_last());
        assert((a + b).last() == b.last());
    }
}

pub proof fn lemma_child_count_insert(s: Seq<ActiveRow>, i: int, x: ActiveRow, pid: int)
    requires
        0 <= i <= s.len(),
    ensures
        child_count(s.insert(i, x), pid) == child_count(s, pid) + if x.parent_id == pid {
            1int
        } else {
            0int
        },
{
    lemma_child_count_add(s.subrange(0, i).push(x), s.subrange(i, s.len() as int), pid);
    lemma_child_count_push(s.subrange(0, i), x, pid);
    lemma_child_count_add(s.subrange(0, i), s.subrange(i, s.len() as int), pid);
    assert(s.subrange(0, i) + s.subrange(i, s.len() as int) =~= s);
}

/// A positive count yields a witness index.
pub proof fn lemma_child_count_pos(s: Seq<ActiveRow>, pid: int)
    requires
        child_count(s, pid) >= 1,
    ensures
        exists|k: int| 0 <= k < s.len() && s[k].parent_id == pid,
    decreases s.len(),
{
    if s.len() > 0 {
        if s.last().parent_id == pid {
            assert(s[s.len() - 1].parent_id == pid);
        } else {
            lemma_child_count_pos(s.drop_last(), pid);
            let k = choose|k: int|
                0 <= k < s.drop_last().len() && s.drop_last()[k].parent_id == pid;
            assert(s[k].parent_id == pid);
        }
    }
}

/// Two distinct matching indices force a count of at least two.
pub proof fn lemma_child_count_two(s: Seq<ActiveRow>, pid: int, k1: int, k2: int)
    requires
        0 <= k1 < k2 < s.len(),
        s[k1].parent_id == pid,
        s[k2].parent_id == pid,
    ensures
        child_count(s, pid) >= 2,
    decreases s.len(),
{
    if k2 == s.len() - 1 {
        lemma_child_count_drop_last_witness(s, pid, k1);
    } else {
        lemma_child_count_two(s.drop_last(), pid, k1, k2);
    }
}

/// A matching index below the last element gives the dropped prefix a
/// positive count.
pub proof fn lemma_child_count_drop_last_witness(s: Seq<ActiveRow>, pid: int, k: int)
    requires
        0 <= k < s.len() - 1,
        s[k].parent_id == pid,
    ensures
        child_count(s.drop_last(), pid) >= 1,
    decreases s.len(),
{
    lemma_child_count_witness(s.drop_last(), pid, k);
}

/// A matching index gives a positive count.
pub proof fn lemma_child_count_witness(s: Seq<ActiveRow>, pid: int, k: int)
    requires
        0 <= k < s.len(),
        s[k].parent_id == pid,
    ensures
        child_count(s, pid) >= 1,
    decreases s.len(),
{
    lemma_child_count_nonneg(s.drop_last(), pid);
    if k < s.len() - 1 {
        lemma_child_count_witness(s.drop_last(), pid, k);
    }
}

pub proof fn lemma_child_count_nonneg(s: Seq<ActiveRow>, pid: int)
    ensures
        child_count(s, pid) >= 0,
    decreases s.len(),
{
    if s.len() > 0 {
        lemma_child_count_nonneg(s.drop_last(), pid);
    }
}

/// With no matching index the count is zero.
pub proof fn lemma_child_count_zero(s: Seq<ActiveRow>, pid: int)
    requires
        forall|k: int| 0 <= k < s.len() ==> #[trigger] s[k].parent_id != pid,
    ensures
        child_count(s, pid) == 0,
    decreases s.len(),
{
    if s.len() > 0 {
        assert(s.last().parent_id != pid);
        lemma_child_count_zero(s.drop_last(), pid);
    }
}

/// The active rows that are not armed from template `x`.
pub open spec fn non_children(s: Seq<ActiveRow>, x: int) -> Seq<ActiveRow> {
    s.filter(|a: ActiveRow| a.parent_id != x)
}

/// The template rows other than the one with id `x`.
pub open spec fn reps_without(s: Seq<RepRow>, x: int) -> Seq<RepRow> {
    s.filter(|r: RepRow| r.id != x)
}

pub proof fn lemma_nc_push(s: Seq<ActiveRow>, x: int, e: ActiveRow)
    ensures
        non_children(s.push(e), x) == if e.parent_id != x {
            non_children(s, x).push(e)
        } else {
            non_children(s, x)
        },
{
    reveal(Seq::filter);
    assert(s.push(e).drop_last() =~= s);
}

pub proof fn lemma_rw_push(s: Seq<RepRow>, x: int, e: RepRow)
    ensures
        reps_without(s.push(e), x) == if e.id != x {
            reps_without(s, x).push(e)
        } else {
            reps_without(s, x)
        },
{
    reveal(Seq::filter);
    assert(s.push(e).drop_last() =~= s);
}

pub proof fn lemma_ua_push(s: Seq<ActiveRow>, uid: int, e: ActiveRow)
    ensures
        user_actives(s.push(e), uid) == if e.uid == uid {
            user_actives(s, uid).push(e)
        } else {
            user_actives(s, uid)
        },
{
    reveal(Seq::filter);
    assert(s.push(e).drop_last() =~= s);
}

pub proof fn lemma_ur_push(s: Seq<RepRow>, uid: int, e: RepRow)
    ensures
        user_reps(s.push(e), uid) == if e.uid == uid {
            user_reps(s, uid).push(e)
        } else {
            user_reps(s, uid)
        },
{
    reveal(Seq::filter);
    assert(s.push(e).drop_last() =~= s);
}

/// Every row kept by `non_children` comes from the source sequence.
pub proof fn lemma_nc_membership(s: Seq<ActiveRow>, x: int, i: int)
    requires
        0 <= i < non_children(s, x).len(),
    ensures
        exists|k: int| 0 <= k < s.len() && s[k] == non_children(s, x)[i] && s[k].parent_id != x,
    decreases s.len(),
{
    reveal(Seq::filter);
    if s.len() > 0 {
        let d = s.drop_last();
        let nc = non_children(s, x);
        if s.last().parent_id != x && i == nc.len() - 1 {
            assert(s[s.len() - 1] == nc[i]);
        } else {
            lemma_nc_membership(d, x, i);
            let k = choose|k: int|
                0 <= k < d.len() && d[k] == non_children(d, x)[i] && d[k].parent_id != x;
            assert(s[k] == nc[i] && s[k].parent_id != x);
        }
    }
}

pub proof fn lemma_nc_properties(s: Seq<ActiveRow>, x: int)
    requires
        sorted_by_due(s),
        active_ids_unique(s),
    ensures
        sorted_by_due(non_children(s, x)),
        active_ids_unique(non_children(s, x)),
        non_children(s, x).len() <= s.len(),
        forall|pid: int|
            #[trigger] child_count(non_children(s, x), pid) == if pid == x {
                0int
            } else {
                child_count(s, pid)
            },
    decreases s.len(),
{
    reveal(Seq::filter);
    s.lemma_filter_len(|a: ActiveRow| a.parent_id != x);
    if s.len() == 0 {
        assert forall|pid: int|
            #[trigger] child_count(non_children(s, x), pid) == if pid == x {
                0int
            } else {
                child_count(s, pid)
            } by {
            assert(non_children(s, x).len() == 0);
        }
    } else {
        let d = s.drop_last();
        assert(sorted_by_due(d) && active_ids_unique(d)) by {
            assert(forall|i: int| 0 <= i < d.len() ==> d[i] == s[i]);
        }
        lemma_nc_properties(d, x);
        let nc = non_children(s, x);
        let ncd = non_children(d, x);
        if s.last().parent_id != x {
            assert(nc == ncd.push(s.last()));
            assert forall|i: int, j: int|
                0 <= i < j < nc.len() implies #[trigger] nc[i].due_time
                <= #[trigger] nc[j].due_time by {
                if j < nc.len() - 1 {
                    assert(nc[i] == ncd[i] && nc[j] == ncd[j]);
                } else {
                    assert(nc[j] == s.last());
                    assert(nc[i] == ncd[i]);
                    lemma_nc_membership(d, x, i);
                    let k = choose|k: int|
                        0 <= k < d.len() && d[k] == non_children(d, x)[i] && d[k].parent_id != x;
                    assert(s[k] == nc[i]);
                    assert(s[k].due_time <= s[s.len() - 1].due_time);
                }
            }
            assert forall|i: int, j: int| 0 <= i < j < nc.len() implies nc[i].id != nc[j].id by {
                if j < nc.len() - 1 {
                    assert(nc[i] == ncd[i] && nc[j] == ncd[j]);
                } else {
                    assert(nc[j] == s.last());
                    assert(nc[i] == ncd[i]);
                    lemma_nc_membership(d, x, i);
                    let k = choose|k: int|
                        0 <= k < d.len() && d[k] == non_children(d, x)[i] && d[k].parent_id != x;
                    assert(s[k] == nc[i]);
                    assert(s[k].id != s[s.len() - 1].id);
                }
            }
            assert forall|pid: int|
                #[trigger] child_count(nc, pid) == (if pid == x {
                    0int
                } else {
                    child_count(s, pid)
                }) by {
                lemma_child_count_push(ncd, s.last(), pid);
            }
        } else {
            assert(nc == ncd);
            assert forall|pid: int|
                #[trigger] child_count(nc, pid) == (if pid == x {
                    0int
                } else {
                    child_count(s, pid)
                }) by {
                assert(child_count(ncd, pid) == if pid == x {
                    0int
                } else {
                    child_count(d, pid)
                });
            }
        }
    }
}

/// Every row kept by `reps_without` comes from the source sequence.
pub proof fn lemma_rw_membership(s: Seq<RepRow>, x: int, i: int)
    requires
        0 <= i < reps_without(s, x).len(),
    ensures
        exists|k: int| 0 <= k < s.len() && s[k] == reps_without(s, x)[i] && s[k].id != x,
    decreases s.len(),
{
    reveal(Seq::filter);
    if s.len() > 0 {
        let d = s.drop_last();
        let rw = reps_without(s, x);
        if s.last().id != x && i == rw.len() - 1 {
            assert(s[s.len() - 1] == rw[i]);
        } else {
            lemma_rw_membership(d, x, i);
            let k = choose|k: int| 0 <= k < d.len() && d[k] == reps_without(d, x)[i] && d[k].id != x;
            assert(s[k] == rw[i] && s[k].id != x);
        }
    }
}

/// A source row with a different id survives into `reps_without`.
pub proof fn lemma_rw_contains(s: Seq<RepRow>, x: int, k: int)
    requires
        0 <= k < s.len(),
        s[k].id != x,
    ensures
        exists|jr: int|
            0 <= jr < reps_without(s, x).len() && #[trigger] reps_without(s, x)[jr] == s[k],
    decreases s.len(),
{
    reveal(Seq::filter);
    let rw = reps_without(s, x);
    if k == s.len() - 1 {
        assert(rw[rw.len() - 1] == s[k]);
    } else {
        lemma_rw_contains(s.drop_last(), x, k);
        let jr = choose|jr: int|
            0 <= jr < reps_without(s.drop_last(), x).len() && #[trigger] reps_without(
                s.drop_last(),
                x,
            )[jr] == s.drop_last()[k];
        assert(rw[jr] == s[k]);
    }
}

pub proof fn lemma_rw_properties(s: Seq<RepRow>, x: int)
    requires
        reps_sorted(s),
        rep_ids_unique(s),
    ensures
        reps_sorted(reps_without(s, x)),
        rep_ids_unique(reps_without(s, x)),
        reps_without(s, x).len() <= s.len(),
    decreases s.len(),
{
    reveal(Seq::filter);
    s.lemma_filter_len(|r: RepRow| r.id != x);
    if s.len() > 0 {
        let d = s.drop_last();
        assert(reps_sorted(d) && rep_ids_unique(d)) by {
            assert(forall|i: int| 0 <= i < d.len() ==> d[i] == s[i]);
        }
        lemma_rw_properties(d, x);
        let rw = reps_without(s, x);
        let rwd = reps_without(d, x);
        if s.last().id != x {
            assert(rw == rwd.push(s.last()));
            assert forall|i: int, j: int|
                0 <= i < j < rw.len() implies #[trigger] rw[i].start_time
                <= #[trigger] rw[j].start_time by {
                if j < rw.len() - 1 {
                    assert(rw[i] == rwd[i] && rw[j] == rwd[j]);
                } else {
                    assert(rw[j] == s.last());
                    assert(rw[i] == rwd[i]);
                    lemma_rw_membership(d, x, i);
                    let k = choose|k: int|
                        0 <= k < d.len() && d[k] == reps_without(d, x)[i] && d[k].id != x;
                    assert(s[k] == rw[i]);
                    assert(s[k].start_time <= s[s.len() - 1].start_time);
                }
            }
            assert forall|i: int, j: int| 0 <= i < j < rw.len() implies rw[i].id != rw[j].id by {
                if j < rw.len() - 1 {
                    assert(rw[i] == rwd[i] && rw[j] == rwd[j]);
                } else {
                    assert(rw[j] == s.last());
                    assert(rw[i] == rwd[i]);
                    lemma_rw_membership(d, x, i);
                    let k = choose|k: int|
                        0 <= k < d.len() && d[k] == reps_without(d, x)[i] && d[k].id != x;
                    assert(s[k] == rw[i]);
                    assert(s[k].id != s[s.len() - 1].id);
                }
            }
        } else {
            assert(rw == rwd);
        }
    }
}

/// The active rows that belong to one user, soonest first.
pub open spec fn user_actives(s: Seq<ActiveRow>, uid: int) -> Seq<ActiveRow> {
    s.filter(|a: ActiveRow| a.uid == uid)
}

/// The template rows that belong to one user, earliest start first.
pub open spec fn user_reps(s: Seq<RepRow>, uid: int) -> Seq<RepRow> {
    s.filter(|r: RepRow| r.uid == uid)
}

/// The index of the one active row armed from template `pid`.
pub open spec fn child_index(s: Seq<ActiveRow>, pid: int) -> int {
    choose|k: int| 0 <= k < s.len() && s[k].parent_id == pid
}

/// The one active row armed from template `pid`; well-defined whenever the
/// child count is exactly one.
pub open spec fn the_child(s: Seq<ActiveRow>, pid: int) -> ActiveRow {
    s[child_index(s, pid)]
}

/// With a child count of one, `the_child` is the unique armed row.
pub proof fn lemma_the_child(s: Seq<ActiveRow>, pid: int)
    requires
        child_count(s, pid) == 1,
    ensures
        0 <= child_index(s, pid) < s.len(),
        the_child(s, pid).parent_id == pid,
        forall|k: int| 0 <= k < s.len() && s[k].parent_id == pid ==> k == child_index(s, pid),
{
    lemma_child_count_pos(s, pid);
    let c = child_index(s, pid);
    assert(0 <= c < s.len() && s[c].parent_id == pid);
    assert forall|k: int|
        0 <= k < s.len() && s[k].parent_id == pid implies k == child_index(s, pid) by {
        if k != c {
            if k < c {
                lemma_child_count_two(s, pid, k, c);
            } else {
                lemma_child_count_two(s, pid, c, k);
            }
        }
    }
}

/// Extraction is one-shot: given the store an extraction at `time` leaves
/// behind, anything a second extraction at the same instant can return is a
/// freshly re-armed repeating event falling due exactly then, and with no
/// repeating templates the second batch is empty.
pub proof fn lemma_extract_once(mid: DataBase, r2: Seq<RetrieveEventsResult>, time: int)
    requires
        mid.wf(),
        forall|i: int|
            0 <= i < mid.actives().len() ==> #[trigger] mid.actives()[i].due_time >= time,
        forall|i: int|
            0 <= i < mid.actives().len() ==> ((#[trigger] mid.actives()[i].parent_id == -1)
                ==> mid.actives()[i].due_time > time),
        r2.len() <= mid.actives().len(),
        forall|i: int| 0 <= i < r2.len() ==> #[trigger] mid.actives()[i].due_time <= time,
    ensures
        forall|i: int|
            0 <= i < r2.len() ==> #[trigger] mid.actives()[i].due_time == time
                && mid.actives()[i].parent_id != -1,
        mid.reps().len() == 0 ==> r2.len() == 0,
{
    assert forall|i: int|
        0 <= i < r2.len() implies #[trigger] mid.actives()[i].due_time == time
        && mid.actives()[i].parent_id != -1 by {
        assert(mid.actives()[i].due_time >= time);
        if mid.actives()[i].parent_id == -1 {
            assert(mid.actives()[i].due_time > time);
        }
    }
    if mid.reps().len() == 0 && r2.len() > 0 {
        assert(mid.actives()[0].parent_id != -1);
        assert(exists|jx: int|
            0 <= jx < mid.reps().len() && #[trigger] mid.reps()[jx].id
                == mid.actives()[0].parent_id);
        assert(false);
    }
}

/// A repeating template is always armed: in any store an extraction at
/// `time` leaves behind, each template has exactly one active event armed
/// from it, and that event is due at or after `time`.
pub proof fn lemma_template_always_armed(db: DataBase, j: int, time: int)
    requires
        db.wf(),
        0 <= j < db.reps().len(),
        forall|i: int| 0 <= i < db.actives().len() ==> #[trigger] db.actives()[i].due_time >= time,
    ensures
        child_count(db.actives(), db.reps()[j].id as int) == 1,
        the_child(db.actives(), db.reps()[j].id as int).parent_id == db.reps()[j].id,
        the_child(db.actives(), db.reps()[j].id as int).due_time >= time,
{
    assert(child_count(db.actives(), db.reps()[j].id as int) == 1);
    lemma_the_child(db.actives(), db.reps()[j].id as int);
    let c = child_index(db.actives(), db.reps()[j].id as int);
    assert(db.actives()[c].due_time >= time);
}

/// After splitting the active table into a due prefix and the remaining
/// suffix, these facts set up the re-arming pass of the extraction.
proof fn lemma_extract_init(
    orig: Seq<ActiveRow>,
    extracted: Seq<ActiveRow>,
    remaining: Seq<ActiveRow>,
    reps: Seq<RepRow>,
    time: int,
)
    requires
        sorted_by_due(orig),
        active_ids_unique(orig),
        children_ok(orig, reps),
        parents_exist(orig, reps),
        extracted.len() <= orig.len(),
        extracted == orig.subrange(0, extracted.len() as int),
        remaining == orig.subrange(extracted.len() as int, orig.len() as int),
        forall|i: int| 0 <= i < extracted.len() ==> #[trigger] orig[i].due_time <= time,
        remaining.len() == 0 || remaining[0].due_time > time,
    ensures
        forall|i: int| extracted.len() <= i < orig.len() ==> #[trigger] orig[i].due_time > time,
        forall|i: int| 0 <= i < remaining.len() ==> #[trigger] remaining[i].due_time > time,
        forall|m1: int, m2: int|
            0 <= m1 < m2 < extracted.len() && #[trigger] extracted[m1].parent_id != -1
                ==> extracted[m1].parent_id != #[trigger] extracted[m2].parent_id,
        forall|j: int|
            0 <= j < reps.len() ==> child_count(remaining, #[trigger] reps[j].id as int) == (
            if exists|m: int|
                0 <= m < extracted.len() && #[trigger] extracted[m].parent_id == reps[j].id {
                0int
            } else {
                1int
            }),
        forall|i: int, m: int|
            0 <= i < remaining.len() && 0 <= m < extracted.len() ==> #[trigger] remaining[i].id
                != #[trigger] extracted[m].id,
        forall|j: int|
            0 <= j < reps.len() && !(exists|m: int|
                0 <= m < extracted.len() && #[trigger] extracted[m].parent_id == reps[j].id)
                ==> #[trigger] remaining.contains(the_child(orig, reps[j].id as int)),
        forall|i: int|
            0 <= i < orig.len() && #[trigger] orig[i].parent_id == -1 && orig[i].due_time > time
                ==> remaining.contains(orig[i]),
        forall|i: int| 0 <= i < remaining.len() ==> orig.contains(#[trigger] remaining[i]),
        parents_exist(remaining, reps),
        sorted_by_due(remaining),
        active_ids_unique(remaining),
        active_times_ok(orig) ==> active_times_ok(remaining),
{
    let k = extracted.len() as int;
    assert forall|i: int| k <= i < orig.len() implies #[trigger] orig[i].due_time > time by {
        assert(orig[i] == remaining[i - k]);
        if i > k {
            assert(orig[k] == remaining[0]);
            assert(orig[k].due_time <= orig[i].due_time);
        } else {
            assert(orig[k] == remaining[0]);
        }
    }
    assert forall|i: int|
        0 <= i < remaining.len() implies #[trigger] remaining[i].due_time > time by {
        assert(remaining[i] == orig[k + i]);
    }
    assert forall|m1: int, m2: int|
        0 <= m1 < m2 < k && #[trigger] extracted[m1].parent_id != -1 implies extracted[m1].parent_id
        != #[trigger] extracted[m2].parent_id by {
        if extracted[m1].parent_id == extracted[m2].parent_id {
            let p = extracted[m1].parent_id as int;
            assert(orig[m1].parent_id == extracted[m1].parent_id);
            assert(orig[m2].parent_id == extracted[m2].parent_id);
            lemma_child_count_two(orig, p, m1, m2);
            let jj = choose|jj: int|
                0 <= jj < reps.len() && #[trigger] reps[jj].id == orig[m1].parent_id;
            assert(child_count(orig, reps[jj].id as int) == 1);
        }
    }
    assert(orig =~= extracted + remaining);
    assert forall|j: int|
        0 <= j < reps.len() implies child_count(remaining, #[trigger] reps[j].id as int) == (
    if exists|m: int| 0 <= m < extracted.len() && #[trigger] extracted[m].parent_id == reps[j].id {
        0int
    } else {
        1int
    }) by {
        let pid = reps[j].id as int;
        lemma_child_count_add(extracted, remaining, pid);
        assert(child_count(orig, pid) == 1);
        if exists|m: int|
            0 <= m < extracted.len() && #[trigger] extracted[m].parent_id == reps[j].id {
            let m = choose|m: int|
                0 <= m < extracted.len() && #[trigger] extracted[m].parent_id == reps[j].id;
            lemma_child_count_witness(extracted, pid, m);
            lemma_child_count_nonneg(remaining, pid);
            lemma_child_count_nonneg(extracted, pid);
        } else {
            lemma_child_count_zero(extracted, pid);
        }
    }
    assert forall|i: int, m: int|
        0 <= i < remaining.len() && 0 <= m < k implies #[trigger] remaining[i].id
        != #[trigger] extracted[m].id by {
        assert(remaining[i] == orig[k + i]);
        assert(extracted[m] == orig[m]);
    }
    assert forall|j: int|
        0 <= j < reps.len() && !(exists|m: int|
            0 <= m < extracted.len() && #[trigger] extracted[m].parent_id == reps[j].id) implies #[trigger] remaining.contains(
        the_child(orig, reps[j].id as int),
    ) by {
        let pid = reps[j].id as int;
        assert(child_count(orig, pid) == 1);
        lemma_the_child(orig, pid);
        let ci = child_index(orig, pid);
        if ci < k {
            assert(extracted[ci].parent_id == reps[j].id);
        } else {
            assert(remaining[ci - k] == orig[ci]);
        }
    }
    assert forall|i: int|
        0 <= i < orig.len() && #[trigger] orig[i].parent_id == -1 && orig[i].due_time
        > time implies remaining.contains(orig[i]) by {
        assert(i >= k);
        assert(remaining[i - k] == orig[i]);
    }
    assert forall|i: int| 0 <= i < remaining.len() implies orig.contains(
        #[trigger] remaining[i],
    ) by {
        assert(remaining[i] == orig[k + i]);
    }
    assert forall|i: int|
        0 <= i < remaining.len() implies #[trigger] remaining[i].parent_id == -1 || exists|jx: int|
        0 <= jx < reps.len() && #[trigger] reps[jx].id == remaining[i].parent_id by {
        assert(remaining[i] == orig[k + i]);
        assert(orig[k + i].parent_id == -1 || exists|jx: int|
            0 <= jx < reps.len() && #[trigger] reps[jx].id == orig[k + i].parent_id);
    }
    assert forall|i: int, jj: int|
        0 <= i < jj < remaining.len() implies #[trigger] remaining[i].due_time
        <= #[trigger] remaining[jj].due_time by {
        assert(remaining[i] == orig[k + i] && remaining[jj] == orig[k + jj]);
        assert(orig[k + i].due_time <= orig[k + jj].due_time);
    }
    assert forall|i: int, jj: int|
        0 <= i < jj < remaining.len() implies remaining[i].id != remaining[jj].id by {
        assert(remaining[i] == orig[k + i] && remaining[jj] == orig[k + jj]);
    }
    if active_times_ok(orig) {
        assert forall|i: int|
            0 <= i < remaining.len() implies -2 * TIME_MAX <= #[trigger] remaining[i].due_time <= 2
            * TIME_MAX by {
            assert(remaining[i] == orig[k + i]);
            assert(-2 * TIME_MAX <= orig[k + i].due_time <= 2 * TIME_MAX);
        }
    }
}

/// Every row in a user's listing comes from the active table.
pub proof fn lemma_user_actives_bounds(s: Seq<ActiveRow>, uid: int, i: int)
    requires
        0 <= i < user_actives(s, uid).len(),
    ensures
        exists|k: int| 0 <= k < s.len() && #[trigger] s[k] == user_actives(s, uid)[i],
    decreases s.len(),
{
    reveal(Seq::filter);
    if s.len() > 0 {
        let d = s.drop_last();
        let ua = user_actives(s, uid);
        if s.last().uid == uid && i == ua.len() - 1 {
            assert(s[s.len() - 1] == ua[i]);
        } else {
            lemma_user_actives_bounds(d, uid, i);
            let k = choose|k: int| 0 <= k < d.len() && #[trigger] d[k] == user_actives(d, uid)[i];
            assert(s[k] == ua[i]);
        }
    }
}

pub open spec fn users_ok(s: Seq<UserRow>) -> bool {
    (forall|i: int, j: int| 0 <= i < j < s.len() ==> s[i].uid != s[j].uid) && (forall|i: int|
        0 <= i < s.len() ==> -TZ_HOURS_MAX <= #[trigger] s[i].timezone <= TZ_HOURS_MAX)
}

pub open spec fn sorted_by_due(s: Seq<ActiveRow>) -> bool {
    forall|i: int, j: int|
        0 <= i < j < s.len() ==> #[trigger] s[i].due_time <= #[trigger] s[j].due_time
}

pub open spec fn active_ids_unique(s: Seq<ActiveRow>) -> bool {
    forall|i: int, j: int| 0 <= i < j < s.len() ==> s[i].id != s[j].id
}

pub open spec fn active_times_ok(s: Seq<ActiveRow>) -> bool {
    forall|i: int| 0 <= i < s.len() ==> -2 * TIME_MAX <= #[trigger] s[i].due_time <= 2 * TIME_MAX
}

pub open spec fn reps_sorted(s: Seq<RepRow>) -> bool {
    forall|i: int, j: int|
        0 <= i < j < s.len() ==> #[trigger] s[i].start_time <= #[trigger] s[j].start_time
}

pub open spec fn rep_ids_unique(s: Seq<RepRow>) -> bool {
    forall|i: int, j: int| 0 <= i < j < s.len() ==> s[i].id != s[j].id
}

pub open spec fn rep_rows_ok(s: Seq<RepRow>) -> bool {
    forall|i: int|
        0 <= i < s.len() ==> -TIME_MAX <= #[trigger] s[i].start_time <= TIME_MAX && 1
            <= s[i].wait_time <= TIME_MAX
}

/// Every template has exactly one active event armed from it.
pub open spec fn children_ok(actives: Seq<ActiveRow>, reps: Seq<RepRow>) -> bool {
    forall|i: int| 0 <= i < reps.len() ==> child_count(actives, #[trigger] reps[i].id as int) == 1
}

/// Every armed event points at an existing template.
pub open spec fn parents_exist(actives: Seq<ActiveRow>, reps: Seq<RepRow>) -> bool {
    forall|i: int|
        0 <= i < actives.len() ==> #[trigger] actives[i].parent_id == -1 || exists|j: int|
            0 <= j < reps.len() && #[trigger] reps[j].id == actives[i].parent_id
}

pub open spec fn ids_below_active(s: Seq<ActiveRow>, next: int) -> bool {
    forall|i: int| 0 <= i < s.len() ==> 0 <= #[trigger] s[i].id < next
}

/// The first occurrence of a repeating event at or after `now`: `start`
/// itself when it has not passed, else `start` advanced by whole multiples of
/// `wait`.
pub open spec fn next_occurrence(start: int, wait: int, now: int) -> int
    decreases vstd::math::max(now - start, 0)
        when wait >= 1
{
    if start >= now {
        start
    } else {
        next_occurrence(start + wait, wait, now)
    }
}

pub proof fn lemma_next_occurrence_bounds(start: int, wait: int, now: int)
    requires
        wait >= 1,
    ensures
        next_occurrence(start, wait, now) >= now,
        next_occurrence(start, wait, now) >= start,
        start < now ==> next_occurrence(start, wait, now) < now + wait,
        start >= now ==> next_occurrence(start, wait, now) == start,
    decreases vstd::math::max(now - start, 0),
{
    if start < now {
        lemma_next_occurrence_bounds(start + wait, wait, now);
    }
}

pub open spec fn ids_below_rep(s: Seq<RepRow>, next: int) -> bool {
    forall|i: int| 0 <= i < s.len() ==> 0 <= #[trigger] s[i].id < next
}

/// The persistent event store: users, pending ("active") events ordered by
/// due time, and repeating-event templates ordered by start time.
pub struct DataBase {
    users: Vec<UserRow>,
    active: Vec<ActiveRow>,
    rep: Vec<RepRow>,
    next_active_id: i64,
    next_rep_id: i64,
}

impl DataBase {
    pub closed spec fn user_rows(self) -> Seq<UserRow> {
        self.users@
    }

    pub closed spec fn actives(self) -> Seq<ActiveRow> {
        self.active@
    }

    pub closed spec fn reps(self) -> Seq<RepRow> {
        self.rep@
    }

    pub open spec fn has_user(self, uid: int) -> bool {
        exists|k: int| 0 <= k < self.user_rows().len() && self.user_rows()[k].uid == uid
    }

    pub open spec fn user_index(self, uid: int) -> int {
        choose|k: int| 0 <= k < self.user_rows().len() && self.user_rows()[k].uid == uid
    }

    pub open spec fn user_tz(self, uid: int) -> int {
        self.user_rows()[self.user_index(uid)].timezone as int
    }

    pub open spec fn user_chat_id(self, uid: int) -> int {
        self.user_rows()[self.user_index(uid)].chat_id as int
    }

    pub closed spec fn next_active(self) -> int {
        self.next_active_id as int
    }

    pub closed spec fn next_rep(self) -> int {
        self.next_rep_id as int
    }

    pub open spec fn users_wf(self) -> bool {
        users_ok(self.user_rows())
    }

    /// Active events sorted by due time with unique ids and bounded times;
    /// templates sorted by start time with unique ids, bounded times and
    /// positive intervals; every template has exactly one active event armed
    /// from it, and every armed event points at an existing template.
    pub open spec fn events_wf(self) -> bool {
        &&& sorted_by_due(self.actives())
        &&& active_ids_unique(self.actives())
        &&& active_times_ok(self.actives())
        &&& reps_sorted(self.reps())
        &&& rep_ids_unique(self.reps())
        &&& rep_rows_ok(self.reps())
        &&& children_ok(self.actives(), self.reps())
        &&& parents_exist(self.actives(), self.reps())
        &&& ids_below_active(self.actives(), self.next_active())
        &&& ids_below_rep(self.reps(), self.next_rep())
        &&& 0 <= self.next_active() <= i64::MAX
        &&& 0 <= self.next_rep() <= i64::MAX
    }

    /// The store invariant.
    pub open spec fn wf(self) -> bool {
        self.users_wf() && self.events_wf()
    }

    /// Creates an empty store with the id counters at zero.
    pub fn new(mode: DbMode) -> (db: DataBase)
        ensures
            db.wf(),
            db.user_rows() =~= Seq::<UserRow>::empty(),
            db.actives() =~= Seq::<ActiveRow>::empty(),
            db.reps() =~= Seq::<RepRow>::empty(),
            db.next_active() == 0,
            db.next_rep() == 0,
    {
        let _ = mode;
        DataBase {
            users: Vec::new(),
            active: Vec::new(),
            rep: Vec::new(),
            next_active_id: 0,
            next_rep_id: 0,
        }
    }

    /// Registers a user; a duplicate uid or an out-of-range offset is an
    /// error, and the store is unchanged.
    pub fn add_user(&mut self, info: UserInfo) -> (r: Result<(), StoreError>)
        requires
            old(self).wf(),
        ensures
            final(self).wf(),
            final(self).actives() == old(self).actives(),
            final(self).reps() == old(self).reps(),
            r is Ok <==> !old(self).has_user(info.uid as int) && -TZ_HOURS_MAX <= info.tz
                <= TZ_HOURS_MAX,
            r is Ok ==> final(self).user_rows().len() == old(self).user_rows().len() + 1 && final(self).user_rows().last().uid == info.uid && final(self).user_rows().last().timezone
                == info.tz && final(self).user_rows().last().chat_id == info.chat_id && final(self).user_rows().last().username@ == info.name@ && (forall|i: int|
                0 <= i < old(self).user_rows().len() ==> final(self).user_rows()[i] == old(self).user_rows()[i]),
            !(r is Ok) ==> final(self).user_rows() == old(self).user_rows(),
            r is Err ==> (r->Err_0 == StoreError::DuplicateUser <==> old(self).has_user(
                info.uid as int,
            )),
{
        if !(-TZ_HOURS_MAX <= info.tz && info.tz <= TZ_HOURS_MAX) {
            if self.find_user(info.uid).is_some() {
                return Err(StoreError::DuplicateUser);
            }
            return Err(StoreError::InvalidTimezone);
        }
        if self.find_user(info.uid).is_some() {
            return Err(StoreError::DuplicateUser);
        }
        let row = UserRow {
            uid: info.uid,
            username: info.name.to_owned(),
            first_name: info.first_name.to_owned(),
            last_name: info.last_name.to_owned(),
            chat_id: info.chat_id,
            timezone: info.tz,
        };
        let ghost prev = self.users@;
        self.users.push(row);
        proof {
            assert(forall|i: int| 0 <= i < prev.len() ==> self.users@[i] == prev[i]);
            assert forall|i: int, j: int|
                0 <= i < j < self.users@.len() implies self.users@[i].uid
                != self.users@[j].uid by {
                if j == self.users@.len() - 1 {
                    assert(self.users@[i] == prev[i]);
                } else {
                    assert(self.users@[i] == prev[i] && self.users@[j] == prev[j]);
                }
            }
            assert forall|i: int|
                0 <= i < self.users@.len() implies -TZ_HOURS_MAX
                <= #[trigger] self.users@[i].timezone <= TZ_HOURS_MAX by {
                if i < prev.len() {
                    assert(self.users@[i] == prev[i]);
                }
            }
        }
        Ok(())
    }

    /// The index of the user row for `uid`, if any.
    fn find_user(&self, uid: i64) -> (r: Option<usize>)
        ensures
            r is Some <==> self.has_user(uid as int),
            r is Some ==> 0 <= r->0 < self.user_rows().len() && self.user_rows()[
                r->0 as int
            ].uid == uid,
    {
        let n = self.users.len();
        let mut k: usize = 0;
        while k < n
            invariant
                0 <= k <= n,
                n == self.users@.len(),
                forall|i: int| 0 <= i < k ==> self.users@[i].uid != uid,
            decreases n - k,
        {
            if self.users[k].uid == uid {
                return Some(k);
            }
            k = k + 1;
        }
        None
    }

    /// The stored timezone offset of a registered user.
    pub fn get_user_timezone(&self, uid: i64) -> (r: i32)
        requires
            self.wf(),
            self.has_user(uid as int),
        ensures
            r as int == self.user_tz(uid as int),
            -TZ_HOURS_MAX <= r <= TZ_HOURS_MAX,
    {
        let k = match self.find_user(uid) {
            Some(k) => k,
            None => {
                proof {
                    assert(false);
                }
                0
            },
        };
        proof {
            let ghost c = self.user_index(uid as int);
            assert(0 <= c < self.user_rows().len() && self.user_rows()[c].uid == uid);
            assert(c == k as int);
        }
        self.users[k].timezone
    }

    /// The chat ids of all registered users, in registration order.
    pub fn get_user_chat_id_all(&self) -> (r: Vec<i64>)
        ensures
            r@.len() == self.user_rows().len(),
            forall|i: int|
                0 <= i < r@.len() ==> r@[i] == #[trigger] self.user_rows()[i].chat_id,
    {
        let n = self.users.len();
        let mut out: Vec<i64> = Vec::new();
        let mut k: usize = 0;
        while k < n
            invariant
                0 <= k <= n,
                n == self.users@.len(),
                out@.len() == k,
                forall|i: int| 0 <= i < k ==> out@[i] == #[trigger] self.users@[i].chat_id,
            decreases n - k,
        {
            out.push(self.users[k].chat_id);
            k = k + 1;
        }
        out
    }

    /// The earliest due time over all pending events, or `None` when there
    /// are none: never later than any pending event's due time.
    pub fn get_nearest_wakeup(&self) -> (r: Option<i64>)
        requires
            self.wf(),
        ensures
            r is None <==> self.actives().len() == 0,
            r is Some ==> self.actives().len() > 0 && r->0 == self.actives()[0].due_time,
            r is Some ==> forall|i: int|
                0 <= i < self.actives().len() ==> r->0 <= #[trigger] self.actives()[i].due_time,
            r is Some ==> exists|i: int|
                0 <= i < self.actives().len() && r->0 == #[trigger] self.actives()[i].due_time,
    {
        if self.active.len() == 0 {
            None
        } else {
            let t = self.active[0].due_time;
            proof {
                assert(self.actives()[0].due_time == t);
            }
            Some(t)
        }
    }

    /// Executable form of `next_occurrence`.
    fn next_occurrence_exec(start: i64, wait: i64, now: i64) -> (r: i64)
        requires
            -TIME_MAX <= start <= TIME_MAX,
            1 <= wait <= TIME_MAX,
            -TIME_MAX <= now <= TIME_MAX,
        ensures
            r as int == next_occurrence(start as int, wait as int, now as int),
            -TIME_MAX <= r <= 2 * TIME_MAX,
            r >= now,
    {
        let mut t = start;
        while t < now
            invariant
                -TIME_MAX <= t,
                t <= now + wait || t == start,
                -TIME_MAX <= now <= TIME_MAX,
                1 <= wait <= TIME_MAX,
                next_occurrence(t as int, wait as int, now as int) == next_occurrence(
                    start as int,
                    wait as int,
                    now as int,
                ),
            decreases vstd::math::max(now - t, 0),
        {
            t = t + wait;
        }
        proof {
            lemma_next_occurrence_bounds(start as int, wait as int, now as int);
        }
        t
    }

    /// Inserts one active event with a fresh id at its sorted position.
    /// Fails (with the store unchanged) only when the id space is exhausted.
    #[verifier::rlimit(50)]
    fn insert_active(&mut self, uid: i64, parent_id: i64, text: String, due: i64) -> (ok: bool)
        requires
            sorted_by_due(old(self).actives()),
            active_ids_unique(old(self).actives()),
            active_times_ok(old(self).actives()),
            ids_below_active(old(self).actives(), old(self).next_active()),
            -2 * TIME_MAX <= due <= 2 * TIME_MAX,
            0 <= old(self).next_active(),
        ensures
            ok <==> old(self).next_active() < i64::MAX,
            final(self).user_rows() == old(self).user_rows(),
            final(self).reps() == old(self).reps(),
            final(self).next_rep() == old(self).next_rep(),
            !ok ==> final(self).actives() == old(self).actives() && final(self).next_active()
                == old(self).next_active(),
            ok ==> final(self).next_active() == old(self).next_active() + 1,
            ok ==> exists|k: int|
                0 <= k <= old(self).actives().len() && final(self).actives() == #[trigger] old(self).actives().insert(
                    k,
                    (ActiveRow {
                        id: old(self).next_active() as i64,
                        uid: uid,
                        parent_id: parent_id,
                        text: text,
                        due_time: due,
                    }),
                ),
            ok ==> sorted_by_due(final(self).actives()) && active_ids_unique(final(self).actives())
                && active_times_ok(final(self).actives()) && ids_below_active(
                final(self).actives(),
                final(self).next_active(),
            ),
            ok ==> forall|pid: int|
                child_count(final(self).actives(), pid) == child_count(old(self).actives(), pid)
                    + if pid == parent_id {
                    1int
                } else {
                    0int
                },
            ok ==> final(self).actives().len() == old(self).actives().len() + 1,
    {
        if self.next_active_id == i64::MAX {
            return false;
        }
        let id = self.next_active_id;
        self.next_active_id = id + 1;
        let n = self.active.len();
        let mut k: usize = 0;
        while k < n && self.active[k].due_time <= due
            invariant
                0 <= k <= n,
                n == self.active@.len(),
                forall|i: int| 0 <= i < k ==> #[trigger] self.active@[i].due_time <= due,
            decreases n - k,
        {
            k = k + 1;
        }
        let ghost prev = self.active@;
        let row = ActiveRow { id, uid, parent_id, text, due_time: due };
        self.active.insert(k, row);
        proof {
            prev.insert_ensures(k as int, row);
            assert(self.active@ == prev.insert(k as int, row));
            // sortedness: everything before k is <= due, everything from k on
            // is > due by the loop exit and the old sortedness
            assert forall|i: int, j: int|
                0 <= i < j < self.active@.len() implies #[trigger] self.active@[i].due_time
                <= #[trigger] self.active@[j].due_time by {
                if i < k && j == k {
                } else if i < k && j > k {
                    assert(prev[i].due_time <= prev[j - 1].due_time);
                } else if i == k && j > k {
                    if k < prev.len() {
                        assert(prev[k as int].due_time > due);
                        assert(prev[k as int].due_time <= prev[j - 1].due_time);
                    }
                } else if i > k && j > k {
                    assert(prev[i - 1].due_time <= prev[j - 1].due_time);
                }
            }
            assert forall|i: int, j: int|
                0 <= i < j < self.active@.len() implies self.active@[i].id
                != self.active@[j].id by {
                if i != k && j != k {
                    let i0 = if i < k {
                        i
                    } else {
                        i - 1
                    };
                    let j0 = if j < k {
                        j
                    } else {
                        j - 1
                    };
                    assert(self.active@[i] == prev[i0] && self.active@[j] == prev[j0]);
                    assert(0 <= prev[i0].id < old(self).next_active());
                } else {
                    let m = if i == k {
                        j
                    } else {
                        i
                    };
                    let m0 = if m < k {
                        m
                    } else {
                        m - 1
                    };
                    assert(self.active@[m] == prev[m0]);
                    assert(0 <= prev[m0].id < old(self).next_active());
                }
            }
            assert forall|i: int|
                0 <= i < self.active@.len() implies -2 * TIME_MAX
                <= #[trigger] self.active@[i].due_time <= 2 * TIME_MAX by {
                if i != k {
                    let i0 = if i < k {
                        i
                    } else {
                        i - 1
                    };
                    assert(self.active@[i] == prev[i0]);
                    assert(-2 * TIME_MAX <= prev[i0].due_time <= 2 * TIME_MAX);
                }
            }
            assert forall|i: int|
                0 <= i < self.active@.len() implies 0 <= #[trigger] self.active@[i].id
                < self.next_active() by {
                if i != k {
                    let i0 = if i < k {
                        i
                    } else {
                        i - 1
                    };
                    assert(self.active@[i] == prev[i0]);
                    assert(0 <= prev[i0].id < old(self).next_active());
                }
            }
            assert forall|pid: int|
                child_count(self.active@, pid) == child_count(prev, pid) + (if pid == parent_id {
                    1int
                } else {
                    0int
                }) by {
                lemma_child_count_insert(prev, k as int, row, pid);
            }
        }
        true
    }

    /// Inserts one active event whose id is already reserved (not present in
    /// the table and below the id counter) at its sorted position.
    #[verifier::rlimit(50)]
    fn insert_active_reuse(&mut self, row: ActiveRow)
        requires
            sorted_by_due(old(self).actives()),
            active_ids_unique(old(self).actives()),
            active_times_ok(old(self).actives()),
            ids_below_active(old(self).actives(), old(self).next_active()),
            -2 * TIME_MAX <= row.due_time <= 2 * TIME_MAX,
            0 <= row.id < old(self).next_active(),
            forall|i: int|
                0 <= i < old(self).actives().len() ==> #[trigger] old(self).actives()[i].id
                    != row.id,
        ensures
            final(self).user_rows() == old(self).user_rows(),
            final(self).reps() == old(self).reps(),
            final(self).next_rep() == old(self).next_rep(),
            final(self).next_active() == old(self).next_active(),
            exists|k: int|
                0 <= k <= old(self).actives().len() && final(self).actives() == #[trigger] old(
                    self,
                ).actives().insert(k, row),
            sorted_by_due(final(self).actives()) && active_ids_unique(final(self).actives())
                && active_times_ok(final(self).actives()) && ids_below_active(
                final(self).actives(),
                final(self).next_active(),
            ),
            forall|pid: int|
                child_count(final(self).actives(), pid) == child_count(old(self).actives(), pid)
                    + if pid == row.parent_id {
                    1int
                } else {
                    0int
                },
            final(self).actives().len() == old(self).actives().len() + 1,
            forall|x: ActiveRow|
                old(self).actives().contains(x) ==> #[trigger] final(self).actives().contains(x),
            forall|i: int|
                0 <= i < final(self).actives().len() ==> #[trigger] final(self).actives()[i] == row
                    || old(self).actives().contains(final(self).actives()[i]),
    {
        let due = row.due_time;
        let n = self.active.len();
        let mut k: usize = 0;
        while k < n && self.active[k].due_time <= due
            invariant
                0 <= k <= n,
                n == self.active@.len(),
                due == row.due_time,
                forall|i: int| 0 <= i < k ==> #[trigger] self.active@[i].due_time <= due,
            decreases n - k,
        {
            k = k + 1;
        }
        let ghost prev = self.active@;
        self.active.insert(k, row);
        proof {
            prev.insert_ensures(k as int, row);
            assert(self.active@ == prev.insert(k as int, row));
            assert forall|i: int, j: int|
                0 <= i < j < self.active@.len() implies #[trigger] self.active@[i].due_time
                <= #[trigger] self.active@[j].due_time by {
                if i < k && j == k {
                } else if i < k && j > k {
                    assert(prev[i].due_time <= prev[j - 1].due_time);
                } else if i == k && j > k {
                    if k < prev.len() {
                        assert(prev[k as int].due_time > due);
                        assert(prev[k as int].due_time <= prev[j - 1].due_time);
                    }
                } else if i > k && j > k {
                    assert(prev[i - 1].due_time <= prev[j - 1].due_time);
                }
            }
            assert forall|i: int, j: int|
                0 <= i < j < self.active@.len() implies self.active@[i].id
                != self.active@[j].id by {
                if i != k && j != k {
                    let i0 = if i < k {
                        i
                    } else {
                        i - 1
                    };
                    let j0 = if j < k {
                        j
                    } else {
                        j - 1
                    };
                    assert(self.active@[i] == prev[i0] && self.active@[j] == prev[j0]);
                    assert(0 <= prev[i0].id < old(self).next_active());
                } else {
                    let m = if i == k {
                        j
                    } else {
                        i
                    };
                    let m0 = if m < k {
                        m
                    } else {
                        m - 1
                    };
                    assert(self.active@[m] == prev[m0]);
                    assert(prev[m0].id != row.id);
                }
            }
            assert forall|i: int|
                0 <= i < self.active@.len() implies -2 * TIME_MAX
                <= #[trigger] self.active@[i].due_time <= 2 * TIME_MAX by {
                if i != k {
                    let i0 = if i < k {
                        i
                    } else {
                        i - 1
                    };
                    assert(self.active@[i] == prev[i0]);
                    assert(-2 * TIME_MAX <= prev[i0].due_time <= 2 * TIME_MAX);
                }
            }
            assert forall|i: int|
                0 <= i < self.active@.len() implies 0 <= #[trigger] self.active@[i].id
                < self.next_active() by {
                if i != k {
                    let i0 = if i < k {
                        i
                    } else {
                        i - 1
                    };
                    assert(self.active@[i] == prev[i0]);
                    assert(0 <= prev[i0].id < old(self).next_active());
                }
            }
            assert forall|pid: int|
                child_count(self.active@, pid) == child_count(prev, pid) + (if pid
                    == row.parent_id {
                    1int
                } else {
                    0int
                }) by {
                lemma_child_count_insert(prev, k as int, row, pid);
            }
            assert forall|x: ActiveRow|
                prev.contains(x) implies #[trigger] self.active@.contains(x) by {
                let i0 = choose|i0: int| 0 <= i0 < prev.len() && prev[i0] == x;
                let i1 = if i0 < k {
                    i0
                } else {
                    i0 + 1
                };
                assert(self.active@[i1] == x);
            }
            assert forall|i: int|
                0 <= i < self.active@.len() implies #[trigger] self.active@[i] == row
                    || prev.contains(self.active@[i]) by {
                if i != k {
                    let i0 = if i < k {
                        i
                    } else {
                        i - 1
                    };
                    assert(self.active@[i] == prev[i0]);
                }
            }
        }
    }

    /// Inserts one repeating template with a fresh id at its sorted position,
    /// returning the id; fails only when the id space is exhausted.
    #[verifier::rlimit(50)]
    fn insert_rep(&mut self, uid: i64, text: String, start: i64, wait: i64) -> (r: Option<i64>)
        requires
            reps_sorted(old(self).reps()),
            rep_ids_unique(old(self).reps()),
            rep_rows_ok(old(self).reps()),
            ids_below_rep(old(self).reps(), old(self).next_rep()),
            -TIME_MAX <= start <= TIME_MAX,
            1 <= wait <= TIME_MAX,
            0 <= old(self).next_rep(),
        ensures
            r is Some <==> old(self).next_rep() < i64::MAX,
            final(self).user_rows() == old(self).user_rows(),
            final(self).actives() == old(self).actives(),
            final(self).next_active() == old(self).next_active(),
            r is None ==> final(self).reps() == old(self).reps() && final(self).next_rep() == old(self).next_rep(),
            r is Some ==> r->0 as int == old(self).next_rep() && final(self).next_rep() == old(self).next_rep() + 1,
            r is Some ==> exists|k: int|
                0 <= k <= old(self).reps().len() && final(self).reps() == #[trigger] old(self).reps().insert(
                    k,
                    (RepRow {
                        id: r->0,
                        uid: uid,
                        text: text,
                        start_time: start,
                        wait_time: wait,
                    }),
                ),
            r is Some ==> reps_sorted(final(self).reps()) && rep_ids_unique(final(self).reps())
                && rep_rows_ok(final(self).reps()) && ids_below_rep(
                final(self).reps(),
                final(self).next_rep(),
            ),
            r is Some ==> final(self).reps().len() == old(self).reps().len() + 1,
    {
        if self.next_rep_id == i64::MAX {
            return None;
        }
        let id = self.next_rep_id;
        self.next_rep_id = id + 1;
        let n = self.rep.len();
        let mut k: usize = 0;
        while k < n && self.rep[k].start_time <= start
            invariant
                0 <= k <= n,
                n == self.rep@.len(),
                forall|i: int| 0 <= i < k ==> #[trigger] self.rep@[i].start_time <= start,
            decreases n - k,
        {
            k = k + 1;
        }
        let ghost prev = self.rep@;
        let row = RepRow { id, uid, text, start_time: start, wait_time: wait };
        self.rep.insert(k, row);
        proof {
            prev.insert_ensures(k as int, row);
            assert(self.rep@ == prev.insert(k as int, row));
            assert forall|i: int, j: int|
                0 <= i < j < self.rep@.len() implies #[trigger] self.rep@[i].start_time
                <= #[trigger] self.rep@[j].start_time by {
                if i < k && j == k {
                } else if i < k && j > k {
                    assert(prev[i].start_time <= prev[j - 1].start_time);
                } else if i == k && j > k {
                    if k < prev.len() {
                        assert(prev[k as int].start_time > start);
                        assert(prev[k as int].start_time <= prev[j - 1].start_time);
                    }
                } else if i > k && j > k {
                    assert(prev[i - 1].start_time <= prev[j - 1].start_time);
                }
            }
            assert forall|i: int, j: int|
                0 <= i < j < self.rep@.len() implies self.rep@[i].id != self.rep@[j].id by {
                if i != k && j != k {
                    let i0 = if i < k {
                        i
                    } else {
                        i - 1
                    };
                    let j0 = if j < k {
                        j
                    } else {
                        j - 1
                    };
                    assert(self.rep@[i] == prev[i0] && self.rep@[j] == prev[j0]);
                    assert(0 <= prev[i0].id < old(self).next_rep());
                } else {
                    let m = if i == k {
                        j
                    } else {
                        i
                    };
                    let m0 = if m < k {
                        m
                    } else {
                        m - 1
                    };
                    assert(self.rep@[m] == prev[m0]);
                    assert(0 <= prev[m0].id < old(self).next_rep());
                }
            }
            assert forall|i: int|
                0 <= i < self.rep@.len() implies -TIME_MAX <= #[trigger] self.rep@[i].start_time
                <= TIME_MAX && 1 <= self.rep@[i].wait_time <= TIME_MAX by {
                if i != k {
                    let i0 = if i < k {
                        i
                    } else {
                        i - 1
                    };
                    assert(self.rep@[i] == prev[i0]);
                    assert(-TIME_MAX <= prev[i0].start_time <= TIME_MAX && 1 <= prev[i0].wait_time
                        <= TIME_MAX);
                }
            }
            assert forall|i: int|
                0 <= i < self.rep@.len() implies 0 <= #[trigger] self.rep@[i].id
                < self.next_rep() by {
                if i != k {
                    let i0 = if i < k {
                        i
                    } else {
                        i - 1
                    };
                    assert(self.rep@[i] == prev[i0]);
                    assert(0 <= prev[i0].id < old(self).next_rep());
                }
            }
        }
        Some(id)
    }

    /// Deletes the repeating template with the given id and every active
    /// event armed from it.
    #[verifier::rlimit(50)]
    pub fn delete_rep_event(&mut self, event_id: i64) -> (ok: bool)
        requires
            old(self).wf(),
        ensures
            ok,
            final(self).wf(),
            final(self).user_rows() == old(self).user_rows(),
            final(self).reps() == reps_without(old(self).reps(), event_id as int),
            final(self).actives() == non_children(old(self).actives(), event_id as int),
    {
        let ghost x = event_id as int;
        let ghost prev_rep = self.rep@;
        let mut k: usize = 0;
        let ghost mut j: int = 0;
        proof {
            assert(prev_rep.subrange(0, 0) =~= Seq::<RepRow>::empty());
            assert(reps_without(prev_rep.subrange(0, 0), x).len() == 0) by {
                reveal(Seq::filter);
            }
            assert(prev_rep.subrange(0, prev_rep.len() as int) =~= prev_rep);
        }
        loop
            invariant
                x == event_id as int,
                0 <= j <= prev_rep.len(),
                k as int == reps_without(prev_rep.subrange(0, j), x).len(),
                self.rep@ == reps_without(prev_rep.subrange(0, j), x) + prev_rep.subrange(
                    j,
                    prev_rep.len() as int,
                ),
                k <= self.rep@.len(),
                self.users@ == old(self).users@,
                self.active@ == old(self).active@,
                self.next_active_id == old(self).next_active_id,
                self.next_rep_id == old(self).next_rep_id,
            ensures
                self.rep@ == reps_without(prev_rep, x),
                self.users@ == old(self).users@,
                self.active@ == old(self).active@,
                self.next_active_id == old(self).next_active_id,
                self.next_rep_id == old(self).next_rep_id,
            decreases prev_rep.len() - j,
        {
            if k == self.rep.len() {
                proof {
                    assert(j == prev_rep.len());
                    assert(prev_rep.subrange(0, j) =~= prev_rep);
                    assert(self.rep@ =~= reps_without(prev_rep.subrange(0, j), x));
                }
                break ;
            }
            let ghost fpre = reps_without(prev_rep.subrange(0, j), x);
            proof {
                assert(self.rep@[k as int] == prev_rep[j]);
                assert(prev_rep.subrange(0, j + 1) == prev_rep.subrange(0, j).push(
                    prev_rep[j],
                )) by {
                    assert(prev_rep.subrange(0, j + 1) =~= prev_rep.subrange(0, j).push(
                        prev_rep[j],
                    ));
                }
                lemma_rw_push(prev_rep.subrange(0, j), x, prev_rep[j]);
            }
            let row_id = self.rep[k].id;
            if row_id == event_id {
                let ghost before = self.rep@;
                self.rep.remove(k);
                proof {
                    before.remove_ensures(k as int);
                    assert(prev_rep[j].id == event_id);
                    assert(!((prev_rep[j].id as int) != x));
                    assert(reps_without(prev_rep.subrange(0, j).push(prev_rep[j]), x) == fpre);
                    assert(reps_without(prev_rep.subrange(0, j + 1), x) == fpre);
                    assert forall|i: int|
                        0 <= i < self.rep@.len() implies self.rep@[i] == (fpre
                        + prev_rep.subrange(j + 1, prev_rep.len() as int))[i] by {
                        if i < k {
                            assert(self.rep@[i] == before[i]);
                        } else {
                            assert(self.rep@[i] == before[i + 1]);
                        }
                    }
                    assert(self.rep@ =~= reps_without(prev_rep.subrange(0, j + 1), x)
                        + prev_rep.subrange(j + 1, prev_rep.len() as int));
                }
            } else {
                proof {
                    assert(reps_without(prev_rep.subrange(0, j + 1), x) == fpre.push(prev_rep[j]));
                    assert forall|i: int|
                        0 <= i < self.rep@.len() implies self.rep@[i] == (fpre.push(prev_rep[j])
                        + prev_rep.subrange(j + 1, prev_rep.len() as int))[i] by {
                        if i < k {
                        } else if i == k {
                            assert(self.rep@[i] == prev_rep[j]);
                        } else {
                            assert(self.rep@[i] == prev_rep.subrange(
                                j,
                                prev_rep.len() as int,
                            )[i - k]);
                        }
                    }
                    assert(self.rep@ =~= reps_without(prev_rep.subrange(0, j + 1), x)
                        + prev_rep.subrange(j + 1, prev_rep.len() as int));
                }
                k = k + 1;
            }
            proof {
                j = j + 1;
            }
        }
        let ghost prev_act = self.active@;
        let mut k2: usize = 0;
        let ghost mut j2: int = 0;
        proof {
            assert(prev_act.subrange(0, 0) =~= Seq::<ActiveRow>::empty());
            assert(non_children(prev_act.subrange(0, 0), x).len() == 0) by {
                reveal(Seq::filter);
            }
        }
        loop
            invariant
                x == event_id as int,
                0 <= j2 <= prev_act.len(),
                k2 as int == non_children(prev_act.subrange(0, j2), x).len(),
                self.active@ == non_children(prev_act.subrange(0, j2), x) + prev_act.subrange(
                    j2,
                    prev_act.len() as int,
                ),
                k2 <= self.active@.len(),
                self.users@ == old(self).users@,
                self.rep@ == reps_without(prev_rep, x),
                self.next_active_id == old(self).next_active_id,
                self.next_rep_id == old(self).next_rep_id,
            ensures
                self.active@ == non_children(prev_act, x),
                self.users@ == old(self).users@,
                self.rep@ == reps_without(prev_rep, x),
                self.next_active_id == old(self).next_active_id,
                self.next_rep_id == old(self).next_rep_id,
            decreases prev_act.len() - j2,
        {
            if k2 == self.active.len() {
                proof {
                    assert(j2 == prev_act.len());
                    assert(prev_act.subrange(0, j2) =~= prev_act);
                    assert(self.active@ =~= non_children(prev_act.subrange(0, j2), x));
                }
                break ;
            }
            let ghost fpre = non_children(prev_act.subrange(0, j2), x);
            proof {
                assert(self.active@[k2 as int] == prev_act[j2]);
                assert(prev_act.subrange(0, j2 + 1) == prev_act.subrange(0, j2).push(
                    prev_act[j2],
                )) by {
                    assert(prev_act.subrange(0, j2 + 1) =~= prev_act.subrange(0, j2).push(
                        prev_act[j2],
                    ));
                }
                lemma_nc_push(prev_act.subrange(0, j2), x, prev_act[j2]);
            }
            let row_pid = self.active[k2].parent_id;
            if row_pid == event_id {
                let ghost before2 = self.active@;
                self.active.remove(k2);
                proof {
                    before2.remove_ensures(k2 as int);
                    assert(non_children(prev_act.subrange(0, j2 + 1), x) == fpre);
                    assert forall|i: int|
                        0 <= i < self.active@.len() implies self.active@[i] == (fpre
                        + prev_act.subrange(j2 + 1, prev_act.len() as int))[i] by {
                        if i < k2 {
                            assert(self.active@[i] == before2[i]);
                        } else {
                            assert(self.active@[i] == before2[i + 1]);
                        }
                    }
                    assert(self.active@ =~= non_children(prev_act.subrange(0, j2 + 1), x)
                        + prev_act.subrange(j2 + 1, prev_act.len() as int));
                }
            } else {
                proof {
                    assert(non_children(prev_act.subrange(0, j2 + 1), x) == fpre.push(
                        prev_act[j2],
                    ));
                    assert forall|i: int|
                        0 <= i < self.active@.len() implies self.active@[i] == (fpre.push(
                        prev_act[j2],
                    ) + prev_act.subrange(j2 + 1, prev_act.len() as int))[i] by {
                        if i < k2 {
                        } else if i == k2 {
                            assert(self.active@[i] == prev_act[j2]);
                        } else {
                            assert(self.active@[i] == prev_act.subrange(
                                j2,
                                prev_act.len() as int,
                            )[i - k2]);
                        }
                    }
                    assert(self.active@ =~= non_children(prev_act.subrange(0, j2 + 1), x)
                        + prev_act.subrange(j2 + 1, prev_act.len() as int));
                }
                k2 = k2 + 1;
            }
            proof {
                j2 = j2 + 1;
            }
        }
        proof {
            lemma_nc_properties(prev_act, x);
            lemma_rw_properties(prev_rep, x);
            let nc = non_children(prev_act, x);
            let rw = reps_without(prev_rep, x);
            assert(self.active@ == nc && self.rep@ == rw);
            assert forall|i: int|
                0 <= i < nc.len() implies -2 * TIME_MAX <= #[trigger] nc[i].due_time <= 2
                * TIME_MAX by {
                lemma_nc_membership(prev_act, x, i);
                let k0 = choose|k0: int|
                    0 <= k0 < prev_act.len() && prev_act[k0] == nc[i] && prev_act[k0].parent_id
                        != x;
                assert(-2 * TIME_MAX <= prev_act[k0].due_time <= 2 * TIME_MAX);
            }
            assert forall|i: int|
                0 <= i < nc.len() implies 0 <= #[trigger] nc[i].id < self.next_active() by {
                lemma_nc_membership(prev_act, x, i);
                let k0 = choose|k0: int|
                    0 <= k0 < prev_act.len() && prev_act[k0] == nc[i] && prev_act[k0].parent_id
                        != x;
                assert(0 <= prev_act[k0].id < old(self).next_active());
            }
            assert forall|i: int|
                0 <= i < rw.len() implies -TIME_MAX <= #[trigger] rw[i].start_time <= TIME_MAX && 1
                <= rw[i].wait_time <= TIME_MAX by {
                lemma_rw_membership(prev_rep, x, i);
                let k0 = choose|k0: int|
                    0 <= k0 < prev_rep.len() && prev_rep[k0] == rw[i] && prev_rep[k0].id != x;
                assert(-TIME_MAX <= prev_rep[k0].start_time <= TIME_MAX);
                assert(1 <= prev_rep[k0].wait_time <= TIME_MAX);
            }
            assert forall|i: int|
                0 <= i < rw.len() implies 0 <= #[trigger] rw[i].id < self.next_rep() by {
                lemma_rw_membership(prev_rep, x, i);
                let k0 = choose|k0: int|
                    0 <= k0 < prev_rep.len() && prev_rep[k0] == rw[i] && prev_rep[k0].id != x;
                assert(0 <= prev_rep[k0].id < old(self).next_rep());
            }
            assert forall|i: int|
                0 <= i < rw.len() implies child_count(nc, #[trigger] rw[i].id as int) == 1 by {
                lemma_rw_membership(prev_rep, x, i);
                let k0 = choose|k0: int|
                    0 <= k0 < prev_rep.len() && prev_rep[k0] == rw[i] && prev_rep[k0].id != x;
                assert(child_count(prev_act, prev_rep[k0].id as int) == 1);
            }
            assert forall|i: int|
                0 <= i < nc.len() implies #[trigger] nc[i].parent_id == -1 || exists|jj: int|
                0 <= jj < rw.len() && #[trigger] rw[jj].id == nc[i].parent_id by {
                lemma_nc_membership(prev_act, x, i);
                let k0 = choose|k0: int|
                    0 <= k0 < prev_act.len() && prev_act[k0] == nc[i] && prev_act[k0].parent_id
                        != x;
                if prev_act[k0].parent_id != -1 {
                    let jj = choose|jj: int|
                        0 <= jj < prev_rep.len() && #[trigger] prev_rep[jj].id
                            == prev_act[k0].parent_id;
                    lemma_rw_contains(prev_rep, x, jj);
                    let jr = choose|jr: int| 0 <= jr < rw.len() && rw[jr] == prev_rep[jj];
                    assert(rw[jr].id == nc[i].parent_id);
                }
            }
        }
        true
    }

    /// The pending events of one user, soonest first, at most twenty.
    #[verifier::rlimit(50)]
    pub fn get_all_active_events(&self, uid: i64) -> (r: Vec<Command>)
        requires
            self.wf(),
        ensures
            ({
                let ua = user_actives(self.actives(), uid as int);
                &&& r@.len() == vstd::math::min(20, ua.len() as int)
                &&& forall|i: int|
                    0 <= i < r@.len() ==> (#[trigger] r@[i] matches Command::OneTimeEvent(o)
                        && o.event_time == ua[i].due_time && o.event_text == ua[i].text)
            }),
    {
        let ghost u = uid as int;
        let n = self.active.len();
        let mut out: Vec<Command> = Vec::new();
        let mut k: usize = 0;
        proof {
            assert(self.active@.subrange(0, 0) =~= Seq::<ActiveRow>::empty());
            assert(user_actives(self.active@.subrange(0, 0), u).len() == 0) by {
                reveal(Seq::filter);
            }
        }
        while k < n
            invariant
                u == uid as int,
                0 <= k <= n,
                n == self.active@.len(),
                out@.len() == vstd::math::min(
                    20,
                    user_actives(self.active@.subrange(0, k as int), u).len() as int,
                ),
                out@.len() <= 20,
                forall|i: int|
                    0 <= i < out@.len() ==> (#[trigger] out@[i] matches Command::OneTimeEvent(o)
                        && o.event_time == user_actives(
                        self.active@.subrange(0, k as int),
                        u,
                    )[i].due_time && o.event_text == user_actives(
                        self.active@.subrange(0, k as int),
                        u,
                    )[i].text),
            decreases n - k,
        {
            let ghost prefix = self.active@.subrange(0, k as int);
            proof {
                assert(self.active@.subrange(0, k as int + 1) == prefix.push(
                    self.active@[k as int],
                )) by {
                    assert(self.active@.subrange(0, k as int + 1) =~= prefix.push(
                        self.active@[k as int],
                    ));
                }
                lemma_ua_push(prefix, u, self.active@[k as int]);
            }
            if self.active[k].uid == uid && out.len() < 20 {
                let row = &self.active[k];
                out.push(
                    Command::OneTimeEvent(
                        OneTimeEventImpl {
                            event_time: row.due_time,
                            event_text: row.text.clone(),
                        },
                    ),
                );
            }
            k = k + 1;
        }
        proof {
            assert(self.active@.subrange(0, n as int) =~= self.active@);
        }
        out
    }

    /// The repeating templates of one user with their ids, earliest start
    /// first, at most twenty.
    #[verifier::rlimit(50)]
    pub fn get_all_rep_events(&self, uid: i64) -> (r: Vec<(Command, i64)>)
        requires
            self.wf(),
        ensures
            ({
                let ur = user_reps(self.reps(), uid as int);
                &&& r@.len() == vstd::math::min(20, ur.len() as int)
                &&& forall|i: int|
                    0 <= i < r@.len() ==> ((#[trigger] r@[i]).0 matches Command::RepetitiveEvent(o)
                        && o.event_start_time == ur[i].start_time && o.event_wait_time
                        == ur[i].wait_time && o.event_text == ur[i].text && r@[i].1 == ur[i].id)
            }),
    {
        let ghost u = uid as int;
        let n = self.rep.len();
        let mut out: Vec<(Command, i64)> = Vec::new();
        let mut k: usize = 0;
        proof {
            assert(self.rep@.subrange(0, 0) =~= Seq::<RepRow>::empty());
            assert(user_reps(self.rep@.subrange(0, 0), u).len() == 0) by {
                reveal(Seq::filter);
            }
        }
        while k < n
            invariant
                u == uid as int,
                0 <= k <= n,
                n == self.rep@.len(),
                out@.len() == vstd::math::min(
                    20,
                    user_reps(self.rep@.subrange(0, k as int), u).len() as int,
                ),
                out@.len() <= 20,
                forall|i: int|
                    0 <= i < out@.len() ==> ((#[trigger] out@[i]).0 matches
                        Command::RepetitiveEvent(o) && o.event_start_time == user_reps(
                        self.rep@.subrange(0, k as int),
                        u,
                    )[i].start_time && o.event_wait_time == user_reps(
                        self.rep@.subrange(0, k as int),
                        u,
                    )[i].wait_time && o.event_text == user_reps(
                        self.rep@.subrange(0, k as int),
                        u,
                    )[i].text && out@[i].1 == user_reps(self.rep@.subrange(0, k as int), u)[i].id),
            decreases n - k,
        {
            let ghost prefix = self.rep@.subrange(0, k as int);
            proof {
                assert(self.rep@.subrange(0, k as int + 1) == prefix.push(
                    self.rep@[k as int],
                )) by {
                    assert(self.rep@.subrange(0, k as int + 1) =~= prefix.push(
                        self.rep@[k as int],
                    ));
                }
                lemma_ur_push(prefix, u, self.rep@[k as int]);
            }
            if self.rep[k].uid == uid && out.len() < 20 {
                let row = &self.rep[k];
                out.push(
                    (
                        Command::RepetitiveEvent(
                            RepetitiveEventImpl {
                                event_start_time: row.start_time,
                                event_wait_time: row.wait_time,
                                event_text: row.text.clone(),
                            },
                        ),
                        row.id,
                    ),
                );
            }
            k = k + 1;
        }
        proof {
            assert(self.rep@.subrange(0, n as int) =~= self.rep@);
        }
        out
    }


    /// Stores a command for a user. A one-time command becomes one active
    /// event. A repeating command becomes a template plus the one active
    /// event for its first occurrence at or after `now`; an interval below
    /// one second is clamped to one. Returns false, with the store
    /// unchanged, for an unregistered user, an out-of-range time or
    /// interval, or an exhausted id space.
    #[verifier::rlimit(50)]
    pub fn put(&mut self, uid: i64, value: Command, now: i64) -> (ok: bool)
        requires
            old(self).wf(),
            -TIME_MAX <= now <= TIME_MAX,
        ensures
            final(self).wf(),
            final(self).user_rows() == old(self).user_rows(),
            match value {
                Command::OneTimeEvent(o) => {
                    let accept = old(self).has_user(uid as int) && -TIME_MAX <= o.event_time
                        <= TIME_MAX && old(self).next_active() < i64::MAX;
                    &&& ok == accept
                    &&& !accept ==> final(self).actives() == old(self).actives() && final(self).reps() == old(self).reps()
                    &&& accept ==> final(self).reps() == old(self).reps()
                    &&& accept ==> exists|k: int, row: ActiveRow|
                        0 <= k <= old(self).actives().len() && final(self).actives()
                            == #[trigger] old(self).actives().insert(k, row) && row.uid == uid
                            && row.parent_id == -1 && row.text == o.event_text && row.due_time
                            == o.event_time
                },
                Command::RepetitiveEvent(rv) => {
                    let w = if rv.event_wait_time < 1 {
                        1int
                    } else {
                        rv.event_wait_time as int
                    };
                    let accept = old(self).has_user(uid as int) && -TIME_MAX
                        <= rv.event_start_time <= TIME_MAX && w <= TIME_MAX && old(self).next_active() < i64::MAX && old(self).next_rep() < i64::MAX;
                    &&& ok == accept
                    &&& !accept ==> final(self).actives() == old(self).actives() && final(self).reps() == old(self).reps()
                    &&& accept ==> exists|kr: int, trow: RepRow, ka: int, arow: ActiveRow|
                        0 <= kr <= old(self).reps().len() && final(self).reps() == #[trigger] old(self).reps().insert(kr, trow) && trow.uid == uid && trow.text
                            == rv.event_text && trow.start_time == rv.event_start_time
                            && trow.wait_time == w && 0 <= ka <= old(self).actives().len()
                            && final(self).actives() == #[trigger] old(self).actives().insert(
                            ka,
                            arow,
                        ) && arow.uid == uid && arow.parent_id == trow.id && arow.text
                            == rv.event_text && arow.due_time == next_occurrence(
                            rv.event_start_time as int,
                            w,
                            now as int,
                        )
                },
            },
    {
        let user_known = self.find_user(uid).is_some();
        match value {
            Command::OneTimeEvent(o) => {
                if !user_known || !(-TIME_MAX <= o.event_time && o.event_time <= TIME_MAX)
                    || self.next_active_id == i64::MAX {
                    return false;
                }
                let ghost pre = *self;
                let inserted = self.insert_active(uid, -1, o.event_text, o.event_time);
                proof {
                    assert(inserted);
                    assert forall|i: int|
                        0 <= i < self.reps().len() implies child_count(
                        self.actives(),
                        #[trigger] self.reps()[i].id as int,
                    ) == 1 by {
                        assert(0 <= self.reps()[i].id);
                        assert(child_count(pre.actives(), self.reps()[i].id as int) == 1);
                    }
                    assert forall|i: int|
                        0 <= i < self.actives().len() implies #[trigger] self.actives()[i].parent_id
                        == -1 || exists|j: int|
                        0 <= j < self.reps().len() && #[trigger] self.reps()[j].id
                            == self.actives()[i].parent_id by {
                        let k = choose|k: int|
                            0 <= k <= pre.actives().len() && self.actives() == #[trigger] pre.actives().insert(
                                k,
                                (ActiveRow {
                                    id: pre.next_active() as i64,
                                    uid: uid,
                                    parent_id: -1i64,
                                    text: o.event_text,
                                    due_time: o.event_time,
                                }),
                            );
                        pre.actives().insert_ensures(
                            k,
                            (ActiveRow {
                                id: pre.next_active() as i64,
                                uid: uid,
                                parent_id: -1i64,
                                text: o.event_text,
                                due_time: o.event_time,
                            }),
                        );
                        if i != k {
                            let i0 = if i < k {
                                i
                            } else {
                                i - 1
                            };
                            assert(self.actives()[i] == pre.actives()[i0]);
                        }
                    }
                }
                true
            },
            Command::RepetitiveEvent(rv) => {
                let w: i64 = if rv.event_wait_time < 1 {
                    1
                } else {
                    rv.event_wait_time
                };
                if !user_known || !(-TIME_MAX <= rv.event_start_time && rv.event_start_time <= TIME_MAX)
                    || w > TIME_MAX || self.next_active_id == i64::MAX || self.next_rep_id
                    == i64::MAX {
                    return false;
                }
                let ghost pre = *self;
                let tid = match self.insert_rep(
                    uid,
                    rv.event_text.clone(),
                    rv.event_start_time,
                    w,
                ) {
                    Some(t) => t,
                    None => {
                        proof {
                            assert(false);
                        }
                        return false;
                    },
                };
                let ghost mid = *self;
                let due = Self::next_occurrence_exec(rv.event_start_time, w, now);
                let inserted = self.insert_active(uid, tid, rv.event_text, due);
                proof {
                    assert(inserted);
                    let ghost arow = (ActiveRow {
                        id: mid.next_active() as i64,
                        uid: uid,
                        parent_id: tid,
                        text: rv.event_text,
                        due_time: due,
                    });
                    let ka = choose|k: int|
                        0 <= k <= mid.actives().len() && self.actives()
                            == #[trigger] mid.actives().insert(k, arow);
                    mid.actives().insert_ensures(ka, arow);
                    let ghost trow = (RepRow {
                        id: tid,
                        uid: uid,
                        text: rv.event_text,
                        start_time: rv.event_start_time,
                        wait_time: w,
                    });
                    let kr = choose|k: int|
                        0 <= k <= pre.reps().len() && mid.reps() == #[trigger] pre.reps().insert(
                            k,
                            trow,
                        );
                    pre.reps().insert_ensures(kr, trow);
                    // the fresh template id has no armed event yet
                    assert forall|k: int|
                        0 <= k < pre.actives().len() implies #[trigger] pre.actives()[k].parent_id
                        != tid by {
                        if pre.actives()[k].parent_id != -1 {
                            let j = choose|j: int|
                                0 <= j < pre.reps().len() && #[trigger] pre.reps()[j].id
                                    == pre.actives()[k].parent_id;
                            assert(pre.reps()[j].id < pre.next_rep());
                        }
                    }
                    lemma_child_count_zero(pre.actives(), tid as int);
                    assert forall|i: int|
                        0 <= i < self.reps().len() implies child_count(
                        self.actives(),
                        #[trigger] self.reps()[i].id as int,
                    ) == 1 by {
                        if i == kr {
                            assert(self.reps()[i] == trow);
                            assert(child_count(mid.actives(), tid as int) == 0);
                        } else {
                            let i0 = if i < kr {
                                i
                            } else {
                                i - 1
                            };
                            assert(self.reps()[i] == pre.reps()[i0]);
                            assert(child_count(pre.actives(), pre.reps()[i0].id as int) == 1);
                            assert(pre.reps()[i0].id != tid);
                        }
                    }
                    assert forall|i: int|
                        0 <= i < self.actives().len() implies #[trigger] self.actives()[i].parent_id
                        == -1 || exists|j: int|
                        0 <= j < self.reps().len() && #[trigger] self.reps()[j].id
                            == self.actives()[i].parent_id by {
                        if i == ka {
                            assert(self.actives()[i] == arow);
                            assert(self.reps()[kr].id == tid);
                        } else {
                            let i0 = if i < ka {
                                i
                            } else {
                                i - 1
                            };
                            assert(self.actives()[i] == pre.actives()[i0]);
                            if pre.actives()[i0].parent_id != -1 {
                                let j = choose|j: int|
                                    0 <= j < pre.reps().len() && #[trigger] pre.reps()[j].id
                                        == pre.actives()[i0].parent_id;
                                let j1 = if j < kr {
                                    j
                                } else {
                                    j + 1
                                };
                                assert(self.reps()[j1] == pre.reps()[j]);
                            }
                        }
                    }
                }
                true
            },
        }
    }
    /// The index of the template with the given id, if any.
    fn find_rep(&self, rid: i64) -> (r: Option<usize>)
        ensures
            r is Some ==> 0 <= r->0 < self.reps().len() && self.reps()[r->0 as int].id == rid,
            r is None ==> forall|j: int| 0 <= j < self.reps().len() ==> #[trigger] self.reps()[j].id != rid,
    {
        let n = self.rep.len();
        let mut k: usize = 0;
        while k < n
            invariant
                0 <= k <= n,
                n == self.rep@.len(),
                forall|j: int| 0 <= j < k ==> #[trigger] self.rep@[j].id != rid,
            decreases n - k,
        {
            if self.rep[k].id == rid {
                return Some(k);
            }
            k = k + 1;
        }
        None
    }

    /// Removes and returns every active event due at or before `time`, in
    /// ascending due-time order. Each extracted event armed from a repeating
    /// template is replaced by a fresh one at the template's next occurrence
    /// at or after `time`, so a template always keeps exactly one armed
    /// event.
    #[verifier::rlimit(100)]
    pub fn extract_events_happens_already(&mut self, time: i64) -> (r: Vec<RetrieveEventsResult>)
        requires
            old(self).wf(),
            -TIME_MAX <= time <= TIME_MAX,
        ensures
            final(self).wf(),
            final(self).user_rows() == old(self).user_rows(),
            final(self).reps() == old(self).reps(),
            r@.len() <= old(self).actives().len(),
            forall|i: int|
                0 <= i < r@.len() ==> ((#[trigger] r@[i]).command matches Command::OneTimeEvent(o)
                    && o.event_time == old(self).actives()[i].due_time && o.event_text == old(self).actives()[i].text && r@[i].uid == old(self).actives()[i].uid),
            forall|i: int| 0 <= i < r@.len() ==> #[trigger] old(self).actives()[i].due_time <= time,
            forall|i: int|
                r@.len() <= i < old(self).actives().len() ==> #[trigger] old(self).actives()[i].due_time > time,
            forall|i: int|
                0 <= i < final(self).actives().len() ==> #[trigger] final(self).actives()[i].due_time >= time,
            forall|i: int|
                0 <= i < final(self).actives().len() ==> ((#[trigger] final(self).actives()[i].parent_id == -1) ==> final(self).actives()[i].due_time > time),
            forall|i: int|
                0 <= i < old(self).actives().len() && #[trigger] old(self).actives()[i].parent_id == -1 && old(self).actives()[i].due_time > time ==> final(self).actives().contains(old(self).actives()[i]),
            forall|i: int|
                0 <= i < final(self).actives().len() && #[trigger] final(self).actives()[i].parent_id == -1 ==> old(self).actives().contains(final(self).actives()[i]),
            forall|j: int|
                0 <= j < old(self).reps().len() ==> ({
                    let t = #[trigger] old(self).reps()[j];
                    let c = the_child(old(self).actives(), t.id as int);
                    let c2 = the_child(final(self).actives(), t.id as int);
                    &&& (c.due_time <= time ==> c2.parent_id == t.id && c2.uid == c.uid
                        && c2.text == t.text && c2.due_time == next_occurrence(
                        t.start_time as int,
                        t.wait_time as int,
                        time as int,
                    ))
                    &&& (c.due_time > time ==> c2 == c)
                }),
    {
        let ghost orig = self.active@;
        let mut out: Vec<RetrieveEventsResult> = Vec::new();
        let mut extracted: Vec<ActiveRow> = Vec::new();
        proof {
            assert(extracted@ =~= orig.subrange(0, 0));
            assert(self.active@ =~= orig.subrange(0, orig.len() as int));
        }
        loop
            invariant
                old(self).wf(),
                -TIME_MAX <= time <= TIME_MAX,
                orig == old(self).actives(),
                out@.len() == extracted@.len(),
                extracted@.len() <= orig.len(),
                extracted@ == orig.subrange(0, extracted@.len() as int),
                self.active@ == orig.subrange(extracted@.len() as int, orig.len() as int),
                forall|i: int| 0 <= i < extracted@.len() ==> #[trigger] orig[i].due_time <= time,
                forall|i: int|
                    0 <= i < out@.len() ==> ((#[trigger] out@[i]).command matches Command::OneTimeEvent(o) && o.event_time == orig[i].due_time && o.event_text == orig[i].text && out@[i].uid == orig[i].uid),
                self.users@ == old(self).users@,
                self.rep@ == old(self).rep@,
                self.next_active_id == old(self).next_active_id,
                self.next_rep_id == old(self).next_rep_id,
            ensures
                out@.len() == extracted@.len(),
                extracted@.len() <= orig.len(),
                extracted@ == orig.subrange(0, extracted@.len() as int),
                self.active@ == orig.subrange(extracted@.len() as int, orig.len() as int),
                forall|i: int| 0 <= i < extracted@.len() ==> #[trigger] orig[i].due_time <= time,
                forall|i: int|
                    0 <= i < out@.len() ==> ((#[trigger] out@[i]).command matches Command::OneTimeEvent(o) && o.event_time == orig[i].due_time && o.event_text == orig[i].text && out@[i].uid == orig[i].uid),
                self.users@ == old(self).users@,
                self.rep@ == old(self).rep@,
                self.next_active_id == old(self).next_active_id,
                self.next_rep_id == old(self).next_rep_id,
                self.active@.len() == 0 || self.active@[0].due_time > time,
            decreases self.active@.len(),
        {
            if self.active.len() == 0 {
                break ;
            }
            let d0 = self.active[0].due_time;
            if d0 > time {
                break ;
            }
            let ghost pre = self.active@;
            let ghost e0 = extracted@.len() as int;
            let row = self.active.remove(0);
            proof {
                pre.remove_ensures(0);
                assert(row == orig[e0]);
                assert forall|i: int| 0 <= i < self.active@.len() implies self.active@[i]
                    == orig.subrange(e0 + 1, orig.len() as int)[i] by {
                    assert(self.active@[i] == pre[i + 1]);
                }
                assert(self.active@ =~= orig.subrange(e0 + 1, orig.len() as int));
            }
            out.push(
                RetrieveEventsResult {
                    command: Command::OneTimeEvent(
                        OneTimeEventImpl { event_time: row.due_time, event_text: row.text.clone() },
                    ),
                    uid: row.uid,
                },
            );
            extracted.push(row);
            proof {
                assert(extracted@ =~= orig.subrange(0, e0 + 1));
            }
        }
        let ghost k = extracted@.len() as int;
        proof {
            lemma_extract_init(orig, extracted@, self.active@, self.rep@, time as int);
        }
        let kx = extracted.len();
        let mut e: usize = 0;
        while e < kx
            invariant
                old(self).wf(),
                -TIME_MAX <= time <= TIME_MAX,
                orig == old(self).actives(),
                0 <= e <= kx,
                kx as int == k,
                k == extracted@.len(),
                k <= orig.len(),
                extracted@ == orig.subrange(0, k),
                forall|i: int| 0 <= i < k ==> #[trigger] orig[i].due_time <= time,
                forall|m1: int, m2: int|
                    0 <= m1 < m2 < k && #[trigger] extracted@[m1].parent_id != -1
                        ==> extracted@[m1].parent_id != #[trigger] extracted@[m2].parent_id,
                self.users@ == old(self).users@,
                self.rep@ == old(self).rep@,
                self.next_active_id == old(self).next_active_id,
                self.next_rep_id == old(self).next_rep_id,
                sorted_by_due(self.active@),
                active_ids_unique(self.active@),
                active_times_ok(self.active@),
                ids_below_active(self.active@, self.next_active()),
                forall|i: int, m: int|
                    0 <= i < self.active@.len() && e <= m < k ==> #[trigger] self.active@[i].id
                        != #[trigger] extracted@[m].id,
                forall|j: int|
                    0 <= j < self.rep@.len() ==> child_count(
                        self.active@,
                        #[trigger] self.rep@[j].id as int,
                    ) == (if exists|m: int|
                        e <= m < k && #[trigger] extracted@[m].parent_id == self.rep@[j].id {
                        0int
                    } else {
                        1int
                    }),
                parents_exist(self.active@, self.rep@),
                forall|i: int|
                    0 <= i < self.active@.len() ==> #[trigger] self.active@[i].due_time >= time,
                forall|i: int|
                    0 <= i < self.active@.len() ==> ((#[trigger] self.active@[i].parent_id == -1)
                        ==> self.active@[i].due_time > time),
                forall|i: int|
                    0 <= i < orig.len() && #[trigger] orig[i].parent_id == -1 && orig[i].due_time
                        > time ==> self.active@.contains(orig[i]),
                forall|i: int|
                    0 <= i < self.active@.len() && #[trigger] self.active@[i].parent_id == -1
                        ==> orig.contains(self.active@[i]),
                forall|m: int|
                    0 <= m < e && #[trigger] extracted@[m].parent_id != -1 ==> exists|c: int|
                        0 <= c < self.active@.len() && (#[trigger] self.active@[c]).parent_id
                            == extracted@[m].parent_id && self.active@[c].uid == extracted@[m].uid
                            && (exists|j: int|
                            0 <= j < self.rep@.len() && (#[trigger] self.rep@[j]).id
                                == extracted@[m].parent_id && self.active@[c].text
                                == self.rep@[j].text && self.active@[c].due_time
                                == next_occurrence(
                                self.rep@[j].start_time as int,
                                self.rep@[j].wait_time as int,
                                time as int,
                            )),
                forall|j: int|
                    0 <= j < self.rep@.len() && !(exists|m: int|
                        0 <= m < k && #[trigger] extracted@[m].parent_id == self.rep@[j].id)
                        ==> #[trigger] self.active@.contains(the_child(orig, self.rep@[j].id as int)),
            decreases kx - e,
        {
            let rpid = extracted[e].parent_id;
            if rpid != -1 {
                let ruid = extracted[e].uid;
                let rid = extracted[e].id;
                let ri = match self.find_rep(rpid) {
                    Some(ri) => ri,
                    None => {
                        proof {
                            assert(orig[e as int].parent_id == rpid);
                            let jj = choose|jj: int|
                                0 <= jj < old(self).reps().len() && #[trigger] old(self).reps()[jj].id == orig[e as int].parent_id;
                            assert(self.reps()[jj].id == rpid);
                            assert(false);
                        }
                        0
                    },
                };
                let t_start = self.rep[ri].start_time;
                let t_wait = self.rep[ri].wait_time;
                let t_text = self.rep[ri].text.clone();
                let nxt = Self::next_occurrence_exec(t_start, t_wait, time);
                let new_row = ActiveRow {
                    id: rid,
                    uid: ruid,
                    parent_id: rpid,
                    text: t_text,
                    due_time: nxt,
                };
                let ghost sa = self.active@;
                proof {
                    assert(extracted@[e as int] == orig[e as int]);
                    assert(0 <= rid < self.next_active());
                    assert forall|i: int|
                        0 <= i < sa.len() implies #[trigger] sa[i].id != rid by {
                        assert(sa[i].id != extracted@[e as int].id);
                    }
                }
                self.insert_active_reuse(new_row);
                proof {
                    let sb = self.active@;
                    lemma_next_occurrence_bounds(t_start as int, t_wait as int, time as int);
                    // counts
                    assert forall|j: int|
                        0 <= j < self.rep@.len() implies child_count(
                        sb,
                        #[trigger] self.rep@[j].id as int,
                    ) == (if exists|m: int|
                        e + 1 <= m < k && #[trigger] extracted@[m].parent_id == self.rep@[j].id {
                        0int
                    } else {
                        1int
                    }) by {
                        let pid = self.rep@[j].id as int;
                        if self.rep@[j].id == rpid {
                            assert(extracted@[e as int].parent_id == self.rep@[j].id);
                            assert(child_count(sa, pid) == 0);
                            assert forall|m: int|
                                e + 1 <= m < k implies #[trigger] extracted@[m].parent_id
                                != self.rep@[j].id by {
                                assert(extracted@[e as int].parent_id != -1);
                            }
                        } else {
                            assert(child_count(sb, pid) == child_count(sa, pid));
                            if exists|m: int|
                                e + 1 <= m < k && #[trigger] extracted@[m].parent_id
                                    == self.rep@[j].id {
                                let m = choose|m: int|
                                    e + 1 <= m < k && #[trigger] extracted@[m].parent_id
                                        == self.rep@[j].id;
                                assert(e as int <= m < k);
                            } else {
                                if exists|m: int|
                                    e as int <= m < k && #[trigger] extracted@[m].parent_id
                                        == self.rep@[j].id {
                                    let m = choose|m: int|
                                        e as int <= m < k && #[trigger] extracted@[m].parent_id
                                            == self.rep@[j].id;
                                    assert(m == e as int);
                                    assert(false);
                                }
                            }
                        }
                    }
                    // id pool for the remaining extracted rows
                    assert forall|i: int, m: int|
                        0 <= i < sb.len() && e + 1 <= m < k implies #[trigger] sb[i].id
                        != #[trigger] extracted@[m].id by {
                        if sb[i] == new_row {
                            assert(extracted@[e as int].id == orig[e as int].id);
                            assert(extracted@[m].id == orig[m].id);
                        } else {
                            assert(sa.contains(sb[i]));
                            let i0 = choose|i0: int| 0 <= i0 < sa.len() && sa[i0] == sb[i];
                            assert(sa[i0].id != extracted@[m].id);
                        }
                    }
                    // parents still point at templates
                    assert forall|i: int|
                        0 <= i < sb.len() implies #[trigger] sb[i].parent_id == -1 || exists|
                            jx: int,
                        | 0 <= jx < self.rep@.len() && #[trigger] self.rep@[jx].id
                            == sb[i].parent_id by {
                        if sb[i] == new_row {
                            assert(self.rep@[ri as int].id == sb[i].parent_id);
                        } else {
                            assert(sa.contains(sb[i]));
                            let i0 = choose|i0: int| 0 <= i0 < sa.len() && sa[i0] == sb[i];
                            assert(sa[i0].parent_id == -1 || exists|jx: int|
                                0 <= jx < self.rep@.len() && #[trigger] self.rep@[jx].id
                                    == sa[i0].parent_id);
                        }
                    }
                    // due-time floor
                    assert forall|i: int|
                        0 <= i < sb.len() implies #[trigger] sb[i].due_time >= time && ((
                        sb[i].parent_id == -1) ==> sb[i].due_time > time) by {
                        if sb[i] == new_row {
                        } else {
                            assert(sa.contains(sb[i]));
                            let i0 = choose|i0: int| 0 <= i0 < sa.len() && sa[i0] == sb[i];
                            assert(sa[i0].due_time >= time);
                            assert((sa[i0].parent_id == -1) ==> sa[i0].due_time > time);
                        }
                    }
                    // one-time rows all come from the pre-extraction table
                    assert forall|i: int|
                        0 <= i < sb.len() && #[trigger] sb[i].parent_id == -1 implies orig.contains(
                        sb[i],
                    ) by {
                        assert(sb[i] != new_row);
                        assert(sa.contains(sb[i]));
                        let i0 = choose|i0: int| 0 <= i0 < sa.len() && sa[i0] == sb[i];
                        assert(orig.contains(sa[i0]));
                    }
                    // the freshly re-armed event witnesses its record
                    assert forall|m: int|
                        0 <= m < e + 1 && #[trigger] extracted@[m].parent_id != -1 implies exists|
                            c: int,
                        |
                            0 <= c < sb.len() && (#[trigger] sb[c]).parent_id
                                == extracted@[m].parent_id && sb[c].uid == extracted@[m].uid && (
                            exists|j: int|
                                0 <= j < self.rep@.len() && (#[trigger] self.rep@[j]).id
                                    == extracted@[m].parent_id && sb[c].text == self.rep@[j].text
                                    && sb[c].due_time == next_occurrence(
                                    self.rep@[j].start_time as int,
                                    self.rep@[j].wait_time as int,
                                    time as int,
                                )) by {
                        if m == e as int {
                            let kk = choose|kk: int|
                                0 <= kk <= sa.len() && sb == #[trigger] sa.insert(kk, new_row);
                            sa.insert_ensures(kk, new_row);
                            assert(sb[kk] == new_row);
                            assert(sb[kk].parent_id == extracted@[m].parent_id);
                            assert(self.rep@[ri as int].id == extracted@[m].parent_id);
                            assert(sb[kk].text == self.rep@[ri as int].text);
                        } else {
                            let c0 = choose|c0: int|
                                0 <= c0 < sa.len() && (#[trigger] sa[c0]).parent_id
                                    == extracted@[m].parent_id && sa[c0].uid == extracted@[m].uid
                                    && (exists|j: int|
                                    0 <= j < self.rep@.len() && (#[trigger] self.rep@[j]).id
                                        == extracted@[m].parent_id && sa[c0].text
                                        == self.rep@[j].text && sa[c0].due_time == next_occurrence(
                                        self.rep@[j].start_time as int,
                                        self.rep@[j].wait_time as int,
                                        time as int,
                                    ));
                            assert(sb.contains(sa[c0]));
                            let c1 = choose|c1: int| 0 <= c1 < sb.len() && sb[c1] == sa[c0];
                            assert(sb[c1].parent_id == extracted@[m].parent_id);
                        }
                    }
                    // untouched templates keep their previously armed event
                    assert forall|j: int|
                        0 <= j < self.rep@.len() && !(exists|m: int|
                            0 <= m < k && #[trigger] extracted@[m].parent_id == self.rep@[j].id) implies #[trigger] sb.contains(
                        the_child(orig, self.rep@[j].id as int),
                    ) by {
                        assert(sa.contains(the_child(orig, self.rep@[j].id as int)));
                    }
                }
            }
            e = e + 1;
        }
        proof {
            // with every extracted repeat re-armed, all templates have one child
            assert forall|j: int|
                0 <= j < self.rep@.len() implies child_count(
                self.active@,
                #[trigger] self.rep@[j].id as int,
            ) == 1 by {
                if exists|m: int|
                    kx as int <= m < k && #[trigger] extracted@[m].parent_id == self.rep@[j].id {
                    let m = choose|m: int|
                        kx as int <= m < k && #[trigger] extracted@[m].parent_id
                            == self.rep@[j].id;
                    assert(false);
                }
            }
            // relate `the_child` before and after
            assert forall|j: int|
                0 <= j < self.rep@.len() implies ({
                let t = #[trigger] self.rep@[j];
                let c = the_child(orig, t.id as int);
                let c2 = the_child(self.active@, t.id as int);
                &&& (c.due_time <= time ==> c2.parent_id == t.id && c2.uid == c.uid && c2.text
                    == t.text && c2.due_time == next_occurrence(
                    t.start_time as int,
                    t.wait_time as int,
                    time as int,
                ))
                &&& (c.due_time > time ==> c2 == c)
            }) by {
                let t = self.rep@[j];
                let pid = t.id as int;
                assert(child_count(orig, pid) == 1);
                lemma_the_child(orig, pid);
                assert(child_count(self.active@, pid) == 1);
                lemma_the_child(self.active@, pid);
                let ci = child_index(orig, pid);
                let c = the_child(orig, pid);
                if c.due_time <= time {
                    // the previously armed event was extracted and re-armed
                    assert(ci < k) by {
                        if ci >= k {
                            assert(orig[ci].due_time > time);
                        }
                    }
                    assert(extracted@[ci].parent_id == t.id);
                    let cw = choose|cw: int|
                        0 <= cw < self.active@.len() && (#[trigger] self.active@[cw]).parent_id
                            == extracted@[ci].parent_id && self.active@[cw].uid
                            == extracted@[ci].uid && (exists|jx: int|
                            0 <= jx < self.rep@.len() && (#[trigger] self.rep@[jx]).id
                                == extracted@[ci].parent_id && self.active@[cw].text
                                == self.rep@[jx].text && self.active@[cw].due_time
                                == next_occurrence(
                                self.rep@[jx].start_time as int,
                                self.rep@[jx].wait_time as int,
                                time as int,
                            ));
                    let jx = choose|jx: int|
                        0 <= jx < self.rep@.len() && (#[trigger] self.rep@[jx]).id
                            == extracted@[ci].parent_id && self.active@[cw].text
                            == self.rep@[jx].text && self.active@[cw].due_time == next_occurrence(
                            self.rep@[jx].start_time as int,
                            self.rep@[jx].wait_time as int,
                            time as int,
                        );
                    assert(jx == j) by {
                        if jx != j {
                            assert(self.rep@[jx].id != self.rep@[j].id);
                        }
                    }
                    assert(cw == child_index(self.active@, pid));
                } else {
                    // the previously armed event survived untouched
                    assert(!(exists|m: int|
                        0 <= m < k && #[trigger] extracted@[m].parent_id == t.id)) by {
                        if exists|m: int|
                            0 <= m < k && #[trigger] extracted@[m].parent_id == t.id {
                            let m = choose|m: int|
                                0 <= m < k && #[trigger] extracted@[m].parent_id == t.id;
                            assert(orig[m].parent_id == t.id);
                            assert(m == ci);
                            assert(orig[m].due_time <= time);
                        }
                    }
                    assert(self.active@.contains(c));
                    let cc = choose|cc: int|
                        0 <= cc < self.active@.len() && self.active@[cc] == c;
                    assert(cc == child_index(self.active@, pid));
                }
            }
        }
        out
    }

}

} // verus!
