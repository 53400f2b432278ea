use vstd::prelude::*;

use crate::civil::{
    civil_from_timestamp, civil_of, local_of, month_abbrev, month_full, month_name_abbrev,
    month_name_full, TIME_MAX, TZ_HOURS_MAX,
};
use crate::command::{
    parse_command, spec_parse_at, spec_parse_for, spec_parse_rep, trimmed, Command,
};
use crate::database::{user_actives, user_reps, ActiveRow, DataBase, RepRow};
use crate::numfmt::{
    dec_str, dec_str_pad2_space, dec_str_pad2_zero, push_dec_pad2_space, push_dec_pad2_zero,
};

verus! {

/// The reply header for a scheduled event: "today"/"tomorrow" by local day
/// number, a full date otherwise, and a warning for a moment in the past.
pub open spec fn spec_header(event_time: int, now: int, tz: int) -> Seq<char> {
    if event_time < now {
        "Event time is in the past. Is it right?"@
    } else {
        let le = local_of(event_time, tz);
        let ln = local_of(now, tz);
        let de = le / 86400;
        let dn = ln / 86400;
        let c = civil_of(le);
        let hm = dec_str_pad2_zero(c.3) + seq![':'] + dec_str_pad2_zero(c.4);
        if de == dn {
            "I'll remind you today at "@ + hm
        } else if de == dn + 1 {
            "I'll remind you tomorrow at "@ + hm
        } else {
            "I'll remind you "@ + month_name_full(c.1) + seq![' '] + dec_str_pad2_space(c.2)
                + " at "@ + hm
        }
    }
}

/// Formats the confirmation header for an event at `event_time`, given the
/// current instant and the user's offset.
pub fn format_return_message_header(event_time: i64, now: i64, tz: i32) -> (r: String)
    requires
        -2 * TIME_MAX <= event_time <= 2 * TIME_MAX,
        -TIME_MAX <= now <= TIME_MAX,
        -TZ_HOURS_MAX <= tz <= TZ_HOURS_MAX,
    ensures
        r@ == spec_header(event_time as int, now as int, tz as int),
{
    proof {
        reveal_strlit("Event time is in the past. Is it right?");
        reveal_strlit("I'll remind you today at ");
        reveal_strlit("I'll remind you tomorrow at ");
        reveal_strlit("I'll remind you ");
        reveal_strlit(" at ");
        reveal_strlit(":");
        reveal_strlit(" ");
    }
    if event_time < now {
        return "Event time is in the past. Is it right?".to_owned();
    }
    let le = event_time - (tz as i64) * 3600;
    let ln = now - (tz as i64) * 3600;
    let de = crate::arith::floor_div_i64(le, 86400);
    let dn = crate::arith::floor_div_i64(ln, 86400);
    let c = civil_from_timestamp(le);
    let mut r = String::new();
    if de == dn {
        r.append("I'll remind you today at ");
    } else if dn < i64::MAX && de == dn + 1 {
        r.append("I'll remind you tomorrow at ");
    } else {
        r.append("I'll remind you ");
        r.append(month_full(c.month));
        r.append(" ");
        push_dec_pad2_space(&mut r, c.day as u64);
        r.append(" at ");
    }
    push_dec_pad2_zero(&mut r, c.hour as u64);
    r.append(":");
    push_dec_pad2_zero(&mut r, c.minute as u64);
    proof {
        assert(r@ =~= spec_header(event_time as int, now as int, tz as int));
    }
    r
}

/// The reply to a recognised command line, if any form matches: the header
/// for the parsed moment, a newline, and the event text.
pub open spec fn spec_text_command_reply(t: Seq<char>, now: int, tz: int) -> Option<Seq<char>> {
    if spec_parse_for(t, now) is Some {
        let dt = spec_parse_for(t, now)->0;
        Some(spec_header(dt.0, now, tz) + seq!['\n'] + dt.1)
    } else if spec_parse_at(t, now, tz) is Some {
        let dt = spec_parse_at(t, now, tz)->0;
        Some(spec_header(dt.0, now, tz) + seq!['\n'] + dt.1)
    } else if spec_parse_rep(t, now, tz) is Some {
        let dt = spec_parse_rep(t, now, tz)->0;
        Some(spec_header(dt.0, now, tz) + seq!['\n'] + dt.2)
    } else {
        None
    }
}

/// One active event was inserted for `uid` (or the id space was exhausted
/// and nothing changed); the templates are untouched.
pub open spec fn one_time_inserted(
    pre: DataBase,
    post: DataBase,
    uid: int,
    due: int,
    text: Seq<char>,
) -> bool {
    post.reps() == pre.reps() && ((exists|kk: int, row: ActiveRow|
        0 <= kk <= pre.actives().len() && post.actives() == #[trigger] pre.actives().insert(
            kk,
            row,
        ) && row.uid == uid && row.parent_id == -1 && row.text@ == text && row.due_time == due) || (
    pre.next_active() == i64::MAX && post.actives() == pre.actives()))
}

/// One template plus its first armed event were inserted for `uid` (or the
/// id space was exhausted and nothing changed).
pub open spec fn rep_inserted(
    pre: DataBase,
    post: DataBase,
    uid: int,
    start: int,
    interval: int,
    text: Seq<char>,
    now: int,
) -> bool {
    (exists|kr: int, trow: RepRow, ka: int, arow: ActiveRow|
        0 <= kr <= pre.reps().len() && post.reps() == #[trigger] pre.reps().insert(kr, trow)
            && trow.uid == uid && trow.text@ == text && trow.start_time == start && trow.wait_time
            == interval && 0 <= ka <= pre.actives().len() && post.actives()
            == #[trigger] pre.actives().insert(ka, arow) && arow.uid == uid && arow.parent_id
            == trow.id && arow.text@ == text && arow.due_time == crate::database::next_occurrence(
            start,
            interval,
            now,
        )) || ((pre.next_active() == i64::MAX || pre.next_rep() == i64::MAX) && post.actives()
        == pre.actives() && post.reps() == pre.reps())
}

/// How the store changes when a command line is processed for `uid`: the
/// parsed event is stored, or nothing changes when no form matches.
pub open spec fn store_after_text_command(
    pre: DataBase,
    post: DataBase,
    uid: int,
    t: Seq<char>,
    now: int,
) -> bool {
    let tz = pre.user_tz(uid);
    if spec_parse_for(t, now) is Some {
        let dt = spec_parse_for(t, now)->0;
        one_time_inserted(pre, post, uid, dt.0, dt.1)
    } else if spec_parse_at(t, now, tz) is Some {
        let dt = spec_parse_at(t, now, tz)->0;
        one_time_inserted(pre, post, uid, dt.0, dt.1)
    } else if spec_parse_rep(t, now, tz) is Some {
        let dt = spec_parse_rep(t, now, tz)->0;
        rep_inserted(pre, post, uid, dt.0, dt.1, dt.2, now)
    } else {
        post.actives() == pre.actives() && post.reps() == pre.reps()
    }
}

/// Parses a command line for a registered user, stores the event on success,
/// and returns the confirmation text; `None` when no form matches.
#[verifier::rlimit(100)]
pub fn process_text_command(uid: i64, text_message: &str, now: i64, db: &mut DataBase) -> (r:
    Option<String>)
    requires
        old(db).wf(),
        old(db).has_user(uid as int),
        -TIME_MAX <= now <= TIME_MAX,
    ensures
        final(db).wf(),
        final(db).user_rows() == old(db).user_rows(),
        ({
            let t = trimmed(text_message@);
            let tz = old(db).user_tz(uid as int);
            &&& (r is Some <==> spec_text_command_reply(t, now as int, tz) is Some)
            &&& (r is Some ==> r->0@ == spec_text_command_reply(t, now as int, tz)->0)
            &&& store_after_text_command(*old(db), *final(db), uid as int, t, now as int)
        }),
{
    let tz = db.get_user_timezone(uid);
    let parsed = parse_command(text_message.to_owned(), now, tz);
    match parsed {
        Some(Command::OneTimeEvent(ev)) => {
            let mut ret = format_return_message_header(ev.event_time, now, tz);
            ret.append("\n");
            ret.append(ev.event_text.as_str());
            proof {
                reveal_strlit("\n");
                assert(ret@ =~= spec_header(ev.event_time as int, now as int, tz as int) + seq![
                    '\n',
                ] + ev.event_text@);
            }
            let _stored = db.put(uid, Command::OneTimeEvent(ev), now);
            proof {
                let tseq = trimmed(text_message@);
                let tzv = old(db).user_tz(uid as int);
                assert(tz as int == tzv);
                assert(-TIME_MAX <= ev.event_time <= TIME_MAX);
                if old(db).next_active() < i64::MAX {
                    assert(exists|kk: int, row: ActiveRow|
                        0 <= kk <= old(db).actives().len() && db.actives() == #[trigger] old(
                            db,
                        ).actives().insert(kk, row) && row.uid == uid && row.parent_id == -1
                            && row.text == ev.event_text && row.due_time == ev.event_time);
                } else {
                    assert(db.actives() == old(db).actives());
                }
                let due0: int = ev.event_time as int;
                let text0 = ev.event_text@;
                if old(db).next_active() < i64::MAX {
                    let (kk, row) = choose|kk: int, row: ActiveRow|
                        0 <= kk <= old(db).actives().len() && db.actives() == #[trigger] old(
                            db,
                        ).actives().insert(kk, row) && row.uid == uid && row.parent_id == -1
                            && row.text == ev.event_text && row.due_time == ev.event_time;
                    assert(exists|kk2: int, row2: ActiveRow|
                        0 <= kk2 <= old(db).actives().len() && db.actives() == #[trigger] old(
                            db,
                        ).actives().insert(kk2, row2) && row2.uid == uid as int && row2.parent_id
                            == -1 && row2.text@ == text0 && row2.due_time == due0);
                    assert(one_time_inserted(*old(db), *db, uid as int, due0, text0));
                } else {
                    assert(one_time_inserted(*old(db), *db, uid as int, due0, text0));
                }
            }
            Some(ret)
        },
        Some(Command::RepetitiveEvent(ev)) => {
            let mut ret = format_return_message_header(ev.event_start_time, now, tz);
            ret.append("\n");
            ret.append(ev.event_text.as_str());
            proof {
                reveal_strlit("\n");
                assert(ret@ =~= spec_header(ev.event_start_time as int, now as int, tz as int)
                    + seq!['\n'] + ev.event_text@);
            }
            let _stored = db.put(uid, Command::RepetitiveEvent(ev), now);
            Some(ret)
        },
        None => None,
    }
}

/// The first forty characters of an event text, as shown in listings.
pub open spec fn first40(text: Seq<char>) -> Seq<char> {
    if text.len() <= 40 {
        text
    } else {
        text.subrange(0, 40)
    }
}

/// One `/list` entry: the truncated text and the local "day month hour.minute"
/// rendering of the due time.
pub open spec fn spec_list_entry(text: Seq<char>, due: int, tz: int) -> Seq<char> {
    let c = civil_of(local_of(due, tz));
    first40(text) + " : _"@ + dec_str_pad2_space(c.2) + seq![' '] + month_name_abbrev(c.1) + seq![
        ' ',
    ] + dec_str_pad2_space(c.3) + seq!['.'] + dec_str_pad2_zero(c.4) + seq!['_']
}

fn truncate40(text: &str) -> (r: String)
    ensures
        r@ == first40(text@),
{
    let n = text.unicode_len();
    if n <= 40 {
        text.to_owned()
    } else {
        text.substring_char(0, 40).to_owned()
    }
}

/// The numbered `/list` lines for the first `n` of the user's events.
pub open spec fn active_entries(ua: Seq<ActiveRow>, tz: int, n: int) -> Seq<char>
    decreases n,
{
    if n <= 0 {
        Seq::empty()
    } else {
        active_entries(ua, tz, n - 1) + dec_str(n) + ") "@ + spec_list_entry(
            ua[n - 1].text@,
            ua[n - 1].due_time as int,
            tz,
        ) + seq!['\n']
    }
}

/// The listing lines of the pending events of one user, numbered from one,
/// soonest first, at most twenty.
#[verifier::rlimit(100)]
pub fn get_active_event_list(uid: i64, db: &DataBase) -> (r: Vec<String>)
    requires
        db.wf(),
        db.has_user(uid as int),
    ensures
        ({
            let ua = user_actives(db.actives(), uid as int);
            let tz = db.user_tz(uid as int);
            &&& r@.len() == vstd::math::min(20, ua.len() as int)
            &&& forall|i: int|
                0 <= i < r@.len() ==> (#[trigger] r@[i])@ == spec_list_entry(
                    ua[i].text@,
                    ua[i].due_time as int,
                    tz,
                )
        }),
{
    let tz = db.get_user_timezone(uid);
    let commands = db.get_all_active_events(uid);
    let mut out: Vec<String> = Vec::new();
    let n = commands.len();
    let mut k: usize = 0;
    while k < n
        invariant
            0 <= k <= n,
            n == commands@.len(),
            db.wf(),
            db.has_user(uid as int),
            -TZ_HOURS_MAX <= tz <= TZ_HOURS_MAX,
            tz as int == db.user_tz(uid as int),
            commands@.len() == vstd::math::min(
                20,
                user_actives(db.actives(), uid as int).len() as int,
            ),
            forall|i: int|
                0 <= i < commands@.len() ==> (#[trigger] commands@[i] matches Command::OneTimeEvent(
                    o,
                ) && o.event_time == user_actives(db.actives(), uid as int)[i].due_time
                    && o.event_text == user_actives(db.actives(), uid as int)[i].text),
            out@.len() == k,
            forall|i: int|
                0 <= i < k ==> (#[trigger] out@[i])@ == spec_list_entry(
                    user_actives(db.actives(), uid as int)[i].text@,
                    user_actives(db.actives(), uid as int)[i].due_time as int,
                    tz as int,
                ),
        decreases n - k,
    {
        let (etime, etext) = match &commands[k] {
            Command::OneTimeEvent(o) => (o.event_time, &o.event_text),
            Command::RepetitiveEvent(o) => {
                proof {
                    assert(false);
                }
                (o.event_start_time, &o.event_text)
            },
        };
        proof {
            reveal_strlit(" : _");
            reveal_strlit(" ");
            reveal_strlit(".");
            reveal_strlit("_");
            let ua = user_actives(db.actives(), uid as int);
            assert(ua[k as int].due_time == etime);
            crate::database::lemma_user_actives_bounds(db.actives(), uid as int, k as int);
        }
        let mut line = truncate40(etext.as_str());
        line.append(" : _");
        let le = etime - (tz as i64) * 3600;
        let c = civil_from_timestamp(le);
        push_dec_pad2_space(&mut line, c.day as u64);
        line.append(" ");
        line.append(month_abbrev(c.month));
        line.append(" ");
        push_dec_pad2_space(&mut line, c.hour as u64);
        line.append(".");
        push_dec_pad2_zero(&mut line, c.minute as u64);
        line.append("_");
        proof {
            assert(line@ =~= spec_list_entry(
                user_actives(db.actives(), uid as int)[k as int].text@,
                user_actives(db.actives(), uid as int)[k as int].due_time as int,
                tz as int,
            ));
        }
        out.push(line);
        k = k + 1;
    }
    out
}

/// The truncated texts and ids of the repeating templates of one user,
/// earliest start first, at most twenty.
pub fn get_rep_event_list(uid: i64, db: &DataBase) -> (r: (Vec<String>, Vec<i64>))
    requires
        db.wf(),
        db.has_user(uid as int),
    ensures
        ({
            let ur = user_reps(db.reps(), uid as int);
            &&& r.0@.len() == vstd::math::min(20, ur.len() as int)
            &&& r.1@.len() == r.0@.len()
            &&& forall|i: int|
                0 <= i < r.0@.len() ==> (#[trigger] r.0@[i])@ == first40(ur[i].text@)
            &&& forall|i: int| 0 <= i < r.1@.len() ==> #[trigger] r.1@[i] == ur[i].id
        }),
{
    let pairs = db.get_all_rep_events(uid);
    let mut texts: Vec<String> = Vec::new();
    let mut ids: Vec<i64> = Vec::new();
    let n = pairs.len();
    let mut k: usize = 0;
    while k < n
        invariant
            0 <= k <= n,
            n == pairs@.len(),
            db.wf(),
            pairs@.len() == vstd::math::min(20, user_reps(db.reps(), uid as int).len() as int),
            forall|i: int|
                0 <= i < pairs@.len() ==> ((#[trigger] pairs@[i]).0 matches
                    Command::RepetitiveEvent(o) && o.event_text == user_reps(
                    db.reps(),
                    uid as int,
                )[i].text && pairs@[i].1 == user_reps(db.reps(), uid as int)[i].id),
            texts@.len() == k,
            ids@.len() == k,
            forall|i: int|
                0 <= i < k ==> (#[trigger] texts@[i])@ == first40(
                    user_reps(db.reps(), uid as int)[i].text@,
                ),
            forall|i: int| 0 <= i < k ==> #[trigger] ids@[i] == user_reps(db.reps(), uid as int)[i].id,
        decreases n - k,
    {
        let etext = match &pairs[k].0 {
            Command::RepetitiveEvent(o) => &o.event_text,
            Command::OneTimeEvent(o) => {
                proof {
                    assert(false);
                }
                &o.event_text
            },
        };
        texts.push(truncate40(etext.as_str()));
        ids.push(pairs[k].1);
        k = k + 1;
    }
    (texts, ids)
}

} // verus!
