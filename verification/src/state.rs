use vstd::prelude::*;

use crate::civil::{civil_from_timestamp, civil_of, TIME_MAX};
use crate::command::{spec_parse_int, spec_starts_with, trimmed, parse_int_i32, str_eq, str_starts_with};
use crate::database::{user_reps, DataBase};
use crate::engine::ProcessResult;
use crate::helpers::{
    active_entries, first40, get_active_event_list, get_rep_event_list, process_text_command,
    spec_text_command_reply, store_after_text_command,
};
use crate::numfmt::{dec_str, dec_str_signed, push_dec_i64, push_dec_u64};

verus! {

pub const EXPECT_DURATION_MSG: &'static str = "Ok, now write time duration.";

pub const EXPECT_TIME_MSG: &'static str = "Ok, now write the time of event";

pub const EXPECT_BUTTON_PUSH: &'static str = "Ok, now choose";

pub const MAIN_HELP_MESSAGE: &'static str = "Write a reminder as <duration> <text>, for example 5m tea, or as [day[-month[-year]]] at <hour>[.minute] <text>. Commands: /help, /help more, /list, /at, /delete_rep.";

pub const DETAILED_HELP_MESSAGE: &'static str = "Duration units are d, h, m and s, combined in that order, for example 1d2h30m. An absolute moment is written as [day[-month[-year]]] at <hour>[.minute]; missing fields default to today. A repeating event is rep <moment> <interval> <text>. /list shows pending events, /at picks a date from a calendar, /delete_rep removes a repeating event.";

#[derive(Debug, PartialEq)]
pub struct SendMessageCommand {
    pub text: String,
}

#[derive(Debug, PartialEq)]
pub struct AtCalendarCommand {
    pub action_type: String,
    pub year: i32,
    pub month: i32,
    pub tz: i32,
    pub message: String,
    pub msg_id: Option<i32>,
}

#[derive(Debug, PartialEq)]
pub struct KeyboardCommand {
    pub action_type: KeyboardCommandType,
    pub text: String,
}

#[derive(Debug, PartialEq, Eq, Structural, Clone, Copy)]
pub enum KeyboardCommandType {
    Main,
    Hour,
    Minute,
}

#[allow(non_camel_case_types)]
#[derive(Debug, PartialEq)]
pub enum FrontendCommand {
    send(SendMessageCommand),
    calendar(AtCalendarCommand),
    keyboard(KeyboardCommand),
    delete_message(i32),
    delete_keyboard(i32),
}

pub struct KeyboardEventData {
    pub uid: i64,
    pub msg_id: i32,
    pub callback_data: String,
    pub msg_text: String,
}

pub struct TextEventData {
    pub uid: i64,
    pub msg_id: i32,
    pub input: String,
}

#[derive(Debug, PartialEq)]
pub enum UserState {
    ReadyToProcess,
    AtCalendar(AtCalendar),
    AtTimeHour(AtTimeHour),
    AtTimeMinute(AtTimeMinute),
    AtTimeText(AtTimeText),
    AfterInput(AfterInput),
    RepDeleteChoose(RepDeleteChoose),
}

#[derive(Debug, PartialEq)]
pub struct AtCalendar {
    pub command: AtCalendarCommand,
    pub ev_text: Option<String>,
}

#[derive(Debug, PartialEq)]
pub struct AtTimeHour {
    pub year: i32,
    pub month: i32,
    pub day: i32,
    pub ev_text: Option<String>,
}

#[derive(Debug, PartialEq)]
pub struct AtTimeMinute {
    pub year: i32,
    pub month: i32,
    pub day: i32,
    pub hour: i32,
    pub ev_text: Option<String>,
}

#[derive(Debug, PartialEq)]
pub struct AtTimeText {
    pub year: i32,
    pub month: i32,
    pub day: i32,
    pub hour: i32,
    pub minute: i32,
}

#[derive(Debug, PartialEq)]
pub struct AfterInput {
    pub ev_text: String,
}

#[derive(Debug, PartialEq)]
pub struct RepDeleteChoose {
    pub list_id: Vec<i64>,
}

// ---------------------------------------------------------------------------
// Reply texts, in specification form.
// ---------------------------------------------------------------------------

pub open spec fn unchanged_store(pre: DataBase, post: DataBase) -> bool {
    post.actives() == pre.actives() && post.reps() == pre.reps() && post.user_rows()
        == pre.user_rows()
}

pub open spec fn is_send1(pr: ProcessResult, txt: Seq<char>) -> bool {
    pr.frontend_command@.len() == 1 && (pr.frontend_command@[0] matches FrontendCommand::send(sc)
        && sc.text@ == txt)
}

pub open spec fn next_ready(pr: ProcessResult) -> bool {
    pr.next_state matches Some(ns) && ns == UserState::ReadyToProcess
}

/// The `/list` reply: the user's pending events numbered from one, or a note
/// that there are none.
pub open spec fn spec_list_reply(db: DataBase, uid: int) -> Seq<char> {
    let ua = crate::database::user_actives(db.actives(), uid);
    let cnt = vstd::math::min(20, ua.len() as int);
    if cnt == 0 {
        "No current active event"@
    } else {
        active_entries(ua, db.user_tz(uid), cnt)
    }
}

/// The `/delete_rep` listing lines: each template numbered by the index a
/// reply must use, separated by newlines.
pub open spec fn rep_lines(ur: Seq<crate::database::RepRow>, n: int) -> Seq<char>
    decreases n,
{
    if n <= 0 {
        Seq::empty()
    } else if n == 1 {
        dec_str(0) + ") "@ + first40(ur[0].text@)
    } else {
        rep_lines(ur, n - 1) + seq!['\n'] + dec_str(n - 1) + ") "@ + first40(ur[n - 1].text@)
    }
}

pub open spec fn spec_rep_delete_reply(db: DataBase, uid: int) -> Seq<char> {
    let ur = user_reps(db.reps(), uid);
    let cnt = vstd::math::min(20, ur.len() as int);
    "Here is your repeating events list. Choose which to delete:\n"@ + rep_lines(ur, cnt)
}

/// The calendar command that opens the month of the current local date.
pub open spec fn calendar_cmd_ok(
    cmd: AtCalendarCommand,
    db: DataBase,
    uid: int,
    now: int,
    msg_id: Option<i32>,
) -> bool {
    let tz = db.user_tz(uid);
    let c = civil_of(now - tz * 3600);
    &&& cmd.action_type@ == "calendar"@
    &&& cmd.year as int == c.0
    &&& cmd.month as int == c.1
    &&& cmd.tz as int == tz
    &&& cmd.message@ == "Ok, now choose date"@
    &&& cmd.msg_id == msg_id
}

pub open spec fn resulting_command_text(merged: Seq<char>, reply: Seq<char>) -> Seq<char> {
    "Resulting command:\n"@ + merged + seq!['\n'] + reply
}

pub open spec fn minute_prompt_text(hour: int) -> Seq<char> {
    "Ok, "@ + dec_str_signed(hour) + ". Now choose minute"@
}

/// The command line synthesised from picker input:
/// `day-month-year at hour.minute text`.
pub open spec fn synth_command_text(
    d: int,
    m: int,
    y: int,
    h: int,
    mi: int,
    text: Seq<char>,
) -> Seq<char> {
    dec_str_signed(d) + seq!['-'] + dec_str_signed(m) + seq!['-'] + dec_str_signed(y) + " at "@
        + dec_str_signed(h) + seq!['.'] + dec_str_signed(mi) + seq![' '] + text
}

pub open spec fn month_after(m: int, y: int) -> (int, int) {
    if m >= 12 {
        (1, if y >= 0x7fff_ffff {
            y
        } else {
            y + 1
        })
    } else {
        (m + 1, y)
    }
}

pub open spec fn month_before(m: int, y: int) -> (int, int) {
    if m <= 1 {
        (12, if y <= -0x8000_0000 {
            y
        } else {
            y - 1
        })
    } else {
        (m - 1, y)
    }
}

// ---------------------------------------------------------------------------
// The transition relation of the dialog, one case per state and event kind.
// ---------------------------------------------------------------------------

/// What handling a text event must produce, per state.
pub open spec fn spec_text_step(
    pre: DataBase,
    post: DataBase,
    st: UserState,
    uid: int,
    input: Seq<char>,
    now: int,
    r: Result<ProcessResult, String>,
) -> bool {
    let tz = pre.user_tz(uid);
    match st {
        UserState::ReadyToProcess => {
            if input.len() == 0 || input[0] != '/' {
                match spec_text_command_reply(trimmed(input), now, tz) {
                    Some(txt) => r matches Ok(pr) && is_send1(pr, txt) && next_ready(pr)
                        && store_after_text_command(pre, post, uid, trimmed(input), now),
                    None => r matches Ok(pr) && pr.frontend_command@.len() == 1 && (
                    pr.frontend_command@[0] matches FrontendCommand::keyboard(kc) && kc.action_type
                        == KeyboardCommandType::Main && kc.text@ == input) && next_ready(pr)
                        && unchanged_store(pre, post),
                }
            } else if input == "/help more"@ {
                r matches Ok(pr) && is_send1(pr, DETAILED_HELP_MESSAGE@) && next_ready(pr)
                    && unchanged_store(pre, post)
            } else if input == "/help"@ {
                r matches Ok(pr) && is_send1(pr, MAIN_HELP_MESSAGE@) && next_ready(pr)
                    && unchanged_store(pre, post)
            } else if input == "/list"@ {
                r matches Ok(pr) && is_send1(pr, spec_list_reply(pre, uid)) && next_ready(pr)
                    && unchanged_store(pre, post)
            } else if input == "/at"@ {
                r matches Ok(pr) && pr.frontend_command@.len() == 1 && (
                pr.frontend_command@[0] matches FrontendCommand::calendar(cc) && calendar_cmd_ok(
                    cc,
                    pre,
                    uid,
                    now,
                    None,
                )) && (pr.next_state matches Some(ns) && ns matches UserState::AtCalendar(ac)
                    && calendar_cmd_ok(ac.command, pre, uid, now, None) && ac.ev_text is None)
                    && unchanged_store(pre, post)
            } else if input == "/delete_rep"@ {
                let ur = user_reps(pre.reps(), uid);
                let cnt = vstd::math::min(20, ur.len() as int);
                if cnt == 0 {
                    r matches Ok(pr) && is_send1(pr, "No current rep event"@) && next_ready(pr)
                        && unchanged_store(pre, post)
                } else {
                    r matches Ok(pr) && is_send1(pr, spec_rep_delete_reply(pre, uid)) && (
                    pr.next_state matches Some(ns) && ns matches UserState::RepDeleteChoose(rd)
                        && rd.list_id@.len() == cnt && (forall|i: int|
                        0 <= i < cnt ==> #[trigger] rd.list_id@[i] == ur[i].id))
                        && unchanged_store(pre, post)
                }
            } else {
                r matches Err(e) && e@ == "Unknown command: "@ + input && unchanged_store(pre, post)
            }
        },
        UserState::AtCalendar(_) => {
            r matches Err(e) && e@ == "AtCalendar state cannot handle text input"@
                && unchanged_store(pre, post)
        },
        UserState::AtTimeHour(sh) => {
            match spec_parse_int(input) {
                Some(h) => r matches Ok(pr) && pr.frontend_command@.len() == 2 && (
                pr.frontend_command@[0] matches FrontendCommand::delete_message(m) && m == 0) && (
                pr.frontend_command@[1] matches FrontendCommand::keyboard(kc) && kc.action_type
                    == KeyboardCommandType::Minute && kc.text@ == minute_prompt_text(h)) && (
                pr.next_state matches Some(ns) && ns matches UserState::AtTimeMinute(nm) && nm.year
                    == sh.year && nm.month == sh.month && nm.day == sh.day && nm.hour as int == h
                    && nm.ev_text == sh.ev_text) && unchanged_store(pre, post),
                None => r matches Ok(pr) && is_send1(
                    pr,
                    "Incorrect format, expect number of hours"@,
                ) && next_ready(pr) && unchanged_store(pre, post),
            }
        },
        UserState::AtTimeMinute(sm) => {
            match spec_parse_int(input) {
                Some(mi) => spec_minute_outcome(pre, post, sm, mi, 0, uid, now, r),
                None => r matches Ok(pr) && is_send1(
                    pr,
                    "Incorrect format, expect number of minute"@,
                ) && next_ready(pr) && unchanged_store(pre, post),
            }
        },
        UserState::AtTimeText(stx) => {
            let synth = synth_command_text(
                stx.day as int,
                stx.month as int,
                stx.year as int,
                stx.hour as int,
                stx.minute as int,
                input,
            );
            match spec_text_command_reply(trimmed(synth), now, tz) {
                Some(txt) => r matches Ok(pr) && is_send1(pr, txt) && next_ready(pr)
                    && store_after_text_command(pre, post, uid, trimmed(synth), now),
                None => r matches Err(e) && e@ == "expect time spec format"@ && unchanged_store(
                    pre,
                    post,
                ),
            }
        },
        UserState::AfterInput(sa) => {
            let merged = input + seq![' '] + sa.ev_text@;
            match spec_text_command_reply(trimmed(merged), now, tz) {
                Some(txt) => r matches Ok(pr) && is_send1(pr, resulting_command_text(merged, txt))
                    && next_ready(pr) && store_after_text_command(
                    pre,
                    post,
                    uid,
                    trimmed(merged),
                    now,
                ),
                None => r matches Err(e) && e@ == "Wrong `after` command format"@
                    && unchanged_store(pre, post),
            }
        },
        UserState::RepDeleteChoose(rd) => {
            match spec_parse_int(input) {
                Some(n) => {
                    if 0 <= n < rd.list_id@.len() {
                        r matches Ok(pr) && is_send1(pr, "Done."@) && next_ready(pr)
                            && post.user_rows() == pre.user_rows() && post.reps()
                            == crate::database::reps_without(
                            pre.reps(),
                            rd.list_id@[n] as int,
                        ) && post.actives() == crate::database::non_children(
                            pre.actives(),
                            rd.list_id@[n] as int,
                        )
                    } else {
                        r matches Ok(pr) && is_send1(
                            pr,
                            "Number is out of limit. Operation aborted."@,
                        ) && next_ready(pr) && unchanged_store(pre, post)
                    }
                },
                None => r matches Ok(pr) && is_send1(
                    pr,
                    "You should write number. Operation aborted."@,
                ) && next_ready(pr) && unchanged_store(pre, post),
            }
        },
    }
}

/// What picking a minute must produce: with a pending text the reminder is
/// synthesised and stored at once, else the dialog asks for the body.
pub open spec fn spec_minute_outcome(
    pre: DataBase,
    post: DataBase,
    sm: AtTimeMinute,
    minute: int,
    del_msg: int,
    uid: int,
    now: int,
    r: Result<ProcessResult, String>,
) -> bool {
    let tz = pre.user_tz(uid);
    match sm.ev_text {
        Some(text) => {
            let synth = synth_command_text(
                sm.day as int,
                sm.month as int,
                sm.year as int,
                sm.hour as int,
                minute,
                text@,
            );
            match spec_text_command_reply(trimmed(synth), now, tz) {
                Some(txt) => r matches Ok(pr) && is_send1(pr, txt) && next_ready(pr)
                    && store_after_text_command(pre, post, uid, trimmed(synth), now),
                None => r matches Err(e) && e@ == "expected time format spec"@ && unchanged_store(
                    pre,
                    post,
                ),
            }
        },
        None => r matches Ok(pr) && pr.frontend_command@.len() == 2 && (
        pr.frontend_command@[0] matches FrontendCommand::delete_message(m) && m as int == del_msg)
            && (pr.frontend_command@[1] matches FrontendCommand::send(sc) && sc.text@
            == "Now write event message"@) && (pr.next_state matches Some(ns)
            && ns matches UserState::AtTimeText(nt) && nt.year == sm.year && nt.month == sm.month
            && nt.day == sm.day && nt.hour == sm.hour && nt.minute as int == minute)
            && unchanged_store(pre, post),
    }
}

/// What handling a button event must produce, per state.
pub open spec fn spec_keyboard_step(
    pre: DataBase,
    post: DataBase,
    st: UserState,
    uid: int,
    msg_id: int,
    callback: Seq<char>,
    msg_text: Seq<char>,
    now: int,
    r: Result<ProcessResult, String>,
) -> bool {
    let tz = pre.user_tz(uid);
    match st {
        UserState::ReadyToProcess => {
            if spec_starts_with(callback, "at"@) {
                r matches Ok(pr) && pr.frontend_command@.len() == 1 && (
                pr.frontend_command@[0] matches FrontendCommand::calendar(cc) && calendar_cmd_ok(
                    cc,
                    pre,
                    uid,
                    now,
                    Some(msg_id as i32),
                )) && (pr.next_state matches Some(ns) && ns matches UserState::AtCalendar(ac)
                    && calendar_cmd_ok(ac.command, pre, uid, now, Some(msg_id as i32)) && (
                ac.ev_text matches Some(t) && t@ == msg_text)) && unchanged_store(pre, post)
            } else if spec_starts_with(callback, "after"@) {
                r matches Ok(pr) && is_send1(pr, EXPECT_DURATION_MSG@) && (
                pr.next_state matches Some(ns) && ns matches UserState::AfterInput(ai)
                    && ai.ev_text@ == msg_text) && unchanged_store(pre, post)
            } else {
                let merged = callback + seq![' '] + msg_text;
                match spec_text_command_reply(trimmed(merged), now, tz) {
                    Some(txt) => r matches Ok(pr) && is_send1(
                        pr,
                        resulting_command_text(merged, txt),
                    ) && next_ready(pr) && store_after_text_command(
                        pre,
                        post,
                        uid,
                        trimmed(merged),
                        now,
                    ),
                    None => r matches Err(e) && e@ == "incorrect query data"@ && unchanged_store(
                        pre,
                        post,
                    ),
                }
            }
        },
        UserState::AtCalendar(ac) => {
            spec_calendar_keyboard(post == pre, ac, msg_id, callback, now, r) && unchanged_store(
                pre,
                post,
            )
        },
        UserState::AtTimeHour(sh) => {
            if spec_starts_with(callback, "time_hour:"@) && spec_parse_int(
                callback.skip(10),
            ) is Some {
                let h = spec_parse_int(callback.skip(10))->0;
                r matches Ok(pr) && pr.frontend_command@.len() == 2 && (
                pr.frontend_command@[0] matches FrontendCommand::delete_message(m) && m as int
                    == msg_id) && (pr.frontend_command@[1] matches FrontendCommand::keyboard(kc)
                    && kc.action_type == KeyboardCommandType::Minute && kc.text@
                    == minute_prompt_text(h)) && (pr.next_state matches Some(ns)
                    && ns matches UserState::AtTimeMinute(nm) && nm.year == sh.year && nm.month
                    == sh.month && nm.day == sh.day && nm.hour as int == h && nm.ev_text
                    == sh.ev_text) && unchanged_store(pre, post)
            } else {
                r matches Ok(pr) && is_send1(pr, "Incorrect keyboard format"@) && next_ready(pr)
                    && unchanged_store(pre, post)
            }
        },
        UserState::AtTimeMinute(sm) => {
            if spec_starts_with(callback, "time_minute:"@) && spec_parse_int(
                callback.skip(12),
            ) is Some {
                spec_minute_outcome(
                    pre,
                    post,
                    sm,
                    spec_parse_int(callback.skip(12))->0,
                    msg_id,
                    uid,
                    now,
                    r,
                )
            } else {
                r matches Ok(pr) && is_send1(pr, "Incorrect keyboard format"@) && next_ready(pr)
                    && unchanged_store(pre, post)
            }
        },
        UserState::AtTimeText(_) => {
            r matches Ok(pr) && pr.frontend_command@.len() == 0 && pr.next_state is None
                && unchanged_store(pre, post)
        },
        UserState::AfterInput(_) => {
            r matches Err(e) && e@ == "expect not button, but text"@ && unchanged_store(pre, post)
        },
        UserState::RepDeleteChoose(_) => {
            r matches Ok(pr) && is_send1(pr, "Internal logic failed"@) && next_ready(pr)
                && unchanged_store(pre, post)
        },
    }
}

/// What the calendar's buttons must produce: month navigation re-renders the
/// grid, a picked day (or today/tomorrow) moves on to the hour picker, and
/// anything else clears the message and resets the dialog.
pub open spec fn spec_calendar_keyboard(
    store_same: bool,
    ac: AtCalendar,
    msg_id: int,
    callback: Seq<char>,
    now: int,
    r: Result<ProcessResult, String>,
) -> bool {
    store_same && if callback == "next-month"@ || callback == "previous-month"@ {
        let my = if callback == "next-month"@ {
            month_after(ac.command.month as int, ac.command.year as int)
        } else {
            month_before(ac.command.month as int, ac.command.year as int)
        };
        r matches Ok(pr) && pr.frontend_command@.len() == 1 && (
        pr.frontend_command@[0] matches FrontendCommand::calendar(cc) && cc.action_type@
            == ac.command.action_type@ && cc.month as int == my.0 && cc.year as int == my.1 && cc.tz
            == ac.command.tz && cc.message@ == ac.command.message@ && cc.msg_id == Some(
            msg_id as i32,
        )) && (pr.next_state matches Some(ns) && ns matches UserState::AtCalendar(nc)
            && nc.command.month as int == my.0 && nc.command.year as int == my.1 && nc.command.tz
            == ac.command.tz && nc.command.msg_id == Some(msg_id as i32) && nc.ev_text == ac.ev_text
        )
    } else if spec_starts_with(callback, "calendar-day-"@) && spec_parse_int(
        callback.skip(13),
    ) is Some {
        let day = spec_parse_int(callback.skip(13))->0;
        r matches Ok(pr) && pr.frontend_command@.len() == 2 && (
        pr.frontend_command@[0] matches FrontendCommand::delete_message(m) && m as int == msg_id)
            && (pr.frontend_command@[1] matches FrontendCommand::keyboard(kc) && kc.action_type
            == KeyboardCommandType::Hour && kc.text@ == EXPECT_TIME_MSG@) && (
        pr.next_state matches Some(ns) && ns matches UserState::AtTimeHour(nh) && nh.year
            == ac.command.year && nh.month == ac.command.month && nh.day as int == day && nh.ev_text
            == ac.ev_text)
    } else if callback == "today"@ || callback == "tomorrow"@ {
        let base = if callback == "today"@ {
            now
        } else {
            now + 86400
        };
        let c = civil_of(base);
        r matches Ok(pr) && pr.frontend_command@.len() == 2 && (
        pr.frontend_command@[0] matches FrontendCommand::delete_message(m) && m as int == msg_id)
            && (pr.frontend_command@[1] matches FrontendCommand::keyboard(kc) && kc.action_type
            == KeyboardCommandType::Hour && kc.text@ == EXPECT_TIME_MSG@) && (
        pr.next_state matches Some(ns) && ns matches UserState::AtTimeHour(nh) && nh.year as int
            == c.0 && nh.month as int == c.1 && nh.day as int == c.2 && nh.ev_text == ac.ev_text)
    } else {
        // `ignore` and anything unrecognised: clear the message, reset
        r matches Ok(pr) && pr.frontend_command@.len() == 1 && (
        pr.frontend_command@[0] matches FrontendCommand::delete_message(m) && m as int == msg_id)
            && next_ready(pr)
    }
}

// ---------------------------------------------------------------------------
// Executable handlers.
// ---------------------------------------------------------------------------

/// Builds the calendar command seeded with the current local month.
fn make_calendar_command(uid: i64, msg_id: Option<i32>, db: &DataBase, now: i64) -> (cmd:
    AtCalendarCommand)
    requires
        db.wf(),
        db.has_user(uid as int),
        -TIME_MAX <= now <= TIME_MAX,
    ensures
        calendar_cmd_ok(cmd, *db, uid as int, now as int, msg_id),
{
    let tz = db.get_user_timezone(uid);
    let c = civil_from_timestamp(now - (tz as i64) * 3600);
    AtCalendarCommand {
        action_type: "calendar".to_owned(),
        year: c.year,
        month: c.month as i32,
        tz,
        message: "Ok, now choose date".to_owned(),
        msg_id,
    }
}

/// Builds the minute-keyboard prompt for a chosen hour.
fn make_minute_prompt(hour: i32) -> (r: String)
    ensures
        r@ == minute_prompt_text(hour as int),
{
    proof {
        reveal_strlit("Ok, ");
        reveal_strlit(". Now choose minute");
    }
    let mut r = "Ok, ".to_owned();
    push_dec_i64(&mut r, hour as i64);
    r.append(". Now choose minute");
    proof {
        assert(r@ =~= minute_prompt_text(hour as int));
    }
    r
}

/// Builds the `day-month-year at hour.minute text` command line.
fn make_synth_command(d: i32, m: i32, y: i32, h: i32, mi: i32, text: &str) -> (r: String)
    ensures
        r@ == synth_command_text(d as int, m as int, y as int, h as int, mi as int, text@),
{
    proof {
        reveal_strlit("-");
        reveal_strlit(" at ");
        reveal_strlit(".");
        reveal_strlit(" ");
    }
    let mut r = String::new();
    push_dec_i64(&mut r, d as i64);
    r.append("-");
    push_dec_i64(&mut r, m as i64);
    r.append("-");
    push_dec_i64(&mut r, y as i64);
    r.append(" at ");
    push_dec_i64(&mut r, h as i64);
    r.append(".");
    push_dec_i64(&mut r, mi as i64);
    r.append(" ");
    r.append(text);
    proof {
        assert(r@ =~= synth_command_text(d as int, m as int, y as int, h as int, mi as int, text@));
    }
    r
}

/// Builds `Resulting command:\n<merged>\n<reply>`.
fn make_resulting_text(merged: &str, reply: String) -> (r: String)
    ensures
        r@ == resulting_command_text(merged@, reply@),
{
    proof {
        reveal_strlit("Resulting command:\n");
        reveal_strlit("\n");
    }
    let mut r = "Resulting command:\n".to_owned();
    r.append(merged);
    r.append("\n");
    r.append(reply.as_str());
    proof {
        assert(r@ =~= resulting_command_text(merged@, reply@));
    }
    r
}

/// Shared tail of the minute stage: with a pending text the reminder is
/// stored at once, else the dialog asks for the event body.
fn minute_outcome(
    sm: &AtTimeMinute,
    minute: i32,
    del_msg: i32,
    uid: i64,
    now: i64,
    db: &mut DataBase,
) -> (r: Result<ProcessResult, String>)
    requires
        old(db).wf(),
        old(db).has_user(uid as int),
        -TIME_MAX <= now <= TIME_MAX,
    ensures
        final(db).wf(),
        final(db).user_rows() == old(db).user_rows(),
        spec_minute_outcome(
            *old(db),
            *final(db),
            *sm,
            minute as int,
            del_msg as int,
            uid as int,
            now as int,
            r,
        ),
{
    match &sm.ev_text {
        Some(text) => {
            let synth = make_synth_command(sm.day, sm.month, sm.year, sm.hour, minute, text.as_str());
            match process_text_command(uid, synth.as_str(), now, db) {
                Some(reply) => Ok(
                    ProcessResult::msg_send(reply, UserState::ReadyToProcess),
                ),
                None => Err("expected time format spec".to_owned()),
            }
        },
        None => {
            let mut v: Vec<FrontendCommand> = Vec::new();
            v.push(FrontendCommand::delete_message(del_msg));
            v.push(
                FrontendCommand::send(
                    SendMessageCommand { text: "Now write event message".to_owned() },
                ),
            );
            Ok(
                ProcessResult {
                    frontend_command: v,
                    next_state: Some(
                        UserState::AtTimeText(
                            AtTimeText {
                                year: sm.year,
                                month: sm.month,
                                day: sm.day,
                                hour: sm.hour,
                                minute,
                            },
                        ),
                    ),
                },
            )
        },
    }
}

/// The `/list` reply text.
fn make_list_reply(uid: i64, db: &DataBase) -> (r: String)
    requires
        db.wf(),
        db.has_user(uid as int),
    ensures
        r@ == spec_list_reply(*db, uid as int),
{
    let entries = get_active_event_list(uid, db);
    let n = entries.len();
    if n == 0 {
        return "No current active event".to_owned();
    }
    let ghost ua = crate::database::user_actives(db.actives(), uid as int);
    let ghost tz = db.user_tz(uid as int);
    let mut out = String::new();
    let mut k: usize = 0;
    while k < n
        invariant
            0 <= k <= n,
            n == entries@.len(),
            db.wf(),
            entries@.len() == vstd::math::min(20, ua.len() as int),
            ua == crate::database::user_actives(db.actives(), uid as int),
            tz == db.user_tz(uid as int),
            forall|i: int|
                0 <= i < n ==> (#[trigger] entries@[i])@ == crate::helpers::spec_list_entry(
                    ua[i].text@,
                    ua[i].due_time as int,
                    tz,
                ),
            out@ == active_entries(ua, tz, k as int),
        decreases n - k,
    {
        proof {
            reveal_strlit(") ");
            reveal_strlit("\n");
        }
        push_dec_u64(&mut out, (k + 1) as u64);
        out.append(") ");
        out.append(entries[k].as_str());
        out.append("\n");
        proof {
            assert(out@ =~= active_entries(ua, tz, k as int + 1));
        }
        k = k + 1;
    }
    out
}

/// The `/delete_rep` listing text.
fn make_rep_delete_reply(texts: &Vec<String>, ghost_db: Ghost<DataBase>, ghost_uid: Ghost<int>) -> (r:
    String)
    requires
        ({
            let ur = user_reps(ghost_db@.reps(), ghost_uid@);
            texts@.len() == vstd::math::min(20, ur.len() as int) && (forall|i: int|
                0 <= i < texts@.len() ==> (#[trigger] texts@[i])@ == first40(ur[i].text@))
        }),
    ensures
        r@ == spec_rep_delete_reply(ghost_db@, ghost_uid@),
{
    let ghost ur = user_reps(ghost_db@.reps(), ghost_uid@);
    proof {
        reveal_strlit("Here is your repeating events list. Choose which to delete:\n");
    }
    let mut out = "Here is your repeating events list. Choose which to delete:\n".to_owned();
    let ghost header = out@;
    let n = texts.len();
    let mut k: usize = 0;
    while k < n
        invariant
            0 <= k <= n,
            n == texts@.len(),
            texts@.len() == vstd::math::min(20, ur.len() as int),
            forall|i: int| 0 <= i < n ==> (#[trigger] texts@[i])@ == first40(ur[i].text@),
            header == "Here is your repeating events list. Choose which to delete:\n"@,
            out@ == header + rep_lines(ur, k as int),
        decreases n - k,
    {
        proof {
            reveal_strlit(") ");
            reveal_strlit("\n");
        }
        if k > 0 {
            out.append("\n");
        }
        push_dec_u64(&mut out, k as u64);
        out.append(") ");
        out.append(texts[k].as_str());
        proof {
            assert(out@ =~= header + rep_lines(ur, k as int + 1));
        }
        k = k + 1;
    }
    proof {
        assert(out@ == header + rep_lines(ur, n as int));
        assert(out@ =~= spec_rep_delete_reply(ghost_db@, ghost_uid@));
    }
    out
}

impl UserState {
    /// Handles a text event in the current dialog state.
    pub fn process(&self, data: TextEventData, now: i64, db: &mut DataBase) -> (r: Result<
        ProcessResult,
        String,
    >)
        requires
            old(db).wf(),
            old(db).has_user(data.uid as int),
            -TIME_MAX <= now <= TIME_MAX,
        ensures
            final(db).wf(),
            final(db).user_rows() == old(db).user_rows(),
            spec_text_step(
                *old(db),
                *final(db),
                *self,
                data.uid as int,
                data.input@,
                now as int,
                r,
            ),
    {
        match self {
            UserState::ReadyToProcess => {
                let n = data.input.as_str().unicode_len();
                if n == 0 || data.input.as_str().get_char(0) != '/' {
                    match process_text_command(data.uid, data.input.as_str(), now, db) {
                        Some(reply) => Ok(
                            ProcessResult::msg_send(reply, UserState::ReadyToProcess),
                        ),
                        None => Ok(
                            ProcessResult::single(
                                FrontendCommand::keyboard(
                                    KeyboardCommand {
                                        action_type: KeyboardCommandType::Main,
                                        text: data.input,
                                    },
                                ),
                                Some(UserState::ReadyToProcess),
                            ),
                        ),
                    }
                } else if str_eq(data.input.as_str(), "/help more") {
                    Ok(
                        ProcessResult::msg_send(
                            DETAILED_HELP_MESSAGE.to_owned(),
                            UserState::ReadyToProcess,
                        ),
                    )
                } else if str_eq(data.input.as_str(), "/help") {
                    Ok(
                        ProcessResult::msg_send(
                            MAIN_HELP_MESSAGE.to_owned(),
                            UserState::ReadyToProcess,
                        ),
                    )
                } else if str_eq(data.input.as_str(), "/list") {
                    let reply = make_list_reply(data.uid, db);
                    Ok(ProcessResult::msg_send(reply, UserState::ReadyToProcess))
                } else if str_eq(data.input.as_str(), "/at") {
                    let cmd = make_calendar_command(data.uid, None, db, now);
                    let cmd2 = make_calendar_command(data.uid, None, db, now);
                    Ok(
                        ProcessResult::single(
                            FrontendCommand::calendar(cmd),
                            Some(
                                UserState::AtCalendar(
                                    AtCalendar { command: cmd2, ev_text: None },
                                ),
                            ),
                        ),
                    )
                } else if str_eq(data.input.as_str(), "/delete_rep") {
                    let (texts, ids) = get_rep_event_list(data.uid, db);
                    if texts.len() == 0 {
                        return Ok(
                            ProcessResult::msg_send(
                                "No current rep event".to_owned(),
                                UserState::ReadyToProcess,
                            ),
                        );
                    }
                    let reply = make_rep_delete_reply(
                        &texts,
                        Ghost(*db),
                        Ghost(data.uid as int),
                    );
                    Ok(
                        ProcessResult::msg_send(
                            reply,
                            UserState::RepDeleteChoose(RepDeleteChoose { list_id: ids }),
                        ),
                    )
                } else {
                    proof {
                        reveal_strlit("Unknown command: ");
                    }
                    let mut e = "Unknown command: ".to_owned();
                    e.append(data.input.as_str());
                    Err(e)
                }
            },
            UserState::AtCalendar(_) => Err("AtCalendar state cannot handle text input".to_owned()),
            UserState::AtTimeHour(sh) => {
                match parse_int_i32(data.input.as_str()) {
                    Some(h) => {
                        let prompt = make_minute_prompt(h);
                        let mut v: Vec<FrontendCommand> = Vec::new();
                        v.push(FrontendCommand::delete_message(0));
                        v.push(
                            FrontendCommand::keyboard(
                                KeyboardCommand {
                                    action_type: KeyboardCommandType::Minute,
                                    text: prompt,
                                },
                            ),
                        );
                        Ok(
                            ProcessResult {
                                frontend_command: v,
                                next_state: Some(
                                    UserState::AtTimeMinute(
                                        AtTimeMinute {
                                            year: sh.year,
                                            month: sh.month,
                                            day: sh.day,
                                            hour: h,
                                            ev_text: match &sh.ev_text {
                                                Some(t) => Some(t.clone()),
                                                None => None,
                                            },
                                        },
                                    ),
                                ),
                            },
                        )
                    },
                    None => Ok(
                        ProcessResult::msg_send(
                            "Incorrect format, expect number of hours".to_owned(),
                            UserState::ReadyToProcess,
                        ),
                    ),
                }
            },
            UserState::AtTimeMinute(sm) => {
                match parse_int_i32(data.input.as_str()) {
                    Some(mi) => minute_outcome(sm, mi, 0, data.uid, now, db),
                    None => Ok(
                        ProcessResult::msg_send(
                            "Incorrect format, expect number of minute".to_owned(),
                            UserState::ReadyToProcess,
                        ),
                    ),
                }
            },
            UserState::AtTimeText(stx) => {
                let synth = make_synth_command(
                    stx.day,
                    stx.month,
                    stx.year,
                    stx.hour,
                    stx.minute,
                    data.input.as_str(),
                );
                match process_text_command(data.uid, synth.as_str(), now, db) {
                    Some(reply) => Ok(
                        ProcessResult::msg_send(reply, UserState::ReadyToProcess),
                    ),
                    None => Err("expect time spec format".to_owned()),
                }
            },
            UserState::AfterInput(sa) => {
                proof {
                    reveal_strlit(" ");
                }
                let mut merged = String::new();
                merged.append(data.input.as_str());
                merged.append(" ");
                merged.append(sa.ev_text.as_str());
                proof {
                    assert(merged@ =~= data.input@ + seq![' '] + sa.ev_text@);
                }
                match process_text_command(data.uid, merged.as_str(), now, db) {
                    Some(reply) => {
                        let text = make_resulting_text(merged.as_str(), reply);
                        Ok(ProcessResult::msg_send(text, UserState::ReadyToProcess))
                    },
                    None => Err("Wrong `after` command format".to_owned()),
                }
            },
            UserState::RepDeleteChoose(rd) => {
                match parse_int_i32(data.input.as_str()) {
                    Some(nn) => {
                        if nn < 0 || nn as usize >= rd.list_id.len() {
                            Ok(
                                ProcessResult::msg_send(
                                    "Number is out of limit. Operation aborted.".to_owned(),
                                    UserState::ReadyToProcess,
                                ),
                            )
                        } else {
                            let _deleted = db.delete_rep_event(rd.list_id[nn as usize]);
                            Ok(
                                ProcessResult::msg_send(
                                    "Done.".to_owned(),
                                    UserState::ReadyToProcess,
                                ),
                            )
                        }
                    },
                    None => Ok(
                        ProcessResult::msg_send(
                            "You should write number. Operation aborted.".to_owned(),
                            UserState::ReadyToProcess,
                        ),
                    ),
                }
            },
        }
    }

    /// Handles a button event in the current dialog state.
    pub fn process_keyboard(&self, data: KeyboardEventData, now: i64, db: &mut DataBase) -> (r:
        Result<ProcessResult, String>)
        requires
            old(db).wf(),
            old(db).has_user(data.uid as int),
            -TIME_MAX <= now <= TIME_MAX,
        ensures
            final(db).wf(),
            final(db).user_rows() == old(db).user_rows(),
            spec_keyboard_step(
                *old(db),
                *final(db),
                *self,
                data.uid as int,
                data.msg_id as int,
                data.callback_data@,
                data.msg_text@,
                now as int,
                r,
            ),
    {
        match self {
            UserState::ReadyToProcess => {
                if str_starts_with(data.callback_data.as_str(), "at") {
                    let cmd = make_calendar_command(data.uid, Some(data.msg_id), db, now);
                    let cmd2 = make_calendar_command(data.uid, Some(data.msg_id), db, now);
                    Ok(
                        ProcessResult::single(
                            FrontendCommand::calendar(cmd),
                            Some(
                                UserState::AtCalendar(
                                    AtCalendar { command: cmd2, ev_text: Some(data.msg_text) },
                                ),
                            ),
                        ),
                    )
                } else if str_starts_with(data.callback_data.as_str(), "after") {
                    Ok(
                        ProcessResult::msg_send(
                            EXPECT_DURATION_MSG.to_owned(),
                            UserState::AfterInput(AfterInput { ev_text: data.msg_text }),
                        ),
                    )
                } else {
                    proof {
                        reveal_strlit(" ");
                    }
                    let mut merged = String::new();
                    merged.append(data.callback_data.as_str());
                    merged.append(" ");
                    merged.append(data.msg_text.as_str());
                    proof {
                        assert(merged@ =~= data.callback_data@ + seq![' '] + data.msg_text@);
                    }
                    match process_text_command(data.uid, merged.as_str(), now, db) {
                        Some(reply) => {
                            let text = make_resulting_text(merged.as_str(), reply);
                            Ok(ProcessResult::msg_send(text, UserState::ReadyToProcess))
                        },
                        None => Err("incorrect query data".to_owned()),
                    }
                }
            },
            UserState::AtCalendar(ac) => Ok(calendar_keyboard(ac, data, now)),
            UserState::AtTimeHour(sh) => {
                let cb = data.callback_data.as_str();
                proof {
                    reveal_strlit("time_hour:");
                }
                let parsed: Option<i32> = if str_starts_with(cb, "time_hour:") {
                    parse_int_i32(cb.substring_char(10, cb.unicode_len()))
                } else {
                    None
                };
                match parsed {
                    Some(h) => {
                        let prompt = make_minute_prompt(h);
                        let mut v: Vec<FrontendCommand> = Vec::new();
                        v.push(FrontendCommand::delete_message(data.msg_id));
                        v.push(
                            FrontendCommand::keyboard(
                                KeyboardCommand {
                                    action_type: KeyboardCommandType::Minute,
                                    text: prompt,
                                },
                            ),
                        );
                        Ok(
                            ProcessResult {
                                frontend_command: v,
                                next_state: Some(
                                    UserState::AtTimeMinute(
                                        AtTimeMinute {
                                            year: sh.year,
                                            month: sh.month,
                                            day: sh.day,
                                            hour: h,
                                            ev_text: match &sh.ev_text {
                                                Some(t) => Some(t.clone()),
                                                None => None,
                                            },
                                        },
                                    ),
                                ),
                            },
                        )
                    },
                    None => Ok(
                        ProcessResult::msg_send(
                            "Incorrect keyboard format".to_owned(),
                            UserState::ReadyToProcess,
                        ),
                    ),
                }
            },
            UserState::AtTimeMinute(sm) => {
                let cb = data.callback_data.as_str();
                proof {
                    reveal_strlit("time_minute:");
                }
                let parsed: Option<i32> = if str_starts_with(cb, "time_minute:") {
                    parse_int_i32(cb.substring_char(12, cb.unicode_len()))
                } else {
                    None
                };
                match parsed {
                    Some(mi) => minute_outcome(sm, mi, data.msg_id, data.uid, now, db),
                    None => Ok(
                        ProcessResult::msg_send(
                            "Incorrect keyboard format".to_owned(),
                            UserState::ReadyToProcess,
                        ),
                    ),
                }
            },
            UserState::AtTimeText(_) => Ok(
                ProcessResult { frontend_command: Vec::new(), next_state: None },
            ),
            UserState::AfterInput(_) => Err("expect not button, but text".to_owned()),
            UserState::RepDeleteChoose(_) => Ok(
                ProcessResult::msg_send(
                    "Internal logic failed".to_owned(),
                    UserState::ReadyToProcess,
                ),
            ),
        }
    }

    /// A short name for the current state.
    pub fn str(&self) -> (r: &'static str)
        ensures
            match self {
                UserState::ReadyToProcess => r@ == "ready_to_process"@,
                UserState::AtCalendar(_) => r@ == "at_calendar"@,
                UserState::AtTimeHour(_) => r@ == "at_time_hour"@,
                UserState::AtTimeMinute(_) => r@ == "at_time_minute"@,
                UserState::AtTimeText(_) => r@ == "at_time_text"@,
                UserState::AfterInput(_) => r@ == "after_input"@,
                UserState::RepDeleteChoose(_) => r@ == "rep_delete_choose"@,
            },
    {
        match self {
            UserState::ReadyToProcess => "ready_to_process",
            UserState::AtCalendar(_) => "at_calendar",
            UserState::AtTimeHour(_) => "at_time_hour",
            UserState::AtTimeMinute(_) => "at_time_minute",
            UserState::AtTimeText(_) => "at_time_text",
            UserState::AfterInput(_) => "after_input",
            UserState::RepDeleteChoose(_) => "rep_delete_choose",
        }
    }
}

/// The calendar's button handler: the store is never touched.
fn calendar_keyboard(ac: &AtCalendar, data: KeyboardEventData, now: i64) -> (r: ProcessResult)
    requires
        -TIME_MAX <= now <= TIME_MAX,
    ensures
        spec_calendar_keyboard(
            true,
            *ac,
            data.msg_id as int,
            data.callback_data@,
            now as int,
            Ok(r),
        ),
{
    let cb = data.callback_data.as_str();
    let is_next = str_eq(cb, "next-month");
    let is_prev = str_eq(cb, "previous-month");
    if is_next || is_prev {
        let m = ac.command.month;
        let y = ac.command.year;
        let (m2, y2): (i32, i32) = if is_next {
            if m >= 12 {
                (1, if y >= i32::MAX {
                    y
                } else {
                    y + 1
                })
            } else {
                (m + 1, y)
            }
        } else {
            if m <= 1 {
                (12, if y <= i32::MIN {
                    y
                } else {
                    y - 1
                })
            } else {
                (m - 1, y)
            }
        };
        let cmd = AtCalendarCommand {
            action_type: ac.command.action_type.clone(),
            year: y2,
            month: m2,
            tz: ac.command.tz,
            message: ac.command.message.clone(),
            msg_id: Some(data.msg_id),
        };
        let cmd2 = AtCalendarCommand {
            action_type: ac.command.action_type.clone(),
            year: y2,
            month: m2,
            tz: ac.command.tz,
            message: ac.command.message.clone(),
            msg_id: Some(data.msg_id),
        };
        return ProcessResult::single(
            FrontendCommand::calendar(cmd),
            Some(
                UserState::AtCalendar(
                    AtCalendar {
                        command: cmd2,
                        ev_text: match &ac.ev_text {
                            Some(t) => Some(t.clone()),
                            None => None,
                        },
                    },
                ),
            ),
        );
    }
    proof {
        reveal_strlit("calendar-day-");
    }
    let day_prefix = str_starts_with(cb, "calendar-day-");
    let parsed_day: Option<i32> = if day_prefix {
        parse_int_i32(cb.substring_char(13, cb.unicode_len()))
    } else {
        None
    };
    if let Some(day) = parsed_day {
        let mut v: Vec<FrontendCommand> = Vec::new();
        v.push(FrontendCommand::delete_message(data.msg_id));
        v.push(
            FrontendCommand::keyboard(
                KeyboardCommand {
                    action_type: KeyboardCommandType::Hour,
                    text: EXPECT_TIME_MSG.to_owned(),
                },
            ),
        );
        return ProcessResult {
            frontend_command: v,
            next_state: Some(
                UserState::AtTimeHour(
                    AtTimeHour {
                        year: ac.command.year,
                        month: ac.command.month,
                        day,
                        ev_text: match &ac.ev_text {
                            Some(t) => Some(t.clone()),
                            None => None,
                        },
                    },
                ),
            ),
        };
    }
    let is_today = str_eq(cb, "today");
    let is_tomorrow = str_eq(cb, "tomorrow");
    if is_today || is_tomorrow {
        let base = if is_today {
            now
        } else {
            now + 86400
        };
        let c = civil_from_timestamp(base);
        let mut v: Vec<FrontendCommand> = Vec::new();
        v.push(FrontendCommand::delete_message(data.msg_id));
        v.push(
            FrontendCommand::keyboard(
                KeyboardCommand {
                    action_type: KeyboardCommandType::Hour,
                    text: EXPECT_TIME_MSG.to_owned(),
                },
            ),
        );
        return ProcessResult {
            frontend_command: v,
            next_state: Some(
                UserState::AtTimeHour(
                    AtTimeHour {
                        year: c.year,
                        month: c.month as i32,
                        day: c.day as i32,
                        ev_text: match &ac.ev_text {
                            Some(t) => Some(t.clone()),
                            None => None,
                        },
                    },
                ),
            ),
        };
    }
    ProcessResult::single(
        FrontendCommand::delete_message(data.msg_id),
        Some(UserState::ReadyToProcess),
    )
}

} // verus!
