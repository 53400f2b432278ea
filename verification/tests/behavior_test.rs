use remu_backend::database::{DataBase, DbMode, UserInfo};
use remu_backend::engine::{Engine, ProcessResult};
use remu_backend::helpers::format_return_message_header;
use remu_backend::state::{
    AtCalendar, AtCalendarCommand, FrontendCommand, KeyboardCommandType, KeyboardEventData,
    UserState,
};
use remu_backend::time::{MockClock, OsClock};

fn engine_with_user() -> Engine {
    let mut engine = Engine::new(DbMode::InMemory);
    engine.add_user(1, "name", 123, "first", "last", -3).unwrap();
    engine
}

fn only_send_text(cmds: &Vec<FrontendCommand>) -> String {
    assert_eq!(cmds.len(), 1);
    match &cmds[0] {
        FrontendCommand::send(sc) => sc.text.clone(),
        other => panic!("expected a send command, got {:?}", other),
    }
}

#[test]
fn header_formats_today_tomorrow_and_date() {
    assert_eq!(format_return_message_header(61, 60, -3), "I'll remind you today at 03:01");
    assert_eq!(
        format_return_message_header(90061, 60, -3),
        "I'll remind you tomorrow at 04:01"
    );
    assert_eq!(
        format_return_message_header(543600, 60, -3),
        "I'll remind you January  7 at 10:00"
    );
    assert_eq!(format_return_message_header(10, 60, -3), "Event time is in the past. Is it right?");
}

#[test]
fn delete_rep_dialog_flow() {
    let mut engine = engine_with_user();

    // no repeating events yet
    let out = engine.handle_text_message(1, "/delete_rep", 60).unwrap();
    assert_eq!(only_send_text(&out), "No current rep event");

    // create one repeating event
    let out = engine.handle_text_message(1, "rep 5-1-2030 10.00 2h plants", 60).unwrap();
    assert_eq!(out.len(), 1);

    // now the listing appears, numbered from zero
    let out = engine.handle_text_message(1, "/delete_rep", 60).unwrap();
    assert_eq!(
        only_send_text(&out),
        "Here is your repeating events list. Choose which to delete:\n0) plants"
    );

    // an out-of-range index aborts without deleting
    let out = engine.handle_text_message(1, "5", 60).unwrap();
    assert_eq!(only_send_text(&out), "Number is out of limit. Operation aborted.");
    let out = engine.handle_text_message(1, "/delete_rep", 60).unwrap();
    assert_eq!(
        only_send_text(&out),
        "Here is your repeating events list. Choose which to delete:\n0) plants"
    );

    // a non-numeric reply aborts as well
    let out = engine.handle_text_message(1, "soon", 60).unwrap();
    assert_eq!(only_send_text(&out), "You should write number. Operation aborted.");

    // a valid index deletes the event
    let out = engine.handle_text_message(1, "/delete_rep", 60).unwrap();
    assert!(only_send_text(&out).starts_with("Here is your repeating events list"));
    let out = engine.handle_text_message(1, "0", 60).unwrap();
    assert_eq!(only_send_text(&out), "Done.");
    let out = engine.handle_text_message(1, "/delete_rep", 60).unwrap();
    assert_eq!(only_send_text(&out), "No current rep event");
}

#[test]
fn unknown_command_is_an_error() {
    let mut engine = engine_with_user();
    let out = engine.handle_text_message(1, "/frobnicate", 60);
    assert_eq!(out, Err("Unknown command: /frobnicate".to_string()));
}

#[test]
fn unregistered_user_is_an_error() {
    let mut engine = Engine::new(DbMode::InMemory);
    let out = engine.handle_text_message(7, "1s x", 60);
    assert_eq!(out, Err("no /start command was processed".to_string()));
}

#[test]
fn month_wraps_at_year_boundary() {
    let mut db = DataBase::new(DbMode::InMemory);
    db.add_user(UserInfo { uid: 1, name: "n", chat_id: 1, first_name: "", last_name: "", tz: 0 })
        .unwrap();
    let st = UserState::AtCalendar(AtCalendar {
        command: AtCalendarCommand {
            action_type: "calendar".to_string(),
            year: 1970,
            month: 12,
            tz: 0,
            message: "Ok, now choose date".to_string(),
            msg_id: None,
        },
        ev_text: None,
    });
    let data = KeyboardEventData {
        uid: 1,
        msg_id: 9,
        callback_data: "next-month".to_string(),
        msg_text: String::new(),
    };
    let ProcessResult { frontend_command, next_state } =
        st.process_keyboard(data, 60, &mut db).unwrap();
    assert_eq!(frontend_command.len(), 1);
    match &frontend_command[0] {
        FrontendCommand::calendar(cc) => {
            assert_eq!(cc.month, 1);
            assert_eq!(cc.year, 1971);
        }
        other => panic!("expected a calendar command, got {:?}", other),
    }
    assert!(next_state.is_some());

    let back = KeyboardEventData {
        uid: 1,
        msg_id: 9,
        callback_data: "previous-month".to_string(),
        msg_text: String::new(),
    };
    let st = UserState::AtCalendar(AtCalendar {
        command: AtCalendarCommand {
            action_type: "calendar".to_string(),
            year: 1971,
            month: 1,
            tz: 0,
            message: "Ok, now choose date".to_string(),
            msg_id: None,
        },
        ev_text: None,
    });
    let ProcessResult { frontend_command, .. } = st.process_keyboard(back, 60, &mut db).unwrap();
    match &frontend_command[0] {
        FrontendCommand::calendar(cc) => {
            assert_eq!(cc.month, 12);
            assert_eq!(cc.year, 1970);
        }
        other => panic!("expected a calendar command, got {:?}", other),
    }
}

#[test]
fn keyboard_intercepts() {
    let mut engine = engine_with_user();
    let out = engine.handle_keyboard_responce(1, 42, "ignore", "x", 60);
    assert_eq!(
        out,
        vec![FrontendCommand::delete_message(42), FrontendCommand::delete_keyboard(42)]
    );
    let out = engine.handle_keyboard_responce(1, 43, "Ok", "x", 60);
    assert_eq!(out, vec![FrontendCommand::delete_keyboard(43)]);
}

#[test]
fn stale_text_button_is_swallowed() {
    let mut engine = engine_with_user();
    // reach the state that waits for the event body
    engine.handle_text_message(1, "/at", 60).unwrap();
    engine.handle_keyboard_responce(1, 5, "today", "d", 60);
    engine.handle_keyboard_responce(1, 6, "time_hour:10", "h", 60);
    engine.handle_keyboard_responce(1, 7, "time_minute:00", "m", 60);
    // a stray button press while the body is awaited only clears its keyboard
    let out = engine.handle_keyboard_responce(1, 8, "calendar-day-3", "stale", 60);
    assert_eq!(out, vec![FrontendCommand::delete_keyboard(8)]);
    // the typed body still completes the flow
    let out = engine.handle_text_message(1, "body", 60).unwrap();
    assert_eq!(only_send_text(&out), "I'll remind you today at 10:00\nbody");
}

#[test]
fn wakeup_bound_and_clock() {
    let mut engine = engine_with_user();
    assert_eq!(engine.get_time_until_next_wakeup(60), 60);
    engine.handle_text_message(1, "30s x", 60).unwrap();
    assert_eq!(engine.get_time_until_next_wakeup(60), 30);
    assert_eq!(engine.get_time_until_next_wakeup(100), 0);

    let mut clock = MockClock::new(60);
    assert_eq!(clock.now(), 60);
    clock.advance(40);
    assert_eq!(clock.now(), 100);
    clock.set_time(5);
    assert_eq!(clock.now(), 5);
    assert!(OsClock::new().now() >= 0);

    assert!(!engine.is_stop());
    engine.stop();
    assert!(engine.is_stop());
}

#[test]
fn keyboard_shortcut_merges_callback_and_text() {
    let mut engine = engine_with_user();
    let out = engine.handle_keyboard_responce(1, 11, "30m", "call home", 60);
    assert_eq!(out.len(), 2);
    match &out[0] {
        FrontendCommand::send(sc) => assert_eq!(
            sc.text,
            "Resulting command:\n30m call home\nI'll remind you today at 03:31\ncall home"
        ),
        other => panic!("expected a send command, got {:?}", other),
    }
    assert_eq!(out[1], FrontendCommand::delete_keyboard(11));
}

#[test]
fn help_texts_answer() {
    let mut engine = engine_with_user();
    let out = engine.handle_text_message(1, "/help", 60).unwrap();
    assert!(only_send_text(&out).contains("/delete_rep"));
    let out = engine.handle_text_message(1, "/help more", 60).unwrap();
    assert!(only_send_text(&out).contains("Duration units"));
}

#[test]
fn list_when_empty() {
    let mut engine = engine_with_user();
    let out = engine.handle_text_message(1, "/list", 60).unwrap();
    assert_eq!(only_send_text(&out), "No current active event");
}

#[test]
fn long_texts_are_truncated_in_listings() {
    let mut engine = engine_with_user();
    let long = "x".repeat(60);
    let msg = format!("5m {}", long);
    engine.handle_text_message(1, &msg, 60).unwrap();
    let out = engine.handle_text_message(1, "/list", 60).unwrap();
    let text = only_send_text(&out);
    assert!(text.starts_with(&format!("1) {}", "x".repeat(40))));
    assert!(!text.contains(&"x".repeat(41)));
}
