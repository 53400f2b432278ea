use chrono::Utc;
use remu_backend::command::{Command, OneTimeEventImpl, RepetitiveEventImpl};
use remu_backend::database::{DataBase, DbMode, RetrieveEventsResult, StoreError, UserInfo};

fn user(uid: i64, chat_id: i64, tz: i32) -> UserInfo<'static> {
    UserInfo { uid, name: "name", chat_id, first_name: "first", last_name: "last", tz }
}

fn one_time(text: &str, t: i64) -> Command {
    Command::OneTimeEvent(OneTimeEventImpl { event_text: String::from(text), event_time: t })
}

#[test]
fn add_user() {
    let mut db = DataBase::new(DbMode::InMemory);
    let info = UserInfo {
        uid: 1,
        name: "name",
        chat_id: 123,
        first_name: "first",
        last_name: "last",
        tz: -1,
    };
    assert!(db.add_user(info).is_ok());
    assert_eq!(db.get_user_timezone(1), -1);
    assert_eq!(db.get_user_chat_id_all(), vec!(123));

    let info = UserInfo {
        uid: 2,
        name: "name",
        chat_id: 1234,
        first_name: "first",
        last_name: "last",
        tz: -2,
    };
    assert!(db.add_user(info).is_ok());
    assert_eq!(db.get_user_timezone(2), -2);
    assert_eq!(db.get_user_chat_id_all(), vec!(123, 1234));
}

#[test]
fn put_one_time_event() {
    let mut db = DataBase::new(DbMode::InMemory);
    db.add_user(user(1, 123, -1)).unwrap();
    assert!(db.get_nearest_wakeup().is_none());

    // add event
    let event = one_time("test", 61);
    db.put(1, event, Utc::now().timestamp());
    let wake = db.get_nearest_wakeup();
    assert!(wake.is_some());
    assert_eq!(wake.unwrap(), 61);

    // pop event
    let events = db.extract_events_happens_already(61);
    assert!(db.get_nearest_wakeup().is_none());
    assert_eq!(events.len(), 1);
}

#[test]
fn get_multiple_events() {
    let mut db = DataBase::new(DbMode::InMemory);
    db.add_user(user(1, 123, -1)).unwrap();

    let event1 = one_time("test", 61);
    let event2 = one_time("test", 63);
    let event3 = one_time("test", 65);
    let now = Utc::now().timestamp();
    db.put(1, one_time("test", 61), now);
    db.put(1, one_time("test", 63), now);
    db.put(1, one_time("test", 65), now);

    let expect = vec![
        RetrieveEventsResult { command: event1, uid: 1 },
        RetrieveEventsResult { command: event2, uid: 1 },
    ];
    let _ = event3;

    let events = db.extract_events_happens_already(64);
    assert_eq!(events, expect);
}

#[test]
fn extract_is_one_shot() {
    // a due set is returned only once; the second call finds nothing
    let mut db = DataBase::new(DbMode::InMemory);
    db.add_user(user(1, 123, 0)).unwrap();
    db.put(1, one_time("a", 10), 0);
    db.put(1, one_time("b", 20), 0);

    let first = db.extract_events_happens_already(25);
    assert_eq!(first.len(), 2);
    let second = db.extract_events_happens_already(25);
    assert_eq!(second.len(), 0);
}

#[test]
fn repeating_event_rearms() {
    // one armed event per template at all times, always at the next
    // occurrence at or after the extraction instant
    let mut db = DataBase::new(DbMode::InMemory);
    db.add_user(user(1, 123, 0)).unwrap();
    let rep = Command::RepetitiveEvent(RepetitiveEventImpl {
        event_start_time: 0,
        event_wait_time: 60,
        event_text: String::from("tick"),
    });
    assert!(db.put(1, rep, 100));
    // first occurrence at or after 100 on the 60-second grid is 120
    assert_eq!(db.get_nearest_wakeup(), Some(120));

    let out = db.extract_events_happens_already(130);
    assert_eq!(out.len(), 1);
    match &out[0].command {
        Command::OneTimeEvent(o) => {
            assert_eq!(o.event_text, "tick");
            assert_eq!(o.event_time, 120);
        }
        _ => panic!("Wrong command type"),
    }
    // re-armed at the next occurrence at or after 130
    assert_eq!(db.get_nearest_wakeup(), Some(180));

    // spanning several intervals at once still leaves exactly one armed event
    let out = db.extract_events_happens_already(250);
    assert_eq!(out.len(), 1);
    assert_eq!(db.get_nearest_wakeup(), Some(300));
}

#[test]
fn nonpositive_interval_clamped() {
    // a repeating interval below one second is stored as one second
    let mut db = DataBase::new(DbMode::InMemory);
    db.add_user(user(1, 123, 0)).unwrap();
    let rep = Command::RepetitiveEvent(RepetitiveEventImpl {
        event_start_time: 50,
        event_wait_time: 0,
        event_text: String::from("fast"),
    });
    assert!(db.put(1, rep, 60));
    assert_eq!(db.get_nearest_wakeup(), Some(60));
    let out = db.extract_events_happens_already(60);
    assert_eq!(out.len(), 1);
    assert_eq!(db.get_nearest_wakeup(), Some(60));
}

#[test]
fn nearest_wakeup_is_minimum() {
    let mut db = DataBase::new(DbMode::InMemory);
    db.add_user(user(1, 123, 0)).unwrap();
    db.put(1, one_time("late", 65), 0);
    db.put(1, one_time("early", 61), 0);
    assert_eq!(db.get_nearest_wakeup(), Some(61));
    let out = db.extract_events_happens_already(100);
    assert_eq!(out.len(), 2);
    assert_eq!(out[0].uid, 1);
    assert!(db.get_nearest_wakeup().is_none());
}

#[test]
fn delete_rep_event_cascades() {
    let mut db = DataBase::new(DbMode::InMemory);
    db.add_user(user(1, 123, 0)).unwrap();
    let rep = Command::RepetitiveEvent(RepetitiveEventImpl {
        event_start_time: 100,
        event_wait_time: 60,
        event_text: String::from("gone"),
    });
    assert!(db.put(1, rep, 0));
    let (texts, ids) = {
        let pairs = db.get_all_rep_events(1);
        assert_eq!(pairs.len(), 1);
        (pairs.len(), pairs[0].1)
    };
    let _ = texts;
    assert!(db.get_nearest_wakeup().is_some());
    assert!(db.delete_rep_event(ids));
    assert!(db.get_nearest_wakeup().is_none());
    assert_eq!(db.get_all_rep_events(1).len(), 0);
}

#[test]
fn duplicate_user_rejected() {
    let mut db = DataBase::new(DbMode::InMemory);
    assert!(db.add_user(user(1, 123, 0)).is_ok());
    assert_eq!(db.add_user(user(1, 124, 0)), Err(StoreError::DuplicateUser));
}

#[test]
fn absurd_timezone_rejected() {
    let mut db = DataBase::new(DbMode::InMemory);
    assert_eq!(db.add_user(user(1, 123, 5000)), Err(StoreError::InvalidTimezone));
}

#[test]
fn unknown_user_put_fails() {
    let mut db = DataBase::new(DbMode::InMemory);
    assert!(!db.put(7, one_time("x", 10), 0));
}

#[test]
fn listing_is_capped_and_sorted() {
    let mut db = DataBase::new(DbMode::InMemory);
    db.add_user(user(1, 123, 0)).unwrap();
    let mut t = 25i64;
    for _ in 0..25 {
        db.put(1, one_time("e", t), 0);
        t -= 1;
    }
    let listed = db.get_all_active_events(1);
    assert_eq!(listed.len(), 20);
    match (&listed[0], &listed[19]) {
        (Command::OneTimeEvent(a), Command::OneTimeEvent(b)) => {
            assert_eq!(a.event_time, 1);
            assert_eq!(b.event_time, 20);
        }
        _ => panic!("Wrong command type"),
    }
}
