use chrono::TimeZone;
use chrono::{Datelike, Utc};
use remu_backend::command::{parse_command, try_parse_at, try_parse_for, try_parse_rep, Command};
use remu_backend::command::Command::{OneTimeEvent, RepetitiveEvent};

fn time_moment_eq(t1: i64, t2: i64) -> bool {
    (t1 - t2).abs() < 1
}

#[test]
fn parse_for_general() {
    let command = String::from("1d2h3m4s");
    let text = "some text";
    let command_text = command + " " + text;
    let dt: i64 = 86400 + 2 * 3600 + 3 * 60 + 4;
    let now = Utc::now().timestamp();
    let result = try_parse_for(&command_text, now);
    assert!(result.is_some());
    match result.unwrap() {
        OneTimeEvent(res) => {
            assert_eq!(res.event_text, text);
            assert!(time_moment_eq(res.event_time, now + dt));
        }
        _ => panic!("Wrong command type"),
    };
}

#[test]
fn parse_for_hm() {
    let command = String::from("2h30m");
    let text = "some text";
    let command_text = command + " " + text;
    let dt: i64 = 2 * 3600 + 30 * 60;
    let now = Utc::now().timestamp();
    let result = try_parse_for(&command_text, now);
    assert!(result.is_some());
    match result.unwrap() {
        OneTimeEvent(res) => {
            assert_eq!(res.event_text, text);
            assert!(time_moment_eq(res.event_time, now + dt));
        }
        _ => panic!("Wrong command type"),
    };
}

#[test]
fn parse_for_negative() {
    let command = String::from("1d-2h3m4s");
    let text = "some text";
    let command_text = command + " " + text;
    let result = try_parse_for(&command_text, Utc::now().timestamp());
    assert!(result.is_none());
}

#[test]
fn parse_for_misspell() {
    let command = String::from("1d2j3m4s");
    let text = "some text";
    let command_text = command + " " + text;
    let result = try_parse_for(&command_text, Utc::now().timestamp());
    assert!(result.is_none());
}

#[test]
fn parse_at_tests() {
    let now = Utc.with_ymd_and_hms(2024, 10, 24, 12, 0, 0).unwrap();
    {
        let command = String::from("24-10 at 18.30");
        let text = "some text";
        let command_text = command + " " + text;
        let t = Utc
            .with_ymd_and_hms(now.year(), 10, 24, 18 - 3, 30, 0)
            .unwrap();
        let result = try_parse_at(&command_text, now.timestamp(), -3);
        assert!(result.is_some());
        match result.unwrap() {
            OneTimeEvent(res) => {
                assert_eq!(res.event_text, text);
                assert_eq!(res.event_time, t.timestamp());
            }
            _ => panic!("Wrong command type"),
        };
    }

    {
        let now = Utc.timestamp_opt(61, 0).unwrap();
        let command = String::from("24 at 18.30");
        let text = "some text";
        let command_text = command + " " + text;
        let t = Utc
            .with_ymd_and_hms(now.year(), now.month(), 24, 18 - 3, 30, 0)
            .unwrap();

        let result = try_parse_at(&command_text, now.timestamp(), -3);
        assert!(result.is_some());
        match result.unwrap() {
            OneTimeEvent(res) => {
                assert_eq!(res.event_text, text);
                assert_eq!(res.event_time, t.timestamp());
            }
            _ => panic!("Wrong command type"),
        };
    }
    {
        let command = String::from("at 18.30");
        let text = "some text";
        let command_text = command + " " + text;
        let t = Utc
            .with_ymd_and_hms(now.year(), now.month(), now.day(), 18, 30, 0)
            .unwrap();

        let result = try_parse_at(&command_text, now.timestamp(), 0);
        assert!(result.is_some());
        match result.unwrap() {
            OneTimeEvent(res) => {
                assert_eq!(res.event_text, text);
                assert_eq!(res.event_time, t.timestamp());
            }
            _ => panic!("Wrong command type"),
        };
    }
    {
        let command = String::from("at 18");
        let text = "some text";
        let command_text = command + " " + text;
        let t = Utc
            .with_ymd_and_hms(now.year(), now.month(), now.day(), 18, 0, 0)
            .unwrap();

        let result = try_parse_at(&command_text, now.timestamp(), 0);
        assert!(result.is_some());
        match result.unwrap() {
            OneTimeEvent(res) => {
                assert_eq!(res.event_text, text);
                assert_eq!(res.event_time, t.timestamp());
            }
            _ => panic!("Wrong command type"),
        };
    }
}

#[test]
fn parse_wrong_at_tests() {
    {
        let command = String::from("30-02 at 18");
        let text = "some text";
        let command_text = command + " " + text;

        let result = try_parse_at(&command_text, Utc::now().timestamp(), -3);
        assert!(result.is_none());
    }
    {
        let command = String::from("30-20 at 18");
        let text = "some text";
        let command_text = command + " " + text;

        let result = try_parse_at(&command_text, Utc::now().timestamp(), -3);
        assert!(result.is_none());
    }
    {
        let command = String::from("at 25");
        let text = "some text";
        let command_text = command + " " + text;

        let result = try_parse_at(&command_text, Utc::now().timestamp(), -3);
        assert!(result.is_none());
    }
    {
        let command = String::from("at 23.60");
        let text = "some text";
        let command_text = command + " " + text;

        let result = try_parse_at(&command_text, Utc::now().timestamp(), -3);
        assert!(result.is_none());
    }
}

#[test]
fn parse_rep_general() {
    let command = String::from("rep 06-10 10.00 5m");
    let text = "test rep";
    let command_text = command + " " + text;
    let now = Utc::now();
    let t = Utc
        .with_ymd_and_hms(now.year(), 10, 6, 10 - 3, 0, 0)
        .unwrap();
    let dt: i64 = 5 * 60;
    let result = try_parse_rep(&command_text, now.timestamp(), -3);
    assert!(result.is_some());
    match result.unwrap() {
        RepetitiveEvent(res) => {
            assert_eq!(res.event_start_time, t.timestamp());
            assert_eq!(res.event_wait_time, dt);
            assert_eq!(res.event_text, text);
        }
        _ => panic!("Wrong command type"),
    };
}

#[test]
fn parse_precedence_duration_wins() {
    // a line that fits the duration form never reaches the other forms
    let now: i64 = 1000;
    let r = parse_command("5m at 7 x".to_string(), now, 0);
    match r {
        Some(Command::OneTimeEvent(o)) => {
            assert_eq!(o.event_time, now + 300);
            assert_eq!(o.event_text, "at 7 x");
        }
        _ => panic!("Wrong command type"),
    }
}

#[test]
fn parse_trims_surrounding_whitespace() {
    let now: i64 = 1000;
    let r = parse_command("  10s coffee  ".to_string(), now, 0);
    match r {
        Some(Command::OneTimeEvent(o)) => {
            assert_eq!(o.event_time, now + 10);
            assert_eq!(o.event_text, "coffee");
        }
        _ => panic!("Wrong command type"),
    }
}

#[test]
fn parse_zero_duration_fails() {
    assert!(parse_command("0s nothing".to_string(), 1000, 0).is_none());
    assert!(parse_command("garbage".to_string(), 1000, 0).is_none());
    assert!(parse_command("".to_string(), 1000, 0).is_none());
}

#[test]
fn parse_rep_without_date() {
    // the moment's date defaults to the current local day
    let now = Utc.with_ymd_and_hms(2024, 3, 5, 8, 0, 0).unwrap().timestamp();
    let r = try_parse_rep("rep 10.30 1h water", now, 0);
    match r {
        Some(Command::RepetitiveEvent(res)) => {
            let t = Utc.with_ymd_and_hms(2024, 3, 5, 10, 30, 0).unwrap().timestamp();
            assert_eq!(res.event_start_time, t);
            assert_eq!(res.event_wait_time, 3600);
            assert_eq!(res.event_text, "water");
        }
        _ => panic!("Wrong command type"),
    }
}

#[test]
fn parse_at_full_date() {
    // year, month and day given explicitly, interpreted in the user's offset
    let now: i64 = 61;
    let r = try_parse_at("24-10-2024 at 18.30 x", now, 0);
    let t = Utc.with_ymd_and_hms(2024, 10, 24, 18, 30, 0).unwrap().timestamp();
    match r {
        Some(Command::OneTimeEvent(o)) => {
            assert_eq!(o.event_time, t);
            assert_eq!(o.event_text, "x");
        }
        _ => panic!("Wrong command type"),
    }
}
