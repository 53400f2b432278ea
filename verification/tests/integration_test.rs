use remu_backend::database::DbMode;
use remu_backend::engine::{CmdFromEngine, CmdToEngine, Engine};
use remu_backend::state::{
    AtCalendarCommand, FrontendCommand, KeyboardCommand, KeyboardCommandType, SendMessageCommand,
};

enum Step {
    Send(CmdToEngine),
    Expect(CmdFromEngine),
    TimeAdvance(i64),
}

struct TestCase {
    steps: Vec<Step>,
}

fn text_msg(uid: i64, msg_id: i64, message: &str) -> CmdToEngine {
    CmdToEngine::TextMessage { uid, msg_id, message: message.to_string() }
}

fn key_msg(uid: i64, msg_id: i64, call_data: &str, msg_text: &str) -> CmdToEngine {
    CmdToEngine::KeyboardMessage {
        uid,
        msg_id,
        call_data: call_data.to_string(),
        msg_text: msg_text.to_string(),
    }
}

fn send_cmd(text: &str) -> FrontendCommand {
    FrontendCommand::send(SendMessageCommand { text: text.to_string() })
}

fn main_keyboard(text: &str) -> FrontendCommand {
    FrontendCommand::keyboard(KeyboardCommand {
        action_type: KeyboardCommandType::Main,
        text: text.to_string(),
    })
}

fn hour_keyboard() -> FrontendCommand {
    FrontendCommand::keyboard(KeyboardCommand {
        action_type: KeyboardCommandType::Hour,
        text: "Ok, now write the time of event".to_string(),
    })
}

fn minute_keyboard(hour: i32) -> FrontendCommand {
    FrontendCommand::keyboard(KeyboardCommand {
        action_type: KeyboardCommandType::Minute,
        text: format!("Ok, {}. Now choose minute", hour),
    })
}

fn calendar_cmd(year: i32, month: i32, tz: i32, msg_id: Option<i32>) -> FrontendCommand {
    FrontendCommand::calendar(AtCalendarCommand {
        action_type: "calendar".to_string(),
        year,
        month,
        tz,
        message: "Ok, now choose date".to_string(),
        msg_id,
    })
}

fn reply(uid: i64, to_msg: i64, cmd_vec: Vec<FrontendCommand>) -> CmdFromEngine {
    CmdFromEngine { uid, to_msg: Some(to_msg), cmd_vec }
}

fn notification(uid: i64, cmd_vec: Vec<FrontendCommand>) -> CmdFromEngine {
    CmdFromEngine { uid, to_msg: None, cmd_vec }
}

impl TestCase {
    fn create() -> TestCase {
        let mut case = TestCase { steps: Vec::new() };
        case.send(CmdToEngine::AddUser {
            uid: 1,
            username: "test_username".to_string(),
            chat_id: 123,
            first_name: "First".to_string(),
            last_name: "Last".to_string(),
            tz: -3,
        });
        case
    }

    fn send(&mut self, cmd: CmdToEngine) {
        self.steps.push(Step::Send(cmd));
    }

    fn expect(&mut self, out: CmdFromEngine) {
        self.steps.push(Step::Expect(out));
    }

    fn advance_time(&mut self, seconds: i64) {
        self.steps.push(Step::TimeAdvance(seconds));
    }

    fn run(&self) {
        let mut engine = Engine::new(DbMode::InMemory);
        let mut clock: i64 = 60;
        let mut pending: Vec<CmdFromEngine> = Vec::new();
        for step in &self.steps {
            match step {
                Step::Send(cmd) => {
                    match cmd {
                        CmdToEngine::AddUser { uid, username, chat_id, first_name, last_name, tz } => {
                            let added = engine.add_user(
                                *uid, username, *chat_id, first_name, last_name, *tz,
                            );
                            assert!(added.is_ok());
                        }
                        CmdToEngine::TextMessage { uid, msg_id, message } => {
                            let out = match engine.handle_text_message(*uid, message, clock) {
                                Ok(cmds) => cmds,
                                Err(e) => vec![FrontendCommand::send(SendMessageCommand {
                                    text: e,
                                })],
                            };
                            pending.push(CmdFromEngine {
                                uid: *uid,
                                to_msg: Some(*msg_id),
                                cmd_vec: out,
                            });
                        }
                        CmdToEngine::KeyboardMessage { uid, msg_id, call_data, msg_text } => {
                            let out = engine.handle_keyboard_responce(
                                *uid,
                                *msg_id as i32,
                                call_data,
                                msg_text,
                                clock,
                            );
                            pending.push(CmdFromEngine {
                                uid: *uid,
                                to_msg: Some(*msg_id),
                                cmd_vec: out,
                            });
                        }
                        CmdToEngine::AdvanceTime(s) => {
                            clock += s;
                        }
                        CmdToEngine::Terminate => {}
                    }
                    for n in engine.tick(clock) {
                        pending.push(n);
                    }
                }
                Step::TimeAdvance(s) => {
                    clock += s;
                    for n in engine.tick(clock) {
                        pending.push(n);
                    }
                }
                Step::Expect(exp) => {
                    assert!(!pending.is_empty(), "expected an engine reply, got none");
                    let got = pending.remove(0);
                    assert_eq!(&got, exp);
                }
            }
        }
    }
}

#[test]
fn simple_message() {
    let mut case = TestCase::create();
    case.send(text_msg(1, 2774, "1s test"));
    case.expect(reply(1, 2774, vec![send_cmd("I'll remind you today at 03:01\ntest")]));
    case.advance_time(1);
    case.expect(notification(1, vec![main_keyboard("test")]));
    case.send(key_msg(1, 2782, "Ok", "test"));
    case.expect(reply(1, 2782, vec![FrontendCommand::delete_keyboard(2782)]));

    case.run();
}

#[test]
fn simple_message_day_command() {
    let mut case = TestCase::create();
    case.send(text_msg(1, 2774, "1d1h1s test"));
    case.expect(reply(1, 2774, vec![send_cmd("I'll remind you tomorrow at 04:01\ntest")]));
    case.advance_time(25 * 60 * 60 + 1);
    case.expect(notification(1, vec![main_keyboard("test")]));
    case.send(key_msg(1, 2782, "Ok", "test"));
    case.expect(reply(1, 2782, vec![FrontendCommand::delete_keyboard(2782)]));

    case.run();
}

#[test]
fn simple_message_and_after_button() {
    let mut case = TestCase::create();
    case.send(text_msg(1, 2774, "1s test"));
    case.expect(reply(1, 2774, vec![send_cmd("I'll remind you today at 03:01\ntest")]));
    case.advance_time(1);
    case.expect(notification(1, vec![main_keyboard("test")]));
    case.send(key_msg(1, 2785, "after", "test"));
    case.expect(reply(
        1,
        2785,
        vec![send_cmd("Ok, now write time duration."), FrontendCommand::delete_keyboard(2785)],
    ));
    case.send(text_msg(1, 2787, "1m"));
    case.expect(reply(
        1,
        2787,
        vec![send_cmd("Resulting command:\n1m test\nI'll remind you today at 03:02\ntest")],
    ));
    case.advance_time(60);
    case.expect(notification(1, vec![main_keyboard("test")]));
    case.send(key_msg(1, 2782, "Ok", "test"));
    case.expect(reply(1, 2782, vec![FrontendCommand::delete_keyboard(2782)]));

    case.run();
}

#[test]
fn simple_message_and_after_5m_button() {
    let mut case = TestCase::create();
    case.send(text_msg(1, 2774, "1s test"));
    case.expect(reply(1, 2774, vec![send_cmd("I'll remind you today at 03:01\ntest")]));
    case.advance_time(1);
    case.expect(notification(1, vec![main_keyboard("test")]));
    case.send(key_msg(1, 2792, "5m", "test"));
    case.expect(reply(
        1,
        2792,
        vec![
            send_cmd("Resulting command:\n5m test\nI'll remind you today at 03:06\ntest"),
            FrontendCommand::delete_keyboard(2792),
        ],
    ));
    case.advance_time(5 * 60);
    case.expect(notification(1, vec![main_keyboard("test")]));
    case.send(key_msg(1, 2794, "Ok", "test"));
    case.expect(reply(1, 2794, vec![FrontendCommand::delete_keyboard(2794)]));

    case.run();
}

#[test]
fn simple_message_and_at_button() {
    let mut case = TestCase::create();
    case.send(text_msg(1, 2774, "1s test"));
    case.expect(reply(1, 2774, vec![send_cmd("I'll remind you today at 03:01\ntest")]));
    case.advance_time(1);
    case.expect(notification(1, vec![main_keyboard("test")]));
    case.send(key_msg(1, 2796, "at", "test"));
    case.expect(reply(
        1,
        2796,
        vec![calendar_cmd(1970, 1, -3, Some(2796)), FrontendCommand::delete_keyboard(2796)],
    ));

    case.send(key_msg(1, 2796, "calendar-day-2", "Please, choose a date"));
    case.expect(reply(
        1,
        2796,
        vec![
            FrontendCommand::delete_message(2796),
            hour_keyboard(),
            FrontendCommand::delete_keyboard(2796),
        ],
    ));
    case.send(key_msg(1, 2797, "time_hour:10", "Please, choose hour"));
    case.expect(reply(
        1,
        2797,
        vec![
            FrontendCommand::delete_message(2797),
            minute_keyboard(10),
            FrontendCommand::delete_keyboard(2797),
        ],
    ));
    case.send(key_msg(1, 2798, "time_minute:00", "Ok, 10. Now choose minute"));
    case.expect(reply(
        1,
        2798,
        vec![
            send_cmd("I'll remind you tomorrow at 10:00\ntest"),
            FrontendCommand::delete_keyboard(2798),
        ],
    ));

    case.advance_time(35 * 60 * 60);
    case.expect(notification(1, vec![main_keyboard("test")]));
    case.send(key_msg(1, 2894, "Ok", "test"));
    case.expect(reply(1, 2894, vec![FrontendCommand::delete_keyboard(2894)]));

    case.run();
}

#[test]
fn active_event_list() {
    let mut case = TestCase::create();
    case.send(text_msg(1, 2774, "5s test"));
    case.expect(reply(1, 2774, vec![send_cmd("I'll remind you today at 03:01\ntest")]));
    case.advance_time(1);

    case.send(text_msg(1, 2776, "5s test2"));
    case.expect(reply(1, 2776, vec![send_cmd("I'll remind you today at 03:01\ntest2")]));
    case.advance_time(1);

    case.send(text_msg(1, 2800, "/list"));
    case.expect(reply(
        1,
        2800,
        vec![send_cmd("1) test : _ 1 Jan  3.01_\n2) test2 : _ 1 Jan  3.01_\n")],
    ));

    case.run();
}

#[test]
fn at_some_day() {
    let mut case = TestCase::create();

    case.send(text_msg(1, 2802, "/at"));
    case.expect(reply(1, 2802, vec![calendar_cmd(1970, 1, -3, None)]));

    case.send(key_msg(1, 2803, "calendar-day-7", "Please, choose a date"));
    case.expect(reply(
        1,
        2803,
        vec![
            FrontendCommand::delete_message(2803),
            hour_keyboard(),
            FrontendCommand::delete_keyboard(2803),
        ],
    ));

    case.send(key_msg(1, 2804, "time_hour:10", "Please, choose hour"));
    case.expect(reply(
        1,
        2804,
        vec![
            FrontendCommand::delete_message(2804),
            minute_keyboard(10),
            FrontendCommand::delete_keyboard(2804),
        ],
    ));

    case.send(key_msg(1, 2805, "time_minute:00", "Ok, 10. Now choose minute"));
    case.expect(reply(
        1,
        2805,
        vec![
            FrontendCommand::delete_message(2805),
            send_cmd("Now write event message"),
            FrontendCommand::delete_keyboard(2805),
        ],
    ));
    case.send(text_msg(1, 2832, "test message"));
    case.expect(reply(1, 2832, vec![send_cmd("I'll remind you January  7 at 10:00\ntest message")]));

    case.run();
}

#[test]
fn at_next_mounth() {
    let mut case = TestCase::create();

    case.send(text_msg(1, 2802, "/at"));
    case.expect(reply(1, 2802, vec![calendar_cmd(1970, 1, -3, None)]));

    case.send(key_msg(1, 2803, "next-month", "Please, choose a date"));
    case.expect(reply(
        1,
        2803,
        vec![calendar_cmd(1970, 2, -3, Some(2803)), FrontendCommand::delete_keyboard(2803)],
    ));

    case.send(key_msg(1, 2803, "next-month", "Please, choose a date"));
    case.expect(reply(
        1,
        2803,
        vec![calendar_cmd(1970, 3, -3, Some(2803)), FrontendCommand::delete_keyboard(2803)],
    ));

    case.send(key_msg(1, 2803, "previous-month", "Please, choose a date"));
    case.expect(reply(
        1,
        2803,
        vec![calendar_cmd(1970, 2, -3, Some(2803)), FrontendCommand::delete_keyboard(2803)],
    ));

    case.send(key_msg(1, 2803, "calendar-day-1", "Please, choose a date"));
    case.expect(reply(
        1,
        2803,
        vec![
            FrontendCommand::delete_message(2803),
            hour_keyboard(),
            FrontendCommand::delete_keyboard(2803),
        ],
    ));

    case.send(key_msg(1, 2804, "time_hour:10", "Please, choose hour"));
    case.expect(reply(
        1,
        2804,
        vec![
            FrontendCommand::delete_message(2804),
            minute_keyboard(10),
            FrontendCommand::delete_keyboard(2804),
        ],
    ));

    case.send(key_msg(1, 2805, "time_minute:00", "Ok, 10. Now choose minute"));
    case.expect(reply(
        1,
        2805,
        vec![
            FrontendCommand::delete_message(2805),
            send_cmd("Now write event message"),
            FrontendCommand::delete_keyboard(2805),
        ],
    ));
    case.send(text_msg(1, 2832, "test message"));
    case.expect(reply(
        1,
        2832,
        vec![send_cmd("I'll remind you February  1 at 10:00\ntest message")],
    ));

    case.run();
}

#[test]
fn at_today() {
    let mut case = TestCase::create();

    case.send(text_msg(1, 2802, "/at"));
    case.expect(reply(1, 2802, vec![calendar_cmd(1970, 1, -3, None)]));

    case.send(key_msg(1, 2803, "today", "Please, choose a date"));
    case.expect(reply(
        1,
        2803,
        vec![
            FrontendCommand::delete_message(2803),
            hour_keyboard(),
            FrontendCommand::delete_keyboard(2803),
        ],
    ));

    case.send(key_msg(1, 2804, "time_hour:10", "Please, choose hour"));
    case.expect(reply(
        1,
        2804,
        vec![
            FrontendCommand::delete_message(2804),
            minute_keyboard(10),
            FrontendCommand::delete_keyboard(2804),
        ],
    ));

    case.send(key_msg(1, 2805, "time_minute:00", "Ok, 10. Now choose minute"));
    case.expect(reply(
        1,
        2805,
        vec![
            FrontendCommand::delete_message(2805),
            send_cmd("Now write event message"),
            FrontendCommand::delete_keyboard(2805),
        ],
    ));
    case.send(text_msg(1, 2832, "test message"));
    case.expect(reply(1, 2832, vec![send_cmd("I'll remind you today at 10:00\ntest message")]));

    case.run();
}

#[test]
fn at_tomorrow() {
    let mut case = TestCase::create();

    case.send(text_msg(1, 2802, "/at"));
    case.expect(reply(1, 2802, vec![calendar_cmd(1970, 1, -3, None)]));

    case.send(key_msg(1, 2803, "tomorrow", "Please, choose a date"));
    case.expect(reply(
        1,
        2803,
        vec![
            FrontendCommand::delete_message(2803),
            hour_keyboard(),
            FrontendCommand::delete_keyboard(2803),
        ],
    ));

    case.send(key_msg(1, 2804, "time_hour:10", "Please, choose hour"));
    case.expect(reply(
        1,
        2804,
        vec![
            FrontendCommand::delete_message(2804),
            minute_keyboard(10),
            FrontendCommand::delete_keyboard(2804),
        ],
    ));

    case.send(key_msg(1, 2805, "time_minute:00", "Ok, 10. Now choose minute"));
    case.expect(reply(
        1,
        2805,
        vec![
            FrontendCommand::delete_message(2805),
            send_cmd("Now write event message"),
            FrontendCommand::delete_keyboard(2805),
        ],
    ));
    case.send(text_msg(1, 2832, "test message"));
    case.expect(reply(1, 2832, vec![send_cmd("I'll remind you tomorrow at 10:00\ntest message")]));

    case.run();
}

#[test]
fn at_write_time_by_hand() {
    // the steps of a manual time entry are assembled but deliberately never
    // run: the expected replies assume a wall clock this driver does not use
    let mut case = TestCase::create();

    case.send(text_msg(1, 2802, "/at"));
    case.expect(reply(1, 2934, vec![calendar_cmd(2020, 8, -3, None)]));
    case.send(key_msg(1, 2935, "tomorrow", "Please, choose a date"));
    case.expect(reply(
        1,
        2935,
        vec![
            FrontendCommand::delete_message(2935),
            hour_keyboard(),
            FrontendCommand::delete_keyboard(2935),
        ],
    ));
    case.send(key_msg(1, 2936, "time_hour:10", "Please, choose hour"));
    case.expect(reply(
        1,
        2936,
        vec![
            FrontendCommand::delete_message(2936),
            minute_keyboard(10),
            FrontendCommand::delete_keyboard(2936),
        ],
    ));
    case.send(text_msg(1, 2938, "33"));
    case.expect(reply(
        1,
        2938,
        vec![FrontendCommand::delete_message(0), send_cmd("Now write event message")],
    ));
    case.send(text_msg(1, 2939, "test"));
    case.expect(reply(1, 2939, vec![send_cmd("I'll remind you tomorrow at 10:33\ntest")]));
}

#[test]
fn after_wrong_format() {
    let mut case = TestCase::create();

    case.send(text_msg(1, 2970, "test"));
    case.expect(reply(1, 2970, vec![main_keyboard("test")]));
    case.send(key_msg(1, 2971, "after", "test"));
    case.expect(reply(
        1,
        2971,
        vec![send_cmd("Ok, now write time duration."), FrontendCommand::delete_keyboard(2971)],
    ));
    case.send(text_msg(1, 2973, "0"));
    case.expect(reply(1, 2973, vec![send_cmd("Wrong `after` command format")]));

    case.run()
}
