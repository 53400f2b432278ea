use vstd::prelude::*;

use crate::civil::TIME_MAX;
use crate::command::Command;
use crate::database::{DataBase, DbMode, StoreError, UserInfo};
use crate::state::{
    spec_keyboard_step, spec_text_step, FrontendCommand, KeyboardCommand, KeyboardCommandType,
    KeyboardEventData, SendMessageCommand, TextEventData, UserState,
};

verus! {

/// A control message into the engine, as the transport hands them over.
#[derive(Debug, PartialEq)]
pub enum CmdToEngine {
    AddUser { uid: i64, username: String, chat_id: i64, first_name: String, last_name: String, tz: i32 },
    TextMessage { uid: i64, msg_id: i64, message: String },
    KeyboardMessage { uid: i64, msg_id: i64, call_data: String, msg_text: String },
    AdvanceTime(i64),
    Terminate,
}

/// One outbound batch of UI commands for a user, optionally tied to the
/// message it answers.
#[derive(Debug, PartialEq)]
pub struct CmdFromEngine {
    pub uid: i64,
    pub to_msg: Option<i64>,
    pub cmd_vec: Vec<FrontendCommand>,
}

/// What one dialog step produced: the UI commands to emit and, when the
/// dialog moves on, the next state.
pub struct ProcessResult {
    pub frontend_command: Vec<FrontendCommand>,
    pub next_state: Option<UserState>,
}

impl ProcessResult {
    pub(crate) fn single(cmd: FrontendCommand, next: Option<UserState>) -> (r: ProcessResult)
        ensures
            r.frontend_command@.len() == 1,
            r.frontend_command@[0] == cmd,
            r.next_state == next,
    {
        let mut v: Vec<FrontendCommand> = Vec::new();
        v.push(cmd);
        ProcessResult { frontend_command: v, next_state: next }
    }

    pub(crate) fn msg_send(text: String, next: UserState) -> (r: ProcessResult)
        ensures
            r.frontend_command@.len() == 1,
            (r.frontend_command@[0] matches FrontendCommand::send(sc) && sc.text == text),
            r.next_state == Some(next),
    {
        let mut v: Vec<FrontendCommand> = Vec::new();
        v.push(FrontendCommand::send(SendMessageCommand { text }));
        ProcessResult { frontend_command: v, next_state: Some(next) }
    }
}

/// The engine: the event store plus the per-user dialog states. Inbound
/// events are routed to the current state; `tick` surfaces due events.
pub struct Engine {
    data_base: DataBase,
    user_states: Vec<(i64, UserState)>,
    stop_loop: bool,
}

impl Engine {
    pub closed spec fn db(self) -> DataBase {
        self.data_base
    }

    pub closed spec fn states(self) -> Seq<(i64, UserState)> {
        self.user_states@
    }

    pub closed spec fn stopped(self) -> bool {
        self.stop_loop
    }

    pub open spec fn has_state(self, uid: int) -> bool {
        exists|k: int| 0 <= k < self.states().len() && #[trigger] self.states()[k].0 == uid
    }

    pub open spec fn state_index(self, uid: int) -> int {
        choose|k: int| 0 <= k < self.states().len() && #[trigger] self.states()[k].0 == uid
    }

    pub open spec fn state_of(self, uid: int) -> UserState {
        self.states()[self.state_index(uid)].1
    }

    /// The engine invariant: a well-formed store, one dialog state per user,
    /// and a state only for registered users.
    pub open spec fn wf(self) -> bool {
        &&& self.db().wf()
        &&& (forall|i: int, j: int|
            0 <= i < j < self.states().len() ==> self.states()[i].0 != self.states()[j].0)
        &&& (forall|i: int|
            0 <= i < self.states().len() ==> self.db().has_user(#[trigger] self.states()[i].0 as int))
    }

    /// The dialog-state table with the entry for `uid` replaced.
    pub open spec fn states_updated(
        pre: Seq<(i64, UserState)>,
        post: Seq<(i64, UserState)>,
        uid: int,
        ns: UserState,
    ) -> bool {
        exists|k: int|
            0 <= k < pre.len() && #[trigger] pre[k].0 == uid && post == pre.update(
                k,
                (pre[k].0, ns),
            )
    }

    pub fn new(mode: DbMode) -> (e: Engine)
        ensures
            e.wf(),
            e.states().len() == 0,
            e.db().user_rows().len() == 0,
            e.db().actives().len() == 0,
            e.db().reps().len() == 0,
            e.db().next_active() == 0,
            e.db().next_rep() == 0,
            !e.stopped(),
    {
        Engine { data_base: DataBase::new(mode), user_states: Vec::new(), stop_loop: false }
    }

    /// The index of the dialog state for `uid`, if one exists.
    fn find_state(&self, uid: i64) -> (r: Option<usize>)
        ensures
            r is Some <==> self.has_state(uid as int),
            r is Some ==> 0 <= r->0 < self.states().len() && self.states()[r->0 as int].0 == uid,
    {
        let n = self.user_states.len();
        let mut k: usize = 0;
        while k < n
            invariant
                0 <= k <= n,
                n == self.user_states@.len(),
                forall|i: int| 0 <= i < k ==> #[trigger] self.user_states@[i].0 != uid,
            decreases n - k,
        {
            if self.user_states[k].0 == uid {
                proof {
                    assert(self.states()[k as int].0 == uid);
                }
                return Some(k);
            }
            k = k + 1;
        }
        None
    }

    /// Registers a user in the store and seeds their dialog state.
    pub fn add_user(
        &mut self,
        uid: i64,
        username: &str,
        chat_id: i64,
        first_name: &str,
        last_name: &str,
        tz: i32,
    ) -> (r: Result<(), StoreError>)
        requires
            old(self).wf(),
        ensures
            final(self).wf(),
            final(self).stopped() == old(self).stopped(),
            r is Ok <==> !old(self).db().has_user(uid as int) && -crate::civil::TZ_HOURS_MAX <= tz
                <= crate::civil::TZ_HOURS_MAX,
            r is Ok ==> final(self).has_state(uid as int) && final(self).db().has_user(uid as int)
                && final(self).db().user_tz(uid as int) == tz,
            r is Ok ==> final(self).state_of(uid as int) == UserState::ReadyToProcess,
            !(r is Ok) ==> final(self).states() == old(self).states(),
            final(self).db().actives() == old(self).db().actives(),
            final(self).db().reps() == old(self).db().reps(),
    {
        let info = UserInfo { uid, name: username, chat_id, first_name, last_name, tz };
        match self.data_base.add_user(info) {
            Ok(()) => {
                let ghost prev = self.user_states@;
                self.user_states.push((uid, UserState::ReadyToProcess));
                proof {
                    let n = self.user_states@.len() - 1;
                    assert(self.user_states@[n].0 == uid);
                    assert forall|i: int| 0 <= i < prev.len() implies #[trigger] prev[i].0
                        != uid by {
                        assert(old(self).db().has_user(old(self).states()[i].0 as int));
                        assert(old(self).states()[i] == prev[i]);
                    }
                    assert forall|i: int, j: int|
                        0 <= i < j < self.states().len() implies self.states()[i].0
                        != self.states()[j].0 by {
                        assert(self.states() == self.user_states@);
                        if j < n {
                            assert(self.user_states@[i] == prev[i] && self.user_states@[j]
                                == prev[j]);
                            assert(old(self).states()[i].0 != old(self).states()[j].0);
                            assert(old(self).states()[i] == prev[i] && old(self).states()[j]
                                == prev[j]);
                        } else {
                            assert(self.user_states@[i] == prev[i]);
                            assert(prev[i].0 != uid);
                            assert(self.user_states@[j].0 == uid);
                        }
                    }
                    assert forall|i: int|
                        0 <= i < self.states().len() implies self.db().has_user(
                        #[trigger] self.states()[i].0 as int,
                    ) by {
                        assert(self.states() == self.user_states@);
                        assert(self.states()[i] == self.user_states@[i]);
                        if i < n {
                            assert(self.user_states@[i] == prev[i]);
                            assert(old(self).db().has_user(old(self).states()[i].0 as int));
                            assert(old(self).states()[i] == prev[i]);
                            let w = choose|w: int|
                                0 <= w < old(self).db().user_rows().len() && old(self).db().user_rows()[w].uid == prev[i].0;
                            assert(self.db().user_rows()[w].uid == prev[i].0);
                        } else {
                            let m = self.db().user_rows().len() - 1;
                            assert(self.db().user_rows()[m].uid == uid);
                        }
                    }
                    assert(self.states()[n].0 == uid);
                    let k = self.state_index(uid as int);
                    assert(0 <= k < self.user_states@.len() && self.user_states@[k].0 == uid);
                    if k != n {
                        assert(self.user_states@[k] == prev[k]);
                        assert(prev[k].0 != uid);
                        assert(false);
                    }
                }
                Ok(())
            },
            Err(e) => {
                proof {
                    assert forall|i: int, j: int|
                        0 <= i < j < self.states().len() implies self.states()[i].0
                        != self.states()[j].0 by {
                        assert(old(self).states()[i].0 != old(self).states()[j].0);
                        assert(self.states() == old(self).states());
                    }
                    assert forall|i: int|
                        0 <= i < self.states().len() implies self.db().has_user(
                        #[trigger] self.states()[i].0 as int,
                    ) by {
                        assert(self.states() == old(self).states());
                        assert(old(self).db().has_user(old(self).states()[i].0 as int));
                        let w = choose|w: int|
                            0 <= w < old(self).db().user_rows().len() && old(
                                self,
                            ).db().user_rows()[w].uid == old(self).states()[i].0;
                        assert(self.db().user_rows()[w].uid == self.states()[i].0);
                    }
                }
                Err(e)
            },
        }
    }

    /// Routes a text message to the user's dialog state; a user without a
    /// registered state is an error. On a handler error the dialog resets to
    /// the idle state and the error text is handed back.
    pub fn handle_text_message(&mut self, uid: i64, text_message: &str, now: i64) -> (r: Result<
        Vec<FrontendCommand>,
        String,
    >)
        requires
            old(self).wf(),
            -TIME_MAX <= now <= TIME_MAX,
        ensures
            final(self).wf(),
            final(self).db().user_rows() == old(self).db().user_rows(),
            final(self).stopped() == old(self).stopped(),
            !old(self).has_state(uid as int) ==> (r matches Err(e) && e@
                == "no /start command was processed"@) && final(self).db() == old(self).db()
                && final(self).states() == old(self).states(),
            old(self).has_state(uid as int) ==> ({
                let st = old(self).state_of(uid as int);
                match r {
                    Ok(cmds) => exists|pr: ProcessResult|
                        #[trigger] spec_text_step(
                            old(self).db(),
                            final(self).db(),
                            st,
                            uid as int,
                            text_message@,
                            now as int,
                            Ok(pr),
                        ) && cmds@ == pr.frontend_command@ && (match pr.next_state {
                            Some(ns) => Self::states_updated(
                                old(self).states(),
                                final(self).states(),
                                uid as int,
                                ns,
                            ),
                            None => final(self).states() == old(self).states(),
                        }),
                    Err(e) => spec_text_step(
                        old(self).db(),
                        final(self).db(),
                        st,
                        uid as int,
                        text_message@,
                        now as int,
                        Err(e),
                    ) && Self::states_updated(
                        old(self).states(),
                        final(self).states(),
                        uid as int,
                        UserState::ReadyToProcess,
                    ),
                }
            }),
    {
        let k = match self.find_state(uid) {
            Some(k) => k,
            None => {
                return Err("no /start command was processed".to_owned());
            },
        };
        proof {
            let c = self.state_index(uid as int);
            assert(0 <= c < self.states().len() && self.states()[c].0 == uid);
            if c != k as int {
                assert(false);
            }
        }
        proof {
            assert(self.db().has_user(self.states()[k as int].0 as int));
        }
        let data = TextEventData { uid, msg_id: 0, input: text_message.to_owned() };
        let result = self.user_states[k].1.process(data, now, &mut self.data_base);
        match result {
            Ok(pr) => {
                let ghost gpr = pr;
                let ProcessResult { frontend_command, next_state } = pr;
                let ghost prev = self.user_states@;
                proof {
                    assert(frontend_command@ == gpr.frontend_command@);
                    assert(next_state == gpr.next_state);
                }
                match next_state {
                    Some(ns) => {
                        let ghost gns = ns;
                        self.set_state(k, ns);
                        proof {
                            lemma_states_wf_update(
                                prev,
                                self.user_states@,
                                self.db(),
                                k as int,
                                gns,
                            );
                            assert(prev[k as int].0 == uid);
                        }
                    },
                    None => {},
                }
                Ok(frontend_command)
            },
            Err(e) => {
                let ghost prev = self.user_states@;
                self.set_state(k, UserState::ReadyToProcess);
                proof {
                    lemma_states_wf_update(
                        prev,
                        self.user_states@,
                        self.db(),
                        k as int,
                        UserState::ReadyToProcess,
                    );
                    assert(prev[k as int].0 == uid);
                }
                Err(e)
            },
        }
    }

    /// Replaces the state stored at a known index.
    fn set_state(&mut self, k: usize, ns: UserState)
        requires
            k < old(self).states().len(),
        ensures
            final(self).states() == old(self).states().update(
                k as int,
                (old(self).states()[k as int].0, ns),
            ),
            final(self).db() == old(self).db(),
            final(self).stopped() == old(self).stopped(),
    {
        let uid = self.user_states[k].0;
        let ghost prev = self.user_states@;
        self.user_states.remove(k);
        self.user_states.insert(k, (uid, ns));
        proof {
            prev.remove_ensures(k as int);
            prev.remove(k as int).insert_ensures(k as int, (prev[k as int].0, ns));
            assert(self.user_states@ =~= prev.update(k as int, (prev[k as int].0, ns)));
        }
    }

    /// Routes a button press. A global `ignore` clears the pressed message,
    /// a terminal acknowledge clears its keyboard, and anything else goes to
    /// the user's dialog state. Buttons are single-use: every successful
    /// reply ends by deleting the pressed keyboard. A handler error resets
    /// the dialog and reports the failure.
    pub fn handle_keyboard_responce(
        &mut self,
        uid: i64,
        msg_id: i32,
        call_data: &str,
        msg_text: &str,
        now: i64,
    ) -> (r: Vec<FrontendCommand>)
        requires
            old(self).wf(),
            -TIME_MAX <= now <= TIME_MAX,
            old(self).has_state(uid as int),
        ensures
            final(self).wf(),
            final(self).db().user_rows() == old(self).db().user_rows(),
            final(self).stopped() == old(self).stopped(),
            ({
                let st = old(self).state_of(uid as int);
                if call_data@ == "ignore"@ {
                    r@.len() == 2 && (r@[0] matches FrontendCommand::delete_message(m) && m
                        == msg_id) && (r@[1] matches FrontendCommand::delete_keyboard(m2) && m2
                        == msg_id) && final(self).db() == old(self).db() && final(self).states()
                        == old(self).states()
                } else if call_data@ == "Ok"@ {
                    r@.len() == 1 && (r@[0] matches FrontendCommand::delete_keyboard(m) && m
                        == msg_id) && final(self).db() == old(self).db() && final(self).states()
                        == old(self).states()
                } else {
                    exists|res: Result<ProcessResult, String>|
                        #[trigger] spec_keyboard_step(
                            old(self).db(),
                            final(self).db(),
                            st,
                            uid as int,
                            msg_id as int,
                            call_data@,
                            msg_text@,
                            now as int,
                            res,
                        ) && (match res {
                            Ok(pr) => r@.len() == pr.frontend_command@.len() + 1 && r@.subrange(
                                0,
                                pr.frontend_command@.len() as int,
                            ) == pr.frontend_command@ && (r@[r@.len() - 1] matches
                                FrontendCommand::delete_keyboard(m) && m == msg_id) && (
                            match pr.next_state {
                                Some(ns) => Self::states_updated(
                                    old(self).states(),
                                    final(self).states(),
                                    uid as int,
                                    ns,
                                ),
                                None => final(self).states() == old(self).states(),
                            }),
                            Err(e) => r@.len() == 1 && (r@[0] matches FrontendCommand::send(sc)
                                && sc.text@ == "error while processing keyboard, return to default state: "@
                                + e@) && Self::states_updated(
                                old(self).states(),
                                final(self).states(),
                                uid as int,
                                UserState::ReadyToProcess,
                            ),
                        })
                }
            }),
    {
        if crate::command::str_eq(call_data, "ignore") {
            let mut v: Vec<FrontendCommand> = Vec::new();
            v.push(FrontendCommand::delete_message(msg_id));
            v.push(FrontendCommand::delete_keyboard(msg_id));
            return v;
        }
        if crate::command::str_eq(call_data, "Ok") {
            let mut v: Vec<FrontendCommand> = Vec::new();
            v.push(FrontendCommand::delete_keyboard(msg_id));
            return v;
        }
        let k = match self.find_state(uid) {
            Some(k) => k,
            None => {
                proof {
                    assert(false);
                }
                0
            },
        };
        proof {
            let c = self.state_index(uid as int);
            assert(0 <= c < self.states().len() && self.states()[c].0 == uid);
            if c != k as int {
                assert(false);
            }
        }
        proof {
            assert(self.db().has_user(self.states()[k as int].0 as int));
        }
        let data = KeyboardEventData {
            uid,
            msg_id,
            callback_data: call_data.to_owned(),
            msg_text: msg_text.to_owned(),
        };
        let result = self.user_states[k].1.process_keyboard(data, now, &mut self.data_base);
        match result {
            Ok(pr) => {
                let ghost gpr = pr;
                let ProcessResult { mut frontend_command, next_state } = pr;
                proof {
                    assert(frontend_command@ == gpr.frontend_command@);
                    assert(next_state == gpr.next_state);
                }
                frontend_command.push(FrontendCommand::delete_keyboard(msg_id));
                proof {
                    assert(frontend_command@.subrange(
                        0,
                        gpr.frontend_command@.len() as int,
                    ) =~= gpr.frontend_command@);
                }
                let ghost prev = self.user_states@;
                match next_state {
                    Some(ns) => {
                        let ghost gns = ns;
                        self.set_state(k, ns);
                        proof {
                            lemma_states_wf_update(
                                prev,
                                self.user_states@,
                                self.db(),
                                k as int,
                                gns,
                            );
                            assert(prev[k as int].0 == uid);
                        }
                    },
                    None => {},
                }
                proof {
                    let st = old(self).state_of(uid as int);
                    assert(spec_keyboard_step(
                        old(self).db(),
                        self.db(),
                        st,
                        uid as int,
                        msg_id as int,
                        call_data@,
                        msg_text@,
                        now as int,
                        Ok(gpr),
                    ));
                }
                frontend_command
            },
            Err(e) => {
                let ghost ge = e@;
                proof {
                    reveal_strlit("error while processing keyboard, return to default state: ");
                }
                let mut msg = "error while processing keyboard, return to default state: "
                    .to_owned();
                msg.append(e.as_str());
                proof {
                    assert(msg@ =~= "error while processing keyboard, return to default state: "@
                        + ge);
                }
                let mut v: Vec<FrontendCommand> = Vec::new();
                v.push(FrontendCommand::send(SendMessageCommand { text: msg }));
                let ghost prev = self.user_states@;
                self.set_state(k, UserState::ReadyToProcess);
                proof {
                    lemma_states_wf_update(
                        prev,
                        self.user_states@,
                        self.db(),
                        k as int,
                        UserState::ReadyToProcess,
                    );
                    assert(prev[k as int].0 == uid);
                }
                v
            },
        }
    }

    pub fn get_user_chat_id_all(&self) -> (r: Vec<i64>)
        ensures
            r@.len() == self.db().user_rows().len(),
            forall|i: int|
                0 <= i < r@.len() ==> r@[i] == #[trigger] self.db().user_rows()[i].chat_id,
    {
        self.data_base.get_user_chat_id_all()
    }

    /// Pulls every due event out of the store and turns each one into an
    /// outbound notification carrying the event text, in due-time order.
    pub fn tick(&mut self, now: i64) -> (r: Vec<CmdFromEngine>)
        requires
            old(self).wf(),
            -TIME_MAX <= now <= TIME_MAX,
        ensures
            final(self).wf(),
            final(self).states() == old(self).states(),
            final(self).stopped() == old(self).stopped(),
            final(self).db().user_rows() == old(self).db().user_rows(),
            final(self).db().reps() == old(self).db().reps(),
            r@.len() <= old(self).db().actives().len(),
            forall|i: int|
                0 <= i < r@.len() ==> ({
                    let row = old(self).db().actives()[i];
                    (#[trigger] r@[i]).uid == row.uid && r@[i].to_msg is None
                        && r@[i].cmd_vec@.len() == 1 && (r@[i].cmd_vec@[0] matches
                        FrontendCommand::keyboard(kc) && kc.action_type == KeyboardCommandType::Main
                        && kc.text@ == row.text@) && row.due_time <= now
                }),
            forall|i: int|
                r@.len() <= i < old(self).db().actives().len() ==> #[trigger] old(self).db().actives()[i].due_time > now,
            forall|i: int|
                0 <= i < final(self).db().actives().len() ==> #[trigger] final(self).db().actives()[i].due_time >= now,
    {
        let events = self.data_base.extract_events_happens_already(now);
        let mut out: Vec<CmdFromEngine> = Vec::new();
        let n = events.len();
        let ghost orig = old(self).db().actives();
        let mut k: usize = 0;
        while k < n
            invariant
                0 <= k <= n,
                n == events@.len(),
                n <= orig.len(),
                forall|i: int|
                    0 <= i < n ==> ((#[trigger] events@[i]).command matches Command::OneTimeEvent(o)
                        && o.event_text == orig[i].text && events@[i].uid == orig[i].uid),
                out@.len() == k,
                forall|i: int|
                    0 <= i < k ==> ({
                        let row = orig[i];
                        (#[trigger] out@[i]).uid == row.uid && out@[i].to_msg is None
                            && out@[i].cmd_vec@.len() == 1 && (out@[i].cmd_vec@[0] matches
                            FrontendCommand::keyboard(kc) && kc.action_type
                            == KeyboardCommandType::Main && kc.text@ == row.text@)
                    }),
            decreases n - k,
        {
            let text = match &events[k].command {
                Command::OneTimeEvent(o) => o.event_text.clone(),
                Command::RepetitiveEvent(o) => {
                    proof {
                        assert(false);
                    }
                    o.event_text.clone()
                },
            };
            let cmd = FrontendCommand::keyboard(
                KeyboardCommand { action_type: KeyboardCommandType::Main, text },
            );
            let mut cv: Vec<FrontendCommand> = Vec::new();
            cv.push(cmd);
            out.push(CmdFromEngine { uid: events[k].uid, to_msg: None, cmd_vec: cv });
            k = k + 1;
        }
        proof {
            assert forall|i: int, j: int|
                0 <= i < j < self.states().len() implies self.states()[i].0
                != self.states()[j].0 by {
                assert(old(self).states()[i].0 != old(self).states()[j].0);
            }
            assert forall|i: int|
                0 <= i < self.states().len() implies self.db().has_user(
                #[trigger] self.states()[i].0 as int,
            ) by {
                assert(old(self).db().has_user(old(self).states()[i].0 as int));
                let w = choose|w: int|
                    0 <= w < old(self).db().user_rows().len() && old(self).db().user_rows()[w].uid
                        == old(self).states()[i].0;
                assert(self.db().user_rows()[w].uid == self.states()[i].0);
            }
        }
        out
    }

    /// Seconds until the earliest pending event, floored at zero; a fixed
    /// sixty-second bound when the store is empty.
    pub fn get_time_until_next_wakeup(&self, now: i64) -> (r: u64)
        requires
            self.wf(),
            -TIME_MAX <= now <= TIME_MAX,
        ensures
            self.db().actives().len() == 0 ==> r == 60,
            self.db().actives().len() > 0 ==> r as int == vstd::math::max(
                0,
                self.db().actives()[0].due_time - now,
            ),
    {
        match self.data_base.get_nearest_wakeup() {
            Some(ts) => {
                if ts > now {
                    (ts - now) as u64
                } else {
                    0
                }
            },
            None => 60,
        }
    }

    /// Marks the engine as asked to stop.
    pub fn stop(&mut self)
        ensures
            final(self).stopped(),
            final(self).db() == old(self).db(),
            final(self).states() == old(self).states(),
    {
        self.stop_loop = true;
    }

    pub fn is_stop(&self) -> (r: bool)
        ensures
            r == self.stopped(),
    {
        self.stop_loop
    }
}

/// Replacing one user's dialog state keeps the state table well-formed.
proof fn lemma_states_wf_update(
    prev: Seq<(i64, UserState)>,
    cur: Seq<(i64, UserState)>,
    db: DataBase,
    k: int,
    ns: UserState,
)
    requires
        forall|i: int, j: int| 0 <= i < j < prev.len() ==> prev[i].0 != prev[j].0,
        forall|i: int| 0 <= i < prev.len() ==> db.has_user(#[trigger] prev[i].0 as int),
        0 <= k < prev.len(),
        cur == prev.update(k, (prev[k].0, ns)),
    ensures
        forall|i: int, j: int| 0 <= i < j < cur.len() ==> cur[i].0 != cur[j].0,
        forall|i: int| 0 <= i < cur.len() ==> db.has_user(#[trigger] cur[i].0 as int),
{
    assert(cur.len() == prev.len());
    assert forall|i: int| 0 <= i < cur.len() implies cur[i].0 == prev[i].0 by {
        if i != k {
            assert(cur[i] == prev[i]);
        }
    }
    assert forall|i: int| 0 <= i < cur.len() implies db.has_user(#[trigger] cur[i].0 as int) by {
        assert(db.has_user(prev[i].0 as int));
    }
}

} // verus!
