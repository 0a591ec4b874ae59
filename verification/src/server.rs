//! The control-plane server's command state machine.
//!
//! Each accepted connection runs its own frame reader and hands every decoded
//! message, in arrival order, to this state machine. The machine decides what
//! to do — close the connection, capture a snapshot, enumerate containers, or
//! move the process-wide run flag — and the surrounding handler performs it.
//! Unrecognized commands are ignored, not errors.

use vstd::prelude::*;

use crate::message::Message;
use crate::text::str_eq;

verus! {

/// A listener's address: where a server binds.
pub struct Server {
    pub host: String,
    pub port: u16,
}

impl Server {
    /// A server that will bind `host:port`.
    pub fn new(host: String, port: u16) -> (r: Server)
        ensures
            r.host@ == host@,
            r.port == port,
    {
        Server { host, port }
    }
}

/// What one command asks the handler to do.
#[derive(Clone, Copy, Debug, PartialEq, Eq, Structural)]
pub enum ControlAction {
    /// `exit`: close this connection; later messages in the batch are dropped.
    CloseConnection,
    /// `syslog`: invoke the snapshot producer synchronously.
    CaptureSnapshot,
    /// `list`: invoke the container enumeration collaborator.
    ListContainers,
    /// `start` or `continue`: the run flag was set.
    SetRunning,
    /// `stop` or `pause`: the run flag was cleared.
    ClearRunning,
    /// Anything else: log and ignore.
    Ignore,
}

/// Whether a command turns the run flag on.
pub open spec fn sets_true(c: Seq<char>) -> bool {
    c == "start"@ || c == "continue"@
}

/// Whether a command turns the run flag off.
pub open spec fn sets_false(c: Seq<char>) -> bool {
    c == "stop"@ || c == "pause"@
}

/// The action a command demands.
pub open spec fn spec_action(c: Seq<char>) -> ControlAction {
    if c == "exit"@ {
        ControlAction::CloseConnection
    } else if c == "syslog"@ {
        ControlAction::CaptureSnapshot
    } else if c == "list"@ {
        ControlAction::ListContainers
    } else if sets_true(c) {
        ControlAction::SetRunning
    } else if sets_false(c) {
        ControlAction::ClearRunning
    } else {
        ControlAction::Ignore
    }
}

/// The run flag after one command.
pub open spec fn run_after(running: bool, c: Seq<char>) -> bool {
    if sets_true(c) {
        true
    } else if sets_false(c) {
        false
    } else {
        running
    }
}

/// The run flag after a batch, processed in order and cut short by `exit`.
pub open spec fn run_flag_after(running: bool, cs: Seq<Seq<char>>) -> bool
    decreases cs.len(),
{
    if cs.len() == 0 {
        running
    } else if spec_action(cs.first()) is CloseConnection {
        running
    } else {
        run_flag_after(run_after(running, cs.first()), cs.drop_first())
    }
}

/// The actions a batch demands, in order, cut short by `exit`.
pub open spec fn actions_of(cs: Seq<Seq<char>>) -> Seq<ControlAction>
    decreases cs.len(),
{
    if cs.len() == 0 {
        Seq::<ControlAction>::empty()
    } else if spec_action(cs.first()) is CloseConnection {
        seq![ControlAction::CloseConnection]
    } else {
        seq![spec_action(cs.first())] + actions_of(cs.drop_first())
    }
}

/// Decides what one command asks for.
pub fn command_action(content: &str) -> (a: ControlAction)
    ensures
        a == spec_action(content@),
{
    if str_eq(content, "exit") {
        ControlAction::CloseConnection
    } else if str_eq(content, "syslog") {
        ControlAction::CaptureSnapshot
    } else if str_eq(content, "list") {
        ControlAction::ListContainers
    } else if str_eq(content, "start") || str_eq(content, "continue") {
        ControlAction::SetRunning
    } else if str_eq(content, "stop") || str_eq(content, "pause") {
        ControlAction::ClearRunning
    } else {
        ControlAction::Ignore
    }
}

/// Processes one batch of messages in arrival order, as a handler does:
/// returns the run flag after the batch and the actions to perform, stopping
/// at the first `exit`.
pub fn process_messages(running: bool, msgs: &Vec<Message>) -> (r: (bool, Vec<ControlAction>))
    ensures
        r.0 == run_flag_after(running, msgs.deep_view()),
        r.1@ == actions_of(msgs.deep_view()),
{
    let ghost dv = msgs.deep_view();
    let mut cur = running;
    let mut acts: Vec<ControlAction> = Vec::new();
    let mut i: usize = 0;
    proof {
        assert(dv.skip(0) =~= dv);
    }
    while i < msgs.len()
        invariant
            dv == msgs.deep_view(),
            dv.len() == msgs@.len(),
            i <= msgs@.len(),
            run_flag_after(running, dv) == run_flag_after(cur, dv.skip(i as int)),
            actions_of(dv) == acts@ + actions_of(dv.skip(i as int)),
        decreases msgs@.len() - i,
    {
        let ghost suffix = dv.skip(i as int);
        proof {
            broadcast use vstd::string::group_string_axioms;

            assert(suffix.first() == dv[i as int]);
            assert(suffix.drop_first() =~= dv.skip(i as int + 1));
            reveal_strlit("exit");
            reveal_strlit("syslog");
            reveal_strlit("list");
            reveal_strlit("start");
            reveal_strlit("continue");
            reveal_strlit("stop");
            reveal_strlit("pause");
            assert("exit"@.len() == 4 && "syslog"@.len() == 6 && "list"@.len() == 4 && "start"@.len()
                == 5 && "continue"@.len() == 8 && "stop"@.len() == 4 && "pause"@.len() == 5);
            assert("exit"@[0] == 'e' && "list"@[0] == 'l' && "stop"@[0] == 's');
            assert("start"@[1] == 't' && "pause"@[1] == 'a');
        }
        let a = command_action(msgs[i].content.as_str());
        if matches!(a, ControlAction::CloseConnection) {
            acts.push(a);
            proof {
                assert(actions_of(dv) =~= acts@);
            }
            return (cur, acts);
        }
        match a {
            ControlAction::SetRunning => {
                cur = true;
            },
            ControlAction::ClearRunning => {
                cur = false;
            },
            _ => {},
        }
        acts.push(a);
        i = i + 1;
        proof {
            assert(actions_of(dv) =~= acts@ + actions_of(dv.skip(i as int)));
        }
    }
    proof {
        assert(dv.skip(msgs@.len() as int) =~= Seq::<Seq<char>>::empty());
        assert(actions_of(dv) =~= acts@);
    }
    (cur, acts)
}

/// The capture loop's gate: one tick captures a snapshot exactly while the
/// run flag is set.
pub fn capture_due(running: bool) -> (r: bool)
    ensures
        r == running,
{
    running
}

proof fn lemma_no_start_keeps_paused(cs: Seq<Seq<char>>)
    requires
        forall|i: int| 0 <= i < cs.len() ==> !sets_true(#[trigger] cs[i]),
    ensures
        run_flag_after(false, cs) == false,
    decreases cs.len(),
{
    if cs.len() > 0 && !(spec_action(cs.first()) is CloseConnection) {
        let t = cs.drop_first();
        assert forall|i: int| 0 <= i < t.len() implies !sets_true(#[trigger] t[i]) by {
            assert(t[i] == cs[i + 1]);
        }
        assert(cs.first() == cs[0]);
        lemma_no_start_keeps_paused(t);
    }
}

/// Law: run-flag gating. After a `stop`, the run flag stays off across any
/// further commands that include no `start` and no `continue` — so the
/// capture loop, which captures only while the flag is on (`capture_due`),
/// makes no capture until one of those arrives.
pub proof fn lemma_stop_gates_capture(running: bool, later: Seq<Seq<char>>)
    requires
        forall|i: int| 0 <= i < later.len() ==> !sets_true(#[trigger] later[i]),
    ensures
        run_flag_after(run_after(running, "stop"@), later) == false,
{
    broadcast use vstd::string::group_string_axioms;

    reveal_strlit("stop");
    reveal_strlit("start");
    reveal_strlit("continue");
    assert("stop"@.len() == 4 && "start"@.len() == 5 && "continue"@.len() == 8);
    assert(!sets_true("stop"@));
    lemma_no_start_keeps_paused(later);
}

} // verus!
