//! Waiting for the presentation subsystems before the script starts.
use vstd::prelude::*;

verus! {

/// A presentation subsystem that reports when it is ready.
#[derive(Debug, Clone, Copy, PartialEq, Eq)]
pub enum Controller {
    Background,
    Character,
    Chat,
}

/// A subsystem reports that it is ready.
#[derive(Debug, Clone, Copy, PartialEq, Eq)]
pub struct ControllerReadyMessage(pub Controller);

/// The one-time signal that every subsystem is ready and the script begins.
#[derive(Debug, Clone, Copy, PartialEq, Eq)]
pub struct TriggerControllersMessage;

/// Whether the runtime still waits for the subsystems or runs the script.
#[derive(Debug, Clone, Copy, PartialEq, Eq, Structural)]
pub enum SabiState {
    WaitingForControllers,
    Running,
}

/// Which subsystems have reported ready, and the state of the runtime.
#[derive(Debug, Clone, Copy, PartialEq, Eq)]
pub struct ControllersReady {
    pub background_controller: bool,
    pub character_controller: bool,
    pub chat_controller: bool,
    pub state: SabiState,
}

/// Whether some of the messages come from the subsystem.
pub open spec fn reported(msgs: Seq<ControllerReadyMessage>, c: Controller) -> bool {
    exists|i: int| 0 <= i < msgs.len() && (#[trigger] msgs[i]).0 == c
}

impl ControllersReady {
    /// No subsystem has reported and the runtime waits.
    pub fn new() -> (r: ControllersReady)
        ensures
            !r.background_controller && !r.character_controller && !r.chat_controller,
            r.state == SabiState::WaitingForControllers,
    {
        ControllersReady {
            background_controller: false,
            character_controller: false,
            chat_controller: false,
            state: SabiState::WaitingForControllers,
        }
    }

    /// Records the readiness messages of one tick while the runtime waits. Once every
    /// subsystem has reported, the runtime runs and the start signal is given, once.
    pub fn check_states(&mut self, msgs: &Vec<ControllerReadyMessage>) -> (r: Option<
        TriggerControllersMessage,
    >)
        ensures
            old(self).state == SabiState::Running ==> *final(self) == *old(self) && r is None,
            old(self).state == SabiState::WaitingForControllers ==> {
                &&& final(self).background_controller == (old(self).background_controller
                    || reported(msgs@, Controller::Background))
                &&& final(self).character_controller == (old(self).character_controller
                    || reported(msgs@, Controller::Character))
                &&& final(self).chat_controller == (old(self).chat_controller || reported(
                    msgs@,
                    Controller::Chat,
                ))
                &&& r is Some <==> (final(self).background_controller
                    && final(self).character_controller && final(self).chat_controller)
                &&& final(self).state == (if r is Some {
                    SabiState::Running
                } else {
                    SabiState::WaitingForControllers
                })
            },
    {
        if self.state == SabiState::Running {
            return None;
        }
        let mut k: usize = 0;
        while k < msgs.len()
            invariant
                k <= msgs@.len(),
                self.state == old(self).state,
                self.background_controller == (old(self).background_controller || reported(
                    msgs@.take(k as int),
                    Controller::Background,
                )),
                self.character_controller == (old(self).character_controller || reported(
                    msgs@.take(k as int),
                    Controller::Character,
                )),
                self.chat_controller == (old(self).chat_controller || reported(
                    msgs@.take(k as int),
                    Controller::Chat,
                )),
            decreases msgs@.len() - k,
        {
            let ghost prefix = msgs@.take(k as int);
            let ghost next = msgs@.take(k + 1);
            assert(next[k as int] == msgs@[k as int]);
            assert forall|c: Controller| reported(next, c) == (reported(prefix, c) || msgs@[k as int].0 == c) by {
                if reported(prefix, c) {
                    let i = choose|i: int| 0 <= i < prefix.len() && (#[trigger] prefix[i]).0 == c;
                    assert(next[i] == prefix[i]);
                }
                if reported(next, c) && !(msgs@[k as int].0 == c) {
                    let i = choose|i: int| 0 <= i < next.len() && (#[trigger] next[i]).0 == c;
                    assert(prefix[i] == next[i]);
                }
            }
            match msgs[k].0 {
                Controller::Background => self.background_controller = true,
                Controller::Character => self.character_controller = true,
                Controller::Chat => self.chat_controller = true,
            }
            k = k + 1;
        }
        assert(msgs@.take(msgs@.len() as int) =~= msgs@);
        if self.background_controller && self.character_controller && self.chat_controller {
            self.state = SabiState::Running;
            Some(TriggerControllersMessage)
        } else {
            None
        }
    }
}

} // verus!
