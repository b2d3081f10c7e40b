use vstd::prelude::*;

verus! {

/// The two states of the handshake between the thread that receives key
/// presses and a caller waiting for a combo.
#[derive(Copy, Clone, Debug, PartialEq, Eq, Hash, Structural)]
pub enum ListenerState {
    /// The receiving thread is suspended until resumed.
    Idle,
    /// The receiving thread delivers presses and watches for the terminator.
    Armed,
}

/// What happens to the handshake.
#[derive(Copy, Clone, Debug, PartialEq, Eq, Hash, Structural)]
pub enum ListenerEvent {
    /// A caller asks to listen for a combo.
    Listen,
    /// The receiving thread saw the terminator.
    Terminator,
    /// The waiting caller looks at the state again.
    Poll,
}

/// What the side that handled the event does next.
#[derive(Copy, Clone, Debug, PartialEq, Eq, Hash, Structural)]
pub enum ListenerAction {
    /// Resume the receiving thread.
    ResumeTap,
    /// Stamp the end of recording and suspend the receiving thread.
    SuspendTap,
    /// Wait one poll interval, then poll again.
    Sleep,
    /// The combo is complete: drain the buffered symbols.
    Drain,
    /// Nothing to do.
    Stay,
}

/// The transition table of the handshake.
pub open spec fn transition(s: ListenerState, e: ListenerEvent) -> (ListenerState, ListenerAction) {
    match (s, e) {
        (ListenerState::Idle, ListenerEvent::Listen) => (ListenerState::Armed, ListenerAction::ResumeTap),
        (ListenerState::Armed, ListenerEvent::Listen) => (ListenerState::Armed, ListenerAction::Stay),
        (ListenerState::Armed, ListenerEvent::Terminator) => (
            ListenerState::Idle,
            ListenerAction::SuspendTap,
        ),
        (ListenerState::Idle, ListenerEvent::Terminator) => (ListenerState::Idle, ListenerAction::Stay),
        (ListenerState::Armed, ListenerEvent::Poll) => (ListenerState::Armed, ListenerAction::Sleep),
        (ListenerState::Idle, ListenerEvent::Poll) => (ListenerState::Idle, ListenerAction::Drain),
    }
}

impl ListenerState {
    /// Whether the receiving thread is armed, as the shared flag holds it.
    pub fn is_armed(self) -> (r: bool)
        ensures
            r == (self == ListenerState::Armed),
    {
        match self {
            ListenerState::Idle => false,
            ListenerState::Armed => true,
        }
    }

    /// The state that the shared flag `armed` stands for.
    pub fn from_flag(armed: bool) -> (r: ListenerState)
        ensures
            armed ==> r == ListenerState::Armed,
            !armed ==> r == ListenerState::Idle,
    {
        if armed {
            ListenerState::Armed
        } else {
            ListenerState::Idle
        }
    }

    /// The next state and the action to take, by [`transition`].
    pub fn step(self, e: ListenerEvent) -> (r: (ListenerState, ListenerAction))
        ensures
            r == transition(self, e),
    {
        match (self, e) {
            (ListenerState::Idle, ListenerEvent::Listen) => (ListenerState::Armed, ListenerAction::ResumeTap),
            (ListenerState::Armed, ListenerEvent::Listen) => (ListenerState::Armed, ListenerAction::Stay),
            (ListenerState::Armed, ListenerEvent::Terminator) => (
                ListenerState::Idle,
                ListenerAction::SuspendTap,
            ),
            (ListenerState::Idle, ListenerEvent::Terminator) => (ListenerState::Idle, ListenerAction::Stay),
            (ListenerState::Armed, ListenerEvent::Poll) => (ListenerState::Armed, ListenerAction::Sleep),
            (ListenerState::Idle, ListenerEvent::Poll) => (ListenerState::Idle, ListenerAction::Drain),
        }
    }
}

/// Each call to listen runs the handshake once round: a request arms it, the
/// caller sleeps while it stays armed, the terminator disarms it, and the
/// next poll drains.
pub proof fn lemma_listen_cycle()
    ensures
        transition(ListenerState::Idle, ListenerEvent::Listen) == (
            ListenerState::Armed,
            ListenerAction::ResumeTap,
        ),
        transition(ListenerState::Armed, ListenerEvent::Poll).1 == ListenerAction::Sleep,
        transition(ListenerState::Armed, ListenerEvent::Terminator) == (
            ListenerState::Idle,
            ListenerAction::SuspendTap,
        ),
        transition(ListenerState::Idle, ListenerEvent::Poll).1 == ListenerAction::Drain,
        forall|e: ListenerEvent|
            e != ListenerEvent::Terminator ==> transition(ListenerState::Armed, e).0
                == ListenerState::Armed,
{
}

} // verus!
