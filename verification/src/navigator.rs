use vstd::prelude::*;

verus! {

use crate::error::Error;
use crate::msg::{Message, MessageModel, WindowMessage, WindowMessageModel};
use crate::parser::{VK_LEFT, VK_RIGHT};

/// The control command that jumps to the address bar of the registry editor.
pub const CMD_JUMP_TO_ADDRESS_BAR: u32 = 0x10288;

/// Where a navigation stands. The pipeline is
/// Locating → (Launching) → Focusing → Collapsing → Typing → Done, with one
/// bounded retry loop between Locating and Launching and no other
/// backtracking.
#[derive(Clone, Copy, Debug, PartialEq, Eq, Structural)]
pub enum NavState {
    /// Asking the locator for the target window.
    Locating,
    /// Waiting for a fresh launch of the target application to settle.
    Launching,
    /// Bringing the target's tree view to the foreground and focusing it.
    Focusing,
    /// Resetting the tree to a known root with collapse key presses.
    Collapsing,
    /// Typing the destination path into the tree.
    Typing,
    /// The navigation succeeded.
    Done,
    /// The navigation failed; the navigator's error says why.
    Failed,
}

/// What the surrounding loop reports back after carrying out an action.
#[derive(Clone, Copy, Debug, PartialEq, Eq)]
pub enum NavEvent {
    /// The locator found the target window.
    WindowFound,
    /// The locator found no matching window.
    WindowMissing,
    /// The launcher started the target application.
    Launched,
    /// Foreground and focus both succeeded.
    FocusOk,
    /// The current batch of messages was delivered in full.
    SendOk,
    /// The step failed; the navigation ends with this error.
    StepFailed(Error),
}

/// What the surrounding loop must do next. The loop performs the action
/// against the OS and reports the outcome as the next event.
#[derive(Clone, Copy, Debug, PartialEq, Eq, Structural)]
pub enum NavAction {
    /// Query the locator for the target window by class name.
    Locate,
    /// Launch the target application and wait its settle time.
    Launch,
    /// Bring the target's tree view to the foreground and give it focus.
    Focus,
    /// Deliver the collapse batch to the target.
    SendCollapse,
    /// Deliver the path-typing batch to the target.
    SendTyping,
    /// Nothing: the navigation is over, or the event was not the answer to
    /// the pending action.
    Idle,
}

/// One navigation request: the current state and the launch-retry budget.
/// Retrying is owned here and nowhere else — the locator and the dispatcher
/// never retry internally.
#[derive(Clone, Copy, Debug, PartialEq, Eq)]
pub struct Navigator {
    pub state: NavState,
    /// Launches used so far.
    pub attempts: u32,
    /// Launches allowed in all.
    pub max_attempts: u32,
    /// Why the navigation failed, once it has.
    pub error: Option<Error>,
}

/// What one event does to a navigation. A terminal navigation never moves
/// again; a failure event is terminal in every state; an event that is not
/// the answer to the pending action changes nothing.
pub open spec fn spec_step(n: Navigator, ev: NavEvent) -> (Navigator, NavAction) {
    if n.state is Done || n.state is Failed {
        (n, NavAction::Idle)
    } else {
        match ev {
            NavEvent::StepFailed(e) => (
                Navigator { state: NavState::Failed, error: Some(e), ..n },
                NavAction::Idle,
            ),
            _ => match n.state {
                NavState::Locating => match ev {
                    NavEvent::WindowFound => (
                        Navigator { state: NavState::Focusing, ..n },
                        NavAction::Focus,
                    ),
                    NavEvent::WindowMissing => if n.attempts < n.max_attempts {
                        (
                            Navigator {
                                state: NavState::Launching,
                                attempts: (n.attempts + 1) as u32,
                                ..n
                            },
                            NavAction::Launch,
                        )
                    } else {
                        (
                            Navigator {
                                state: NavState::Failed,
                                error: Some(Error::TargetUnreachable),
                                ..n
                            },
                            NavAction::Idle,
                        )
                    },
                    _ => (n, NavAction::Idle),
                },
                NavState::Launching => match ev {
                    NavEvent::Launched => (
                        Navigator { state: NavState::Locating, ..n },
                        NavAction::Locate,
                    ),
                    _ => (n, NavAction::Idle),
                },
                NavState::Focusing => match ev {
                    NavEvent::FocusOk => (
                        Navigator { state: NavState::Collapsing, ..n },
                        NavAction::SendCollapse,
                    ),
                    _ => (n, NavAction::Idle),
                },
                NavState::Collapsing => match ev {
                    NavEvent::SendOk => (
                        Navigator { state: NavState::Typing, ..n },
                        NavAction::SendTyping,
                    ),
                    _ => (n, NavAction::Idle),
                },
                NavState::Typing => match ev {
                    NavEvent::SendOk => (
                        Navigator { state: NavState::Done, ..n },
                        NavAction::Idle,
                    ),
                    _ => (n, NavAction::Idle),
                },
                _ => (n, NavAction::Idle),
            },
        }
    }
}

impl Navigator {
    /// A navigation ready to start: locating, with `max_attempts` launches
    /// allowed before the target counts as unreachable.
    pub fn new(max_attempts: u32) -> (r: Navigator)
        ensures
            r.state == NavState::Locating,
            r.attempts == 0,
            r.max_attempts == max_attempts,
            r.error is None,
    {
        Navigator { state: NavState::Locating, attempts: 0, max_attempts, error: None }
    }

    /// Whether the navigation is over, well or badly.
    pub fn is_terminal(&self) -> (r: bool)
        ensures
            r == (self.state is Done || self.state is Failed),
    {
        match self.state {
            NavState::Done => true,
            NavState::Failed => true,
            _ => false,
        }
    }

    /// Advances by one event and returns the action the driver must take
    /// next. The transition is exactly `spec_step`.
    pub fn step(&mut self, ev: NavEvent) -> (a: NavAction)
        ensures
            (*final(self), a) == spec_step(*old(self), ev),
    {
        match self.state {
            NavState::Done => NavAction::Idle,
            NavState::Failed => NavAction::Idle,
            _ => match ev {
                NavEvent::StepFailed(e) => {
                    self.state = NavState::Failed;
                    self.error = Some(e);
                    NavAction::Idle
                },
                _ => match self.state {
                    NavState::Locating => match ev {
                        NavEvent::WindowFound => {
                            self.state = NavState::Focusing;
                            NavAction::Focus
                        },
                        NavEvent::WindowMissing => {
                            if self.attempts < self.max_attempts {
                                self.state = NavState::Launching;
                                self.attempts = self.attempts + 1;
                                NavAction::Launch
                            } else {
                                self.state = NavState::Failed;
                                self.error = Some(Error::TargetUnreachable);
                                NavAction::Idle
                            }
                        },
                        _ => NavAction::Idle,
                    },
                    NavState::Launching => match ev {
                        NavEvent::Launched => {
                            self.state = NavState::Locating;
                            NavAction::Locate
                        },
                        _ => NavAction::Idle,
                    },
                    NavState::Focusing => match ev {
                        NavEvent::FocusOk => {
                            self.state = NavState::Collapsing;
                            NavAction::SendCollapse
                        },
                        _ => NavAction::Idle,
                    },
                    NavState::Collapsing => match ev {
                        NavEvent::SendOk => {
                            self.state = NavState::Typing;
                            NavAction::SendTyping
                        },
                        _ => NavAction::Idle,
                    },
                    NavState::Typing => match ev {
                        NavEvent::SendOk => {
                            self.state = NavState::Done;
                            NavAction::Idle
                        },
                        _ => NavAction::Idle,
                    },
                    _ => NavAction::Idle,
                },
            },
        }
    }
}

// ---------------------------------------------------------------------------
// The retry bound
// ---------------------------------------------------------------------------
/// The actions a run of events makes the driver take, in order.
pub open spec fn run_actions(n: Navigator, evs: Seq<NavEvent>) -> Seq<NavAction>
    decreases evs.len(),
{
    if evs.len() == 0 {
        Seq::empty()
    } else {
        let (n2, a) = spec_step(n, evs[0]);
        seq![a] + run_actions(n2, evs.skip(1))
    }
}

/// Where a run of events leaves the navigation.
pub open spec fn run_nav(n: Navigator, evs: Seq<NavEvent>) -> Navigator
    decreases evs.len(),
{
    if evs.len() == 0 {
        n
    } else {
        run_nav(spec_step(n, evs[0]).0, evs.skip(1))
    }
}

pub open spec fn count_launches(acts: Seq<NavAction>) -> nat
    decreases acts.len(),
{
    if acts.len() == 0 {
        0
    } else {
        (if acts[0] is Launch {
            1nat
        } else {
            0nat
        }) + count_launches(acts.skip(1))
    }
}

/// Retry bound: however the events fall, a navigation launches the target at
/// most as often as its remaining budget allows. In particular a fresh
/// navigation launches at most `max_attempts` times before every further
/// locate failure is terminal.
pub proof fn lemma_launch_bound(n: Navigator, evs: Seq<NavEvent>)
    requires
        n.attempts <= n.max_attempts,
    ensures
        count_launches(run_actions(n, evs)) <= n.max_attempts - n.attempts,
    decreases evs.len(),
{
    if evs.len() > 0 {
        let (n2, a) = spec_step(n, evs[0]);
        let rest = run_actions(n2, evs.skip(1));
        assert(run_actions(n, evs) == seq![a] + rest);
        assert((seq![a] + rest)[0] == a);
        assert((seq![a] + rest).skip(1) =~= rest);
        assert(n2.max_attempts == n.max_attempts);
        if a is Launch {
            assert(n.attempts < n.max_attempts);
            assert(n2.attempts == n.attempts + 1);
        } else {
            assert(n2.attempts == n.attempts);
        }
        lemma_launch_bound(n2, evs.skip(1));
    }
}

/// Exhaustion is terminal: a locate failure with the launch budget spent
/// fails the navigation with `TargetUnreachable`, and a terminal navigation
/// never moves again.
pub proof fn lemma_exhausted_fails(n: Navigator)
    requires
        n.state is Locating,
        n.attempts == n.max_attempts,
    ensures
        spec_step(n, NavEvent::WindowMissing).0.state is Failed,
        spec_step(n, NavEvent::WindowMissing).0.error == Some(Error::TargetUnreachable),
        forall|ev: NavEvent|
            spec_step(#[trigger] spec_step(n, NavEvent::WindowMissing).0, ev).0 == spec_step(
                n,
                NavEvent::WindowMissing,
            ).0,
{
}

// ---------------------------------------------------------------------------
// The batches the navigator sends
// ---------------------------------------------------------------------------
/// The collapse batch: one jump to the address bar, then `collapse_count`
/// presses of the collapse key to reset the tree to a known root.
pub open spec fn collapse_messages_model(collapse_count: u32) -> Seq<MessageModel> {
    seq![
        MessageModel { msg: WindowMessageModel::Command(CMD_JUMP_TO_ADDRESS_BAR), count: 1u32 },
        MessageModel { msg: WindowMessageModel::KeyDown(VK_LEFT), count: collapse_count },
    ]
}

pub fn collapse_messages(collapse_count: u32) -> (r: Vec<Message>)
    ensures
        r.deep_view() == collapse_messages_model(collapse_count),
{
    let mut r: Vec<Message> = Vec::new();
    r.push(Message { msg: WindowMessage::Command(CMD_JUMP_TO_ADDRESS_BAR), count: 1 });
    r.push(Message { msg: WindowMessage::KeyDown(VK_LEFT), count: collapse_count });
    proof {
        assert(r.deep_view() =~= collapse_messages_model(collapse_count));
    }
    r
}

/// The typing batch: one message per character of the destination path, in
/// path order — a descend key for each path separator, the literal character
/// for every other character, each delivered once.
pub open spec fn typing_message_at(path: Seq<char>, i: int) -> MessageModel {
    if path[i] == '\\' {
        MessageModel { msg: WindowMessageModel::KeyDown(VK_RIGHT), count: 1u32 }
    } else {
        MessageModel { msg: WindowMessageModel::Char(path[i]), count: 1u32 }
    }
}

pub open spec fn typing_messages_model(path: Seq<char>) -> Seq<MessageModel> {
    Seq::new(path.len(), |i: int| typing_message_at(path, i))
}

pub fn typing_messages(path: &str) -> (r: Vec<Message>)
    ensures
        r.deep_view() == typing_messages_model(path@),
{
    let n = path.unicode_len();
    let mut r: Vec<Message> = Vec::new();
    let mut i: usize = 0;
    while i < n
        invariant
            i <= n,
            n == path@.len(),
            r.deep_view().len() == i as nat,
            forall|k: int| 0 <= k < i as int ==> r.deep_view()[k] == typing_messages_model(
                path@,
            )[k],
        decreases n - i,
    {
        let ghost prev = r@;
        let ghost prev_dv = r.deep_view();
        let c = path.get_char(i);
        let m: Message = if c == '\\' {
            Message { msg: WindowMessage::KeyDown(VK_RIGHT), count: 1 }
        } else {
            Message { msg: WindowMessage::Char(c), count: 1 }
        };
        proof {
            assert(path@[i as int] == c);
            assert(m@ == typing_messages_model(path@)[i as int]);
        }
        r.push(m);
        proof {
            assert(r@.len() == i + 1);
            assert(r@[i as int]@ == typing_messages_model(path@)[i as int]);
            assert forall|k: int| 0 <= k < i + 1 implies r.deep_view()[k] == typing_messages_model(
                path@,
            )[k] by {
                assert(r.deep_view()[k] == r@[k]@);
                if k < i as int {
                    assert(r@[k] == prev[k]);
                    assert(prev_dv[k] == prev[k]@);
                    assert(prev_dv[k] == typing_messages_model(path@)[k]);
                }
            }
        }
        i = i + 1;
    }
    proof {
        assert(r.deep_view() =~= typing_messages_model(path@));
    }
    r
}

} // verus!
