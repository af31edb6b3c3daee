//! The watch over the uplink: what is done after each observation, and how
//! long a reconnection waits after failures.
//!
//! The watch itself neither sleeps nor runs anything. It is told what was
//! observed and answers with what is to be done next; whoever drives it
//! does that and comes back with the next observation.

use vstd::prelude::*;

verus! {

/// The seconds between two looks at the uplink.
pub const POLL_INTERVAL: u64 = 30;

/// The highest backoff index: the table of delays has one entry more.
pub const LAST_BACKOFF: usize = 3;

/// The table of delays, in seconds: how long a reconnection waits, by the
/// number of failures before it.
pub open spec fn backoff_delays() -> Seq<u64> {
    seq![5, 10, 20, 30]
}

/// The delay for a backoff index; past the end of the table it is the last
/// entry.
pub open spec fn delay_for(index: usize) -> u64 {
    if index < backoff_delays().len() {
        backoff_delays()[index as int]
    } else {
        30
    }
}

/// The delay for a backoff index: see [`delay_for`].
pub fn backoff_delay(index: usize) -> (d: u64)
    ensures
        d == delay_for(index),
{
    if index == 0 {
        5
    } else if index == 1 {
        10
    } else if index == 2 {
        20
    } else {
        30
    }
}

/// What the watch waits for.
#[derive(Clone, Copy, Debug, PartialEq, Eq, Structural)]
pub enum Awaiting {
    /// The state of the uplink.
    Status,
    /// The credentials that were stored, if any were.
    Credentials,
    /// The outcome of an attempt to reconnect.
    ConnectResult,
}

/// The state of the watch.
#[derive(Clone, Copy, Debug, PartialEq, Eq, Structural)]
pub struct MonitorState {
    /// The index into the table of delays.
    pub backoff_index: usize,
    /// Whether the uplink was connected when it was last known.
    pub was_connected: bool,
    pub awaiting: Awaiting,
}

/// What was observed.
#[derive(Debug)]
pub enum MonitorEvent {
    /// The state of the uplink: connected or not.
    Status(bool),
    /// The state of the uplink could not be found out.
    StatusUnknown,
    /// The credentials that are stored: network and passphrase.
    Credentials(Option<(String, String)>),
    /// An attempt to reconnect ended, well or badly.
    ConnectResult(bool),
}

/// What a [`MonitorEvent`] holds.
pub enum EventView {
    Status(bool),
    StatusUnknown,
    Credentials(Option<(Seq<char>, Seq<char>)>),
    ConnectResult(bool),
}

impl View for MonitorEvent {
    type V = EventView;

    open spec fn view(&self) -> EventView {
        match *self {
            MonitorEvent::Status(c) => EventView::Status(c),
            MonitorEvent::StatusUnknown => EventView::StatusUnknown,
            MonitorEvent::Credentials(None) => EventView::Credentials(None),
            MonitorEvent::Credentials(Some(p)) => EventView::Credentials(Some((p.0@, p.1@))),
            MonitorEvent::ConnectResult(ok) => EventView::ConnectResult(ok),
        }
    }
}

/// What is to be done next.
#[derive(Debug)]
pub enum MonitorAction {
    /// Wait so many seconds, then look at the uplink and report its state.
    Poll(u64),
    /// Copy the stored credentials out of their cell, holding its lock no
    /// longer than that takes, and report them.
    ReadCredentials,
    /// Wait so many seconds, then try to join the network with the
    /// passphrase, and report the outcome.
    Reconnect { delay: u64, ssid: String, password: String },
}

/// What a [`MonitorAction`] holds.
pub enum ActionView {
    Poll(u64),
    ReadCredentials,
    Reconnect { delay: u64, ssid: Seq<char>, password: Seq<char> },
}

impl View for MonitorAction {
    type V = ActionView;

    open spec fn view(&self) -> ActionView {
        match *self {
            MonitorAction::Poll(s) => ActionView::Poll(s),
            MonitorAction::ReadCredentials => ActionView::ReadCredentials,
            MonitorAction::Reconnect { delay, ssid, password } => ActionView::Reconnect {
                delay,
                ssid: ssid@,
                password: password@,
            },
        }
    }
}

/// What is worth a line in the log. No notice carries a passphrase.
#[derive(Clone, Copy, Debug, PartialEq, Eq, Structural)]
pub enum Notice {
    /// The uplink is connected and was not before.
    Connected,
    /// The uplink is not connected and was before.
    Disconnected,
    /// The state of the uplink could not be found out.
    StatusUnknown,
    /// The uplink is down and no credentials are stored: nothing is tried.
    NoCredentials,
    /// A reconnection is tried after so many seconds.
    Reconnecting(u64),
    ReconnectSucceeded,
    ReconnectFailed,
    /// Something was reported that the watch was not waiting for.
    Unexpected,
}

/// The backoff index after a failed attempt: one more, but never past the
/// end of the table.
pub open spec fn index_after_failure(index: usize) -> usize {
    if index < LAST_BACKOFF {
        (index + 1) as usize
    } else {
        index
    }
}

/// The state, the action and the notices that follow an observation.
///
/// * Connected: the index goes back to 0 if the uplink was down before; the
///   uplink is looked at again after the poll interval.
/// * Not connected: the stored credentials are asked for.
/// * No credentials: nothing is tried; the uplink is looked at again.
/// * Credentials: a reconnection is tried after the delay that the index
///   gives.
/// * Reconnection succeeded: the index goes back to 0.
/// * Reconnection failed: the index goes up by one, up to the last index.
/// * An observation that was not waited for changes nothing but what is
///   waited for: the uplink is looked at again.
pub open spec fn next(s: MonitorState, e: EventView) -> (MonitorState, ActionView, Seq<Notice>) {
    let poll = ActionView::Poll(POLL_INTERVAL);
    match (s.awaiting, e) {
        (Awaiting::Status, EventView::Status(true)) => (
            MonitorState {
                backoff_index: if s.was_connected {
                    s.backoff_index
                } else {
                    0
                },
                was_connected: true,
                awaiting: Awaiting::Status,
            },
            poll,
            if s.was_connected {
                Seq::empty()
            } else {
                seq![Notice::Connected]
            },
        ),
        (Awaiting::Status, EventView::Status(false)) => (
            MonitorState { was_connected: false, awaiting: Awaiting::Credentials, ..s },
            ActionView::ReadCredentials,
            if s.was_connected {
                seq![Notice::Disconnected]
            } else {
                Seq::empty()
            },
        ),
        (Awaiting::Status, EventView::StatusUnknown) => (s, poll, seq![Notice::StatusUnknown]),
        (Awaiting::Credentials, EventView::Credentials(None)) => (
            MonitorState { awaiting: Awaiting::Status, ..s },
            poll,
            seq![Notice::NoCredentials],
        ),
        (Awaiting::Credentials, EventView::Credentials(Some(c))) => (
            MonitorState { awaiting: Awaiting::ConnectResult, ..s },
            ActionView::Reconnect { delay: delay_for(s.backoff_index), ssid: c.0, password: c.1 },
            seq![Notice::Reconnecting(delay_for(s.backoff_index))],
        ),
        (Awaiting::ConnectResult, EventView::ConnectResult(true)) => (
            MonitorState { backoff_index: 0, was_connected: true, awaiting: Awaiting::Status },
            poll,
            seq![Notice::ReconnectSucceeded],
        ),
        (Awaiting::ConnectResult, EventView::ConnectResult(false)) => (
            MonitorState {
                backoff_index: index_after_failure(s.backoff_index),
                awaiting: Awaiting::Status,
                ..s
            },
            poll,
            seq![Notice::ReconnectFailed],
        ),
        _ => (MonitorState { awaiting: Awaiting::Status, ..s }, poll, seq![Notice::Unexpected]),
    }
}

/// What the watch answers an observation with.
#[derive(Debug)]
pub struct Step {
    pub action: MonitorAction,
    pub notices: Vec<Notice>,
}

impl MonitorState {
    /// The backoff index is within the table of delays.
    pub open spec fn wf(&self) -> bool {
        self.backoff_index <= LAST_BACKOFF
    }

    /// Takes an observation and says what is to be done next: see [`next`].
    pub fn step(&mut self, event: MonitorEvent) -> (r: Step)
        ensures
            *final(self) == next(*old(self), event@).0,
            r.action@ == next(*old(self), event@).1,
            r.notices@ == next(*old(self), event@).2,
            old(self).wf() ==> final(self).wf(),
    {
        let mut notices: Vec<Notice> = Vec::new();
        let action = match (self.awaiting, event) {
            (Awaiting::Status, MonitorEvent::Status(true)) => {
                if !self.was_connected {
                    notices.push(Notice::Connected);
                    self.backoff_index = 0;
                    self.was_connected = true;
                }
                MonitorAction::Poll(POLL_INTERVAL)
            },
            (Awaiting::Status, MonitorEvent::Status(false)) => {
                if self.was_connected {
                    notices.push(Notice::Disconnected);
                    self.was_connected = false;
                }
                self.awaiting = Awaiting::Credentials;
                MonitorAction::ReadCredentials
            },
            (Awaiting::Status, MonitorEvent::StatusUnknown) => {
                notices.push(Notice::StatusUnknown);
                MonitorAction::Poll(POLL_INTERVAL)
            },
            (Awaiting::Credentials, MonitorEvent::Credentials(None)) => {
                notices.push(Notice::NoCredentials);
                self.awaiting = Awaiting::Status;
                MonitorAction::Poll(POLL_INTERVAL)
            },
            (Awaiting::Credentials, MonitorEvent::Credentials(Some(c))) => {
                let delay = backoff_delay(self.backoff_index);
                notices.push(Notice::Reconnecting(delay));
                self.awaiting = Awaiting::ConnectResult;
                MonitorAction::Reconnect { delay, ssid: c.0, password: c.1 }
            },
            (Awaiting::ConnectResult, MonitorEvent::ConnectResult(true)) => {
                notices.push(Notice::ReconnectSucceeded);
                self.backoff_index = 0;
                self.was_connected = true;
                self.awaiting = Awaiting::Status;
                MonitorAction::Poll(POLL_INTERVAL)
            },
            (Awaiting::ConnectResult, MonitorEvent::ConnectResult(false)) => {
                notices.push(Notice::ReconnectFailed);
                if self.backoff_index < LAST_BACKOFF {
                    self.backoff_index += 1;
                }
                self.awaiting = Awaiting::Status;
                MonitorAction::Poll(POLL_INTERVAL)
            },
            _ => {
                notices.push(Notice::Unexpected);
                self.awaiting = Awaiting::Status;
                MonitorAction::Poll(POLL_INTERVAL)
            },
        };
        assert(notices@ =~= next(*old(self), event@).2);
        Step { action, notices }
    }
}

/// The state in which the watch starts, and the first thing to do: the
/// index is 0, the uplink counts as down, and the uplink is looked at
/// after the poll interval.
pub fn start_monitor() -> (r: (MonitorState, MonitorAction))
    ensures
        r.0 == (MonitorState { backoff_index: 0, was_connected: false, awaiting: Awaiting::Status }),
        r.0.wf(),
        r.1@ == ActionView::Poll(POLL_INTERVAL),
{
    (
        MonitorState { backoff_index: 0, was_connected: false, awaiting: Awaiting::Status },
        MonitorAction::Poll(POLL_INTERVAL),
    )
}

/// The backoff index after attempts to reconnect that ended as `outcomes`
/// says, one after the other.
pub open spec fn index_after(index: usize, outcomes: Seq<bool>) -> usize
    decreases outcomes.len(),
{
    if outcomes.len() == 0 {
        index
    } else if outcomes.last() {
        0
    } else {
        index_after_failure(index_after(index, outcomes.drop_last()))
    }
}

/// One attempt to reconnect moves the backoff index as [`index_after`]
/// says: the watch, waiting for the outcome of an attempt, goes from index
/// `i` to `index_after(i, [ok])`.
pub proof fn lemma_step_moves_index(s: MonitorState, ok: bool)
    requires
        s.awaiting == Awaiting::ConnectResult,
    ensures
        next(s, EventView::ConnectResult(ok)).0.backoff_index == index_after(
            s.backoff_index,
            seq![ok],
        ),
{
    assert(seq![ok].drop_last() =~= Seq::<bool>::empty());
    assert(index_after(s.backoff_index, Seq::<bool>::empty()) == s.backoff_index);
}

/// Across failures in a row the backoff index never goes down and never
/// passes the last index of the table: after `n` failures it is the index
/// before them plus `n`, or the last index where that is less. Right after
/// a success it is 0, whatever came before.
pub proof fn lemma_backoff(index: usize, outcomes: Seq<bool>)
    requires
        index <= LAST_BACKOFF,
    ensures
        index_after(index, outcomes) <= LAST_BACKOFF,
        (forall|i: int| 0 <= i < outcomes.len() ==> !outcomes[i]) ==> index_after(index, outcomes)
            >= index && index_after(index, outcomes) == if index + outcomes.len()
            <= LAST_BACKOFF {
            index + outcomes.len()
        } else {
            LAST_BACKOFF as int
        },
        outcomes.len() > 0 && outcomes.last() ==> index_after(index, outcomes) == 0,
        outcomes.len() > 0 && !outcomes.last() ==> index_after(index, outcomes) >= index_after(
            index,
            outcomes.drop_last(),
        ),
    decreases outcomes.len(),
{
    if outcomes.len() > 0 {
        lemma_backoff(index, outcomes.drop_last());
        if forall|i: int| 0 <= i < outcomes.len() ==> !outcomes[i] {
            assert forall|i: int| 0 <= i < outcomes.drop_last().len() implies !outcomes.drop_last()[i] by {
                assert(outcomes.drop_last()[i] == outcomes[i]);
            }
        }
    }
}

/// Whatever is observed, the backoff index stays within the table.
pub proof fn lemma_index_stays_in_table(s: MonitorState, e: EventView)
    requires
        s.wf(),
    ensures
        next(s, e).0.wf(),
{
}

} // verus!
