//! The serving side, as a state machine.
//!
//! The loop that polls, dispatches and sleeps belongs to the program that
//! embeds this library: it reads the request buffer, hands what it read to
//! [`Daemon::on_read`], performs the action that comes back (a call into
//! the dispatcher, or a sleep), and reports the outcome of a call to
//! [`Daemon::on_outcome`], which gives it the frame to write. All decisions
//! are taken here; no call into the dispatcher and no sleep is.

use crate::error::IpcError;
use crate::protocol::{
    call_in, deserialize_call, encodable, encoding, serialize_error, serialize_response, Envelope,
};
use crate::position::advance;
use crate::queue::{accepts, after_read, read_result, send_refusal};
use crate::ring_buffer::{RingBuffer, Utilization};
use crate::values::msgpack_bytes;
use vstd::prelude::*;

verus! {

/// The shortest delay between two polls of an empty buffer, in
/// microseconds.
pub const MIN_BACKOFF_MICROS: u64 = 1;

/// The longest delay between two polls of an empty buffer, in
/// microseconds.
pub const MAX_BACKOFF_MICROS: u64 = 100;

/// The pause after a transport error, in microseconds.
pub const ERROR_PAUSE_MICROS: u64 = 10_000;

/// Seconds between two reports of the statistics.
pub const STATS_INTERVAL_SECS: u64 = 60;

/// The delay that follows `delay`: twice as long, up to the ceiling.
pub open spec fn doubled(delay: int) -> int {
    if 2 * delay <= MAX_BACKOFF_MICROS {
        2 * delay
    } else {
        MAX_BACKOFF_MICROS as int
    }
}

/// The delay slept at the poll that found the buffer empty for the
/// `n + 1`-th time in a row.
pub open spec fn delay_after(n: nat) -> int
    decreases n,
{
    if n == 0 {
        MIN_BACKOFF_MICROS as int
    } else {
        doubled(delay_after((n - 1) as nat))
    }
}

/// The delays of consecutive empty polls never shrink and never go over
/// the ceiling: they start at the floor and each is at least as long as
/// the one before it.
pub proof fn lemma_backoff_monotone(n: nat)
    ensures
        MIN_BACKOFF_MICROS <= delay_after(n) <= MAX_BACKOFF_MICROS,
        delay_after(n) <= delay_after(n + 1),
    decreases n,
{
    if n > 0 {
        lemma_backoff_monotone((n - 1) as nat);
    }
    assert(delay_after(n + 1) == doubled(delay_after(n)));
}

/// The delays of any two empty polls in a row of them are in order.
pub proof fn lemma_backoff_ordered(m: nat, n: nat)
    requires
        m <= n,
    ensures
        delay_after(m) <= delay_after(n),
    decreases n - m,
{
    if m < n {
        lemma_backoff_monotone(m);
        lemma_backoff_ordered(m + 1, n);
    }
}

/// The delay between polls of an empty buffer: it grows while the buffer
/// stays empty and falls back to the floor when something was read.
pub struct Backoff {
    micros: u64,
    empties: Ghost<nat>,
}

impl Backoff {
    /// How many polls in a row have found the buffer empty.
    pub closed spec fn empties(&self) -> nat {
        self.empties@
    }

    /// The delay that the next empty poll sleeps, in microseconds.
    pub closed spec fn view(&self) -> u64 {
        self.micros
    }

    /// The delay is the one that belongs to the number of empty polls.
    pub closed spec fn wf(&self) -> bool {
        self.micros as int == delay_after(self.empties@)
    }

    /// A backoff at the floor.
    pub fn new() -> (b: Backoff)
        ensures
            b.wf(),
            b.empties() == 0,
            b@ == MIN_BACKOFF_MICROS,
    {
        Backoff { micros: MIN_BACKOFF_MICROS, empties: Ghost(0) }
    }

    /// The delay that the next empty poll sleeps, in microseconds.
    pub fn current(&self) -> (micros: u64)
        ensures
            micros == self@,
    {
        self.micros
    }

    /// The buffer was empty: gives the delay to sleep now and doubles the
    /// next one, up to the ceiling.
    pub fn on_empty(&mut self) -> (micros: u64)
        requires
            old(self).wf(),
        ensures
            final(self).wf(),
            micros == old(self)@,
            micros as int == delay_after(old(self).empties()),
            final(self).empties() == old(self).empties() + 1,
            final(self)@ as int == doubled(old(self)@ as int),
    {
        proof {
            lemma_backoff_monotone(self.empties@);
        }
        let micros = self.micros;
        self.micros = if micros <= MAX_BACKOFF_MICROS / 2 {
            micros * 2
        } else {
            MAX_BACKOFF_MICROS
        };
        self.empties = Ghost((self.empties@ + 1) as nat);
        micros
    }

    /// Something was read: the next empty poll sleeps the floor delay
    /// again.
    pub fn reset(&mut self)
        ensures
            final(self).wf(),
            final(self).empties() == 0,
            final(self)@ == MIN_BACKOFF_MICROS,
    {
        self.micros = MIN_BACKOFF_MICROS;
        self.empties = Ghost(0);
    }
}

/// Where the serving loop stands.
#[derive(Clone, Copy, Debug, PartialEq, Eq, Structural)]
pub enum ShutdownState {
    /// The loop polls.
    Running,
    /// Shutdown was asked for; the loop has not seen it yet.
    ShuttingDown,
    /// The loop has ended.
    Stopped,
}

/// What the loop does next.
#[derive(Debug, PartialEq, Eq)]
pub enum Action {
    /// Call the dispatcher with this request, then report the outcome to
    /// [`Daemon::on_outcome`].
    Dispatch { call_id: u64, method: String, args: Vec<serde_json::Value> },
    /// Nothing was queued: yield to the scheduler, then sleep this many
    /// microseconds.
    Idle { micros: u64 },
    /// The transport failed: sleep this many microseconds, then try again.
    Pause { micros: u64 },
}

/// The counters of a loop with the utilization of both buffers.
#[derive(Clone, Copy, Debug, PartialEq, Eq)]
pub struct Statistics {
    /// Frames read off the request buffer.
    pub requests: u64,
    /// Failures: calls that the dispatcher failed, frames that did not
    /// decode, and transport errors.
    pub errors: u64,
    /// How full the request buffer is.
    pub request_utilization: Utilization,
    /// How full the response buffer is.
    pub response_utilization: Utilization,
}

/// The code of the error envelope that answers a failed call.
pub open spec fn call_failed() -> Seq<char> {
    "CallFailed"@
}

/// A counter one further, as a 64-bit counter holds it.
pub open spec fn bumped(count: u64) -> u64 {
    advance(count, 1)
}

/// The envelope that answers call `call_id` with this outcome of the
/// dispatcher: a response with the encoding of the result, or an error with
/// the text of the failure. There is none for a result that has no
/// encoding.
pub open spec fn answer(call_id: u64, outcome: Result<serde_json::Value, String>) -> Option<
    Envelope,
> {
    match outcome {
        Ok(result) => match msgpack_bytes(result) {
            Some(bytes) => Some(Envelope::Response { call_id, result: bytes }),
            None => None,
        },
        Err(text) => Some(Envelope::Error { call_id, code: call_failed(), message: text@ }),
    }
}

/// The outcome can be answered: it has an envelope, and that can be put on
/// the wire.
pub open spec fn answerable(call_id: u64, outcome: Result<serde_json::Value, String>) -> bool {
    answer(call_id, outcome) is Some && encodable(answer(call_id, outcome)->0)
}

/// The frame that answers call `call_id` with this outcome.
pub open spec fn answer_frame(call_id: u64, outcome: Result<serde_json::Value, String>) -> Seq<u8> {
    encoding(answer(call_id, outcome)->0)
}

/// The state of one serving loop: its counters, its backoff, and whether
/// it is to go on.
pub struct Daemon {
    request_count: u64,
    error_count: u64,
    backoff: Backoff,
    state: ShutdownState,
}

impl Daemon {
    /// Frames read off the request buffer so far.
    pub closed spec fn requests(&self) -> u64 {
        self.request_count
    }

    /// Failures so far.
    pub closed spec fn errors(&self) -> u64 {
        self.error_count
    }

    /// The delay that the next empty poll sleeps, in microseconds.
    pub closed spec fn delay(&self) -> u64 {
        self.backoff@
    }

    /// How many polls in a row have found the request buffer empty.
    pub closed spec fn empties(&self) -> nat {
        self.backoff.empties()
    }

    /// Where the loop stands.
    pub closed spec fn state(&self) -> ShutdownState {
        self.state
    }

    /// The delay is the one that belongs to the number of empty polls.
    pub closed spec fn wf(&self) -> bool {
        self.backoff.wf()
    }

    /// The delay of a consistent daemon is that of its row of empty polls.
    pub proof fn lemma_delay(&self)
        requires
            self.wf(),
        ensures
            self.delay() as int == delay_after(self.empties()),
    {
    }

    /// A running loop that has served nothing yet.
    pub fn new() -> (d: Daemon)
        ensures
            d.wf(),
            d.requests() == 0,
            d.errors() == 0,
            d.delay() == MIN_BACKOFF_MICROS,
            d.empties() == 0,
            d.state() == ShutdownState::Running,
    {
        Daemon {
            request_count: 0,
            error_count: 0,
            backoff: Backoff::new(),
            state: ShutdownState::Running,
        }
    }

    /// Where the loop stands.
    pub fn shutdown_state(&self) -> (state: ShutdownState)
        ensures
            state == self.state(),
    {
        self.state
    }

    /// Asks a running loop to stop. The loop sees it at the start of its
    /// next iteration; what it is doing now, it finishes.
    pub fn request_shutdown(&mut self)
        ensures
            final(self).state() == (if old(self).state() == ShutdownState::Running {
                ShutdownState::ShuttingDown
            } else {
                old(self).state()
            }),
            final(self).requests() == old(self).requests(),
            final(self).errors() == old(self).errors(),
            final(self).delay() == old(self).delay(),
            final(self).empties() == old(self).empties(),
            final(self).wf() == old(self).wf(),
    {
        match self.state {
            ShutdownState::Running => {
                self.state = ShutdownState::ShuttingDown;
            },
            _ => {},
        }
    }

    /// The check at the start of every iteration: a running loop goes on,
    /// any other is stopped from now on.
    pub fn begin_iteration(&mut self) -> (go_on: bool)
        ensures
            go_on == (old(self).state() == ShutdownState::Running),
            final(self).state() == (if go_on {
                ShutdownState::Running
            } else {
                ShutdownState::Stopped
            }),
            final(self).requests() == old(self).requests(),
            final(self).errors() == old(self).errors(),
            final(self).delay() == old(self).delay(),
            final(self).empties() == old(self).empties(),
            final(self).wf() == old(self).wf(),
    {
        match self.state {
            ShutdownState::Running => true,
            _ => {
                self.state = ShutdownState::Stopped;
                false
            },
        }
    }

    /// Decides what follows a read of the request buffer.
    ///
    /// A frame that was read counts as a request and puts the backoff back
    /// to its floor; where it is the encoding of a request, the dispatcher
    /// is to be called with it, and where it is not, that is a failure
    /// followed by the fixed pause. An empty buffer is followed by the
    /// current backoff delay, which then doubles up to its ceiling. Any
    /// other error of the read is a failure followed by the fixed pause.
    pub fn on_read(&mut self, read: Result<Vec<u8>, IpcError>) -> (action: Action)
        requires
            old(self).wf(),
        ensures
            final(self).wf(),
            final(self).state() == old(self).state(),
            match read {
                Ok(data) => {
                    &&& final(self).requests() == bumped(old(self).requests())
                    &&& final(self).delay() == MIN_BACKOFF_MICROS
                    &&& final(self).empties() == 0
                    &&& match call_in(data@) {
                        Some(call) => {
                            &&& final(self).errors() == old(self).errors()
                            &&& action matches Action::Dispatch { call_id, method, args }
                            &&& call == (call_id, method@, args@)
                        },
                        None => {
                            &&& final(self).errors() == bumped(old(self).errors())
                            &&& action == (Action::Pause { micros: ERROR_PAUSE_MICROS })
                        },
                    }
                },
                Err(IpcError::RingBufferEmpty) => {
                    &&& final(self).requests() == old(self).requests()
                    &&& final(self).errors() == old(self).errors()
                    &&& action == (Action::Idle { micros: old(self).delay() })
                    &&& final(self).delay() as int == doubled(old(self).delay() as int)
                    &&& final(self).empties() == old(self).empties() + 1
                },
                Err(_) => {
                    &&& final(self).requests() == old(self).requests()
                    &&& final(self).errors() == bumped(old(self).errors())
                    &&& action == (Action::Pause { micros: ERROR_PAUSE_MICROS })
                    &&& final(self).delay() == old(self).delay()
                    &&& final(self).empties() == old(self).empties()
                },
            },
    {
        match read {
            Ok(data) => {
                self.backoff.reset();
                self.request_count = self.request_count.wrapping_add(1);
                match deserialize_call(data.as_slice()) {
                    Ok((call_id, method, args)) => Action::Dispatch { call_id, method, args },
                    Err(_) => {
                        self.error_count = self.error_count.wrapping_add(1);
                        Action::Pause { micros: ERROR_PAUSE_MICROS }
                    },
                }
            },
            Err(IpcError::RingBufferEmpty) => {
                let micros = self.backoff.on_empty();
                Action::Idle { micros }
            },
            Err(_) => {
                self.error_count = self.error_count.wrapping_add(1);
                Action::Pause { micros: ERROR_PAUSE_MICROS }
            },
        }
    }

    /// Turns the outcome of a call into the frame that answers it: a
    /// response with the result, or an error with the code `CallFailed` and
    /// the text of the failure. A failed call counts as a failure, and so
    /// does an answer that cannot be encoded; a failure of the dispatcher
    /// never ends the loop.
    pub fn on_outcome(&mut self, call_id: u64, outcome: Result<serde_json::Value, String>) -> (r:
        Result<Vec<u8>, IpcError>)
        ensures
            final(self).wf() == old(self).wf(),
            final(self).state() == old(self).state(),
            final(self).requests() == old(self).requests(),
            final(self).delay() == old(self).delay(),
            final(self).empties() == old(self).empties(),
            match r {
                Ok(frame) => answerable(call_id, outcome) && frame@ == answer_frame(
                    call_id,
                    outcome,
                ),
                Err(e) => !answerable(call_id, outcome) && e is Serialization,
            },
            final(self).errors() == (if outcome is Ok && r is Ok {
                old(self).errors()
            } else if outcome is Err && r is Err {
                bumped(bumped(old(self).errors()))
            } else {
                bumped(old(self).errors())
            }),
    {
        let encoded = match outcome {
            Ok(result) => serialize_response(call_id, result),
            Err(text) => {
                self.error_count = self.error_count.wrapping_add(1);
                serialize_error(call_id, "CallFailed", text.as_str())
            },
        };
        if encoded.is_err() {
            self.error_count = self.error_count.wrapping_add(1);
        }
        encoded
    }

    /// Takes note of how the write of an answer went: a write that failed
    /// counts as a failure.
    pub fn on_written(&mut self, written: &Result<(), IpcError>)
        ensures
            final(self).wf() == old(self).wf(),
            final(self).state() == old(self).state(),
            final(self).requests() == old(self).requests(),
            final(self).delay() == old(self).delay(),
            final(self).empties() == old(self).empties(),
            final(self).errors() == (if written is Err {
                bumped(old(self).errors())
            } else {
                old(self).errors()
            }),
    {
        if written.is_err() {
            self.error_count = self.error_count.wrapping_add(1);
        }
    }

    /// One poll of the request buffer: tries to read a frame and decides
    /// what follows, as [`Daemon::on_read`] does.
    pub fn poll(&mut self, requests: &mut RingBuffer) -> (action: Action)
        requires
            old(self).wf(),
            old(requests).wf(),
        ensures
            final(self).wf(),
            final(requests).wf(),
            final(self).state() == old(self).state(),
            final(requests).spec_capacity() == old(requests).spec_capacity(),
            final(requests)@ == after_read(old(requests)@),
            match read_result(old(requests)@) {
                Some(data) => {
                    &&& final(self).requests() == bumped(old(self).requests())
                    &&& final(self).delay() == MIN_BACKOFF_MICROS
                    &&& final(self).empties() == 0
                    &&& match call_in(data) {
                        Some(call) => {
                            &&& final(self).errors() == old(self).errors()
                            &&& action matches Action::Dispatch { call_id, method, args }
                            &&& call == (call_id, method@, args@)
                        },
                        None => {
                            &&& final(self).errors() == bumped(old(self).errors())
                            &&& action == (Action::Pause { micros: ERROR_PAUSE_MICROS })
                        },
                    }
                },
                None => {
                    &&& final(self).requests() == old(self).requests()
                    &&& final(self).errors() == old(self).errors()
                    &&& action == (Action::Idle { micros: old(self).delay() })
                    &&& final(self).delay() as int == doubled(old(self).delay() as int)
                    &&& final(self).empties() == old(self).empties() + 1
                },
            },
    {
        let read = requests.try_read();
        self.on_read(read)
    }

    /// Answers call `call_id`: encodes the outcome as [`Daemon::on_outcome`]
    /// does and tries to write the frame to the response buffer. The
    /// answer is queued exactly when it can be encoded and fits; a write
    /// that failed counts as a failure, and says whether the answer could
    /// never be sent or only found the buffer full.
    pub fn respond(
        &mut self,
        responses: &mut RingBuffer,
        call_id: u64,
        outcome: Result<serde_json::Value, String>,
    ) -> (r: Result<(), IpcError>)
        requires
            old(responses).wf(),
        ensures
            final(responses).wf(),
            final(self).wf() == old(self).wf(),
            final(self).state() == old(self).state(),
            final(self).requests() == old(self).requests(),
            final(self).delay() == old(self).delay(),
            final(self).empties() == old(self).empties(),
            final(responses).spec_capacity() == old(responses).spec_capacity(),
            r is Ok <==> answerable(call_id, outcome) && accepts(
                old(responses).spec_capacity(),
                old(responses)@,
                answer_frame(call_id, outcome),
            ),
            final(responses)@ == (if r is Ok {
                old(responses)@.push(answer_frame(call_id, outcome))
            } else {
                old(responses)@
            }),
            r matches Err(e) ==> (if !answerable(call_id, outcome) {
                e is Serialization
            } else {
                e == send_refusal(
                    old(responses).spec_capacity(),
                    old(responses)@,
                    answer_frame(call_id, outcome),
                )
            }),
            final(self).errors() == (if outcome is Ok && r is Ok {
                old(self).errors()
            } else if outcome is Err && r is Err {
                bumped(bumped(old(self).errors()))
            } else {
                bumped(old(self).errors())
            }),
    {
        match self.on_outcome(call_id, outcome) {
            Ok(frame) => {
                let written = responses.send(frame.as_slice());
                self.on_written(&written);
                written
            },
            Err(e) => Err(e),
        }
    }

    /// Tells whether the statistics are due, `elapsed_secs` seconds after
    /// they were last reported.
    pub fn statistics_due(elapsed_secs: u64) -> (due: bool)
        ensures
            due == (elapsed_secs >= STATS_INTERVAL_SECS),
    {
        elapsed_secs >= STATS_INTERVAL_SECS
    }

    /// The counters, with the utilization of the two buffers as given.
    pub fn statistics(&self, requests: Utilization, responses: Utilization) -> (s: Statistics)
        ensures
            s.requests == self.requests(),
            s.errors == self.errors(),
            s.request_utilization == requests,
            s.response_utilization == responses,
    {
        Statistics {
            requests: self.request_count,
            errors: self.error_count,
            request_utilization: requests,
            response_utilization: responses,
        }
    }
}

} // verus!
