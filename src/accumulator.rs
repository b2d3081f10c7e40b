use vstd::prelude::*;
use crate::keys::{KeyInput, KeyEvent, RawKey, classify, key_event};

verus! {

/// The idle window, in milliseconds: an input that comes at least this long
/// after the one before starts a fresh sequence.
pub const IDLE_WINDOW_MS: u64 = 3000;

/// At least the idle window has passed from `last` to `now`. A clock that
/// appears to run backwards counts as no time passed.
pub open spec fn idle_elapsed(last: u64, now: u64) -> bool {
    now as int - last as int >= IDLE_WINDOW_MS as int
}

/// The buffer after `k` is recorded at `now`, the previous input having been
/// recorded at `last`: cleared first where the idle window has passed.
pub open spec fn recorded(buffer: Seq<KeyInput>, last: u64, k: KeyInput, now: u64) -> Seq<
    KeyInput,
> {
    if idle_elapsed(last, now) {
        seq![k]
    } else {
        buffer.push(k)
    }
}

/// What the thread that receives key presses does after one of them.
#[derive(Copy, Clone, Debug, PartialEq, Eq, Hash, Structural)]
pub enum TapAction {
    /// A symbol was recorded; keep delivering presses.
    Recorded,
    /// The combo is complete: signal the listener and wait to be resumed.
    Suspend,
    /// The key plays no part in combos.
    Ignore,
}

/// The symbols typed since the last drain, with the time of the last input,
/// as milliseconds on a monotonic clock.
#[derive(Debug)]
pub struct SequenceAccumulator {
    sequence: Vec<KeyInput>,
    last_input_ms: u64,
}

impl SequenceAccumulator {
    /// The symbols buffered, oldest first.
    pub closed spec fn buffered(&self) -> Seq<KeyInput> {
        self.sequence@
    }

    /// The time of the last recorded input, or of the last end of recording.
    pub closed spec fn last_input(&self) -> u64 {
        self.last_input_ms
    }

    /// An empty buffer, its clock started at `now`.
    pub fn new(now: u64) -> (r: Self)
        ensures
            r.buffered() == Seq::<KeyInput>::empty(),
            r.last_input() == now,
    {
        SequenceAccumulator { sequence: Vec::new(), last_input_ms: now }
    }

    /// Appends `k`, pressed at `now`; where the idle window has passed since
    /// the last input, the buffer is cleared first.
    pub fn record(&mut self, k: KeyInput, now: u64)
        ensures
            final(self).buffered() == recorded(old(self).buffered(), old(self).last_input(), k, now),
            final(self).last_input() == now,
    {
        if now >= self.last_input_ms && now - self.last_input_ms >= IDLE_WINDOW_MS {
            self.sequence.clear();
        }
        self.last_input_ms = now;
        self.sequence.push(k);
        proof {
            if idle_elapsed(old(self).last_input(), now) {
                assert(self.sequence@ =~= seq![k]);
            }
        }
    }

    /// Takes every buffered symbol, oldest first, and leaves the buffer
    /// empty; the clock is untouched.
    pub fn drain(&mut self) -> (r: Vec<KeyInput>)
        ensures
            r@ == old(self).buffered(),
            final(self).buffered() == Seq::<KeyInput>::empty(),
            final(self).last_input() == old(self).last_input(),
    {
        let mut out = Vec::new();
        out.append(&mut self.sequence);
        proof {
            assert(out@ =~= old(self).buffered());
        }
        out
    }

    /// Stamps `now` as the end of a recording, without recording a symbol.
    pub fn mark_end(&mut self, now: u64)
        ensures
            final(self).buffered() == old(self).buffered(),
            final(self).last_input() == now,
    {
        self.last_input_ms = now;
    }

    /// Handles one key press at `now`: a symbol is recorded, the terminator
    /// asks for suspension, and any other key changes nothing.
    pub fn handle_key(&mut self, key: RawKey, now: u64) -> (r: TapAction)
        ensures
            match key_event(key) {
                KeyEvent::Symbol(k) => {
                    &&& r == TapAction::Recorded
                    &&& final(self).buffered() == recorded(
                        old(self).buffered(),
                        old(self).last_input(),
                        k,
                        now,
                    )
                    &&& final(self).last_input() == now
                },
                KeyEvent::Terminator => {
                    &&& r == TapAction::Suspend
                    &&& final(self).buffered() == old(self).buffered()
                    &&& final(self).last_input() == old(self).last_input()
                },
                KeyEvent::Ignored => {
                    &&& r == TapAction::Ignore
                    &&& final(self).buffered() == old(self).buffered()
                    &&& final(self).last_input() == old(self).last_input()
                },
            },
    {
        match classify(key) {
            KeyEvent::Symbol(k) => {
                self.record(k, now);
                TapAction::Recorded
            },
            KeyEvent::Terminator => TapAction::Suspend,
            KeyEvent::Ignored => TapAction::Ignore,
        }
    }
}

/// Two inputs recorded one after the other land in one sequence exactly when
/// less than the idle window separates them: at a gap of the window or more,
/// the later input starts a fresh sequence and the earlier one is discarded.
pub proof fn lemma_idle_window(
    buffer: Seq<KeyInput>,
    last: u64,
    a: KeyInput,
    t1: u64,
    b: KeyInput,
    t2: u64,
)
    requires
        t1 <= t2,
    ensures
        idle_elapsed(t1, t2) ==> recorded(recorded(buffer, last, a, t1), t1, b, t2) == seq![b],
        !idle_elapsed(t1, t2) ==> {
            let r = recorded(recorded(buffer, last, a, t1), t1, b, t2);
            &&& r.len() >= 2
            &&& r[r.len() - 2] == a
            &&& r[r.len() - 1] == b
        },
{
}

} // verus!
