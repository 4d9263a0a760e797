//! Rolling window of the most recent word-completion speeds: at most the
//! last ten recorded speeds are retained, and their truncating integer mean
//! is exposed as the live average.

use vstd::prelude::*;
use vstd::arithmetic::div_mod::{lemma_div_by_multiple, lemma_div_is_ordered};

verus! {

/// How many recent word speeds the rolling window retains.
pub const SPEED_WINDOW_CAP: usize = 10;

/// Sum of a sequence of speeds, as a mathematical integer.
pub open spec fn speed_sum(s: Seq<u64>) -> int
    decreases s.len(),
{
    if s.len() == 0 {
        0
    } else {
        speed_sum(s.drop_last()) + s.last()
    }
}

/// One update of the rolling window: append the new speed, dropping the
/// oldest entry once the window is full.
pub open spec fn window_step(w: Seq<u64>, speed: u64) -> Seq<u64> {
    if w.len() < SPEED_WINDOW_CAP {
        w.push(speed)
    } else {
        w.drop_first().push(speed)
    }
}

/// The window that results from recording every speed of `history` in
/// order, starting from an empty window.
pub open spec fn window_of(history: Seq<u64>) -> Seq<u64>
    decreases history.len(),
{
    if history.len() == 0 {
        Seq::<u64>::empty()
    } else {
        window_step(window_of(history.drop_last()), history.last())
    }
}

pub struct WordSpeedTracker {
    recent_word_speeds: Vec<u64>,
}

impl WordSpeedTracker {
    /// The speeds currently held, oldest first.
    pub closed spec fn window(self) -> Seq<u64> {
        self.recent_word_speeds@
    }

    pub open spec fn wf(self) -> bool {
        self.window().len() <= SPEED_WINDOW_CAP
    }

    pub fn new() -> (r: Self)
        ensures
            r.window() == Seq::<u64>::empty(),
            r.wf(),
    {
        WordSpeedTracker { recent_word_speeds: Vec::new() }
    }

    /// Records one word speed, evicting the oldest entry once the window
    /// already holds its full complement.
    pub fn update_recent_word_speeds(&mut self, speed: u64)
        requires
            old(self).wf(),
        ensures
            final(self).wf(),
            final(self).window() == window_step(old(self).window(), speed),
    {
        self.recent_word_speeds.push(speed);
        if self.recent_word_speeds.len() > SPEED_WINDOW_CAP {
            self.recent_word_speeds.remove(0);
            proof {
                assert(self.recent_word_speeds@ =~= old(self).window().drop_first().push(speed));
            }
        } else {
            proof {
                assert(self.recent_word_speeds@ =~= old(self).window().push(speed));
            }
        }
    }

    /// The truncating integer mean of the speeds in the window; zero when
    /// nothing has been recorded yet.
    pub fn average_speed_last_10_words(&self) -> (r: u64)
        requires
            self.wf(),
        ensures
            r == if self.window().len() == 0 {
                0int
            } else {
                speed_sum(self.window()) / self.window().len() as int
            },
    {
        let n = self.recent_word_speeds.len();
        if n == 0 {
            0
        } else {
            let mut total: u128 = 0;
            let mut i: usize = 0;
            while i < n
                invariant
                    i <= n,
                    n == self.window().len(),
                    n <= SPEED_WINDOW_CAP,
                    total == speed_sum(self.window().take(i as int)),
                    total <= i * (u64::MAX as int),
                decreases n - i,
            {
                proof {
                    assert(self.window().take(i as int + 1).drop_last() =~= self.window().take(
                        i as int,
                    ));
                }
                total = total + self.recent_word_speeds[i] as u128;
                i = i + 1;
            }
            proof {
                assert(self.window().take(n as int) =~= self.window());
                lemma_div_is_ordered(total as int, n * (u64::MAX as int), n as int);
                lemma_div_by_multiple(u64::MAX as int, n as int);
            }
            (total / (n as u128)) as u64
        }
    }
}

/// The rolling window after any history of recorded speeds holds exactly
/// the most recent speeds: all of them while there are at most ten, and
/// precisely the last ten once more have been recorded.
pub proof fn lemma_window_holds_latest(history: Seq<u64>)
    ensures
        history.len() <= SPEED_WINDOW_CAP ==> window_of(history) == history,
        history.len() > SPEED_WINDOW_CAP ==> window_of(history) == history.skip(
            history.len() - SPEED_WINDOW_CAP,
        ),
    decreases history.len(),
{
    if history.len() == 0 {
        assert(window_of(history) =~= history);
    } else {
        let prefix = history.drop_last();
        lemma_window_holds_latest(prefix);
        if history.len() <= SPEED_WINDOW_CAP {
            assert(window_of(history) =~= history);
        } else if history.len() == SPEED_WINDOW_CAP + 1 {
            assert(window_of(prefix) == prefix);
            assert(window_of(history) =~= history.skip(history.len() - SPEED_WINDOW_CAP));
        } else {
            assert(window_of(prefix) == prefix.skip(prefix.len() - SPEED_WINDOW_CAP));
            assert(window_of(history) =~= history.skip(history.len() - SPEED_WINDOW_CAP));
        }
    }
}

} // verus!
