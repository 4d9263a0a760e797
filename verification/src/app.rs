//! The session controller: one state machine stepped on every decoded
//! keystroke. It updates the performance tracker and the word queue in
//! lockstep, decides word-completion success or failure at each space,
//! and exposes the derived read-only values the display consumes.
//!
//! Timestamps arrive as milliseconds on a monotonic session clock; the
//! caller reads the clock and hands the value in.

use vstd::prelude::*;
use vstd::string::StrSliceExecFns;
use crate::fastest_slowest_words::{ranked_updated, RankedEntryModel};
use crate::performance_tracker::{FinalReport, PerformanceTracker};
use crate::problem_words::{evict_mastered, ledger_added, ledger_credited};
use crate::struggle_combinations::struggle_update;
use crate::text::{pop_char, push_char, str_eq};
use crate::word_lists::WordList;
use crate::word_queue::{advance_rel, clone_words, queue_credited, queue_flagged, words_of,
    WordQueue, REQUIRED_REPETITIONS};
use crate::word_speed_tracker::window_step;
use crate::wpm::{compute_speed_milli_wpm, elapsed_ms_between, sat_speed_milli_wpm};

verus! {

/// A decoded key event the session reacts to. List switching and quitting
/// are the caller's affair; everything it does not decode lands on
/// `Other`, which only touches the keystroke timing.
pub enum Key {
    Char(char),
    Backspace,
    Other,
}

/// `a + b` clamped at the largest `u64`.
pub open spec fn sat_add_u64(a: u64, b: int) -> u64 {
    if a + b > u64::MAX {
        u64::MAX
    } else {
        (a + b) as u64
    }
}

/// `a + b` clamped at the largest `u32`.
pub open spec fn sat_add_u32(a: u32, b: int) -> u32 {
    if a + b > u32::MAX {
        u32::MAX
    } else {
        (a + b) as u32
    }
}

/// The speed of the attempt on a word of `word_len` characters completed
/// at `now`, or zero when no keystroke started the attempt.
pub open spec fn attempt_speed(word_len: int, start: Option<u64>, now: u64) -> u64 {
    match start {
        Some(s) => sat_speed_milli_wpm(word_len, elapsed_ms_between(s, now)),
        None => 0,
    }
}

pub struct App {
    pub performance: PerformanceTracker,
    pub word_queue: WordQueue,
    pub word_lists: Vec<WordList>,
    pub current_list_index: usize,
    pub user_input: String,
}

/// What a word boundary does, given the attempt's start time `started`:
/// an exact match feeds the speed trackers and totals, settles the
/// problem-word bookkeeping, evicts mastered words and advances the
/// queue; a mismatch flags the word. Either way the attempt state is
/// cleared. The keystroke-timing fields and the struggle table are not
/// this step's affair.
pub open spec fn completion_core(pre: App, post: App, now: u64, started: Option<u64>) -> bool {
    let cw = pre.word_queue.state().current;
    let speed = attempt_speed(cw.len() as int, started, now);
    &&& post.word_lists == pre.word_lists
    &&& post.current_list_index == pre.current_list_index
    &&& post.user_input@ == Seq::<char>::empty()
    &&& post.performance.mistyped_chars@ == Seq::<usize>::empty()
    &&& post.performance.backspace_count == 0
    &&& post.performance.word_start_time is None
    &&& if pre.user_input@ == cw {
        &&& post.performance.word_speed_tracker.window() == window_step(
            pre.performance.word_speed_tracker.window(),
            speed,
        )
        &&& post.performance.fastest_slowest_words.fastest() == ranked_updated(
            pre.performance.fastest_slowest_words.fastest(),
            (RankedEntryModel { word: cw, speed }),
            false,
        )
        &&& post.performance.fastest_slowest_words.slowest() == ranked_updated(
            pre.performance.fastest_slowest_words.slowest(),
            (RankedEntryModel { word: cw, speed }),
            true,
        )
        &&& post.performance.total_time_ms == match started {
            Some(s) => sat_add_u64(pre.performance.total_time_ms, elapsed_ms_between(s, now)),
            None => pre.performance.total_time_ms,
        }
        &&& post.performance.total_correct_chars == match started {
            Some(_) => sat_add_u32(pre.performance.total_correct_chars, cw.len() as int),
            None => pre.performance.total_correct_chars,
        }
        &&& {
            let q0 = pre.word_queue.state();
            let q1 = if q0.repeating {
                queue_credited(q0)
            } else {
                q0
            };
            let l1 = if q0.repeating {
                if q1.repetitions >= REQUIRED_REPETITIONS {
                    ledger_credited(pre.performance.problem_words.ledger(), cw)
                } else {
                    pre.performance.problem_words.ledger()
                }
            } else if pre.performance.backspace_count > 0 {
                ledger_added(pre.performance.problem_words.ledger(), cw, speed,
                    pre.performance.backspace_count)
            } else {
                ledger_credited(pre.performance.problem_words.ledger(), cw)
            };
            let q2 = if !q0.repeating && pre.performance.backspace_count > 0 {
                queue_flagged(q1, cw)
            } else {
                q1
            };
            &&& post.performance.problem_words.ledger() == evict_mastered(l1)
            &&& advance_rel(q2, post.word_queue.state())
        }
    } else {
        &&& post.performance.word_speed_tracker == pre.performance.word_speed_tracker
        &&& post.performance.fastest_slowest_words == pre.performance.fastest_slowest_words
        &&& post.performance.total_time_ms == pre.performance.total_time_ms
        &&& post.performance.total_correct_chars == pre.performance.total_correct_chars
        &&& post.performance.problem_words.ledger() == ledger_added(
            pre.performance.problem_words.ledger(),
            cw,
            speed,
            pre.performance.backspace_count,
        )
        &&& post.word_queue.state() == queue_flagged(pre.word_queue.state(), cw)
    }
}

/// What one keystroke does. First the timing step: a first non-backspace
/// key starts the attempt clock, a prior keystroke's interval feeds the
/// struggle table for the text typed so far, and the last-keystroke time
/// advances. Then the key itself: a printable character is appended (a
/// mismatch against the expected position is recorded), a backspace
/// retracts one character and flags the current word, a space settles the
/// word, and anything else is ignored.
pub open spec fn on_key_rel(pre: App, post: App, key: Key, now: u64) -> bool {
    let started = if pre.performance.word_start_time is None && !(key is Backspace) {
        Some(now)
    } else {
        pre.performance.word_start_time
    };
    let table1 = match pre.performance.last_keypress_time {
        Some(last) => struggle_update(
            pre.performance.struggle_combinations.table(),
            pre.user_input@,
            elapsed_ms_between(last, now) as int,
        ),
        None => pre.performance.struggle_combinations.table(),
    };
    &&& post.performance.struggle_combinations.table() == table1
    &&& post.performance.last_keypress_time == Some(now)
    &&& post.word_lists == pre.word_lists
    &&& post.current_list_index == pre.current_list_index
    &&& match key {
        Key::Char(c) => if c == ' ' {
            completion_core(pre, post, now, started)
        } else {
            let cw = pre.word_queue.state().current;
            &&& post.user_input@ == pre.user_input@.push(c)
            &&& post.performance.mistyped_chars@ == if pre.user_input@.len() < cw.len() && c != cw[
                pre.user_input@.len() as int
            ] {
                pre.performance.mistyped_chars@.push(pre.user_input@.len() as usize)
            } else {
                pre.performance.mistyped_chars@
            }
            &&& post.performance.word_start_time == started
            &&& post.word_queue == pre.word_queue
            &&& post.performance.word_speed_tracker == pre.performance.word_speed_tracker
            &&& post.performance.fastest_slowest_words == pre.performance.fastest_slowest_words
            &&& post.performance.problem_words == pre.performance.problem_words
            &&& post.performance.total_time_ms == pre.performance.total_time_ms
            &&& post.performance.total_correct_chars == pre.performance.total_correct_chars
            &&& post.performance.backspace_count == pre.performance.backspace_count
        },
        Key::Backspace => {
            let cw = pre.word_queue.state().current;
            let speed = attempt_speed(cw.len() as int, pre.performance.word_start_time, now);
            &&& post.performance.word_start_time == pre.performance.word_start_time
            &&& if pre.user_input@.len() == 0 {
                &&& post.user_input@ == pre.user_input@
                &&& post.performance.mistyped_chars@ == pre.performance.mistyped_chars@
                &&& post.performance.backspace_count == pre.performance.backspace_count
                &&& post.performance.problem_words == pre.performance.problem_words
                &&& post.word_queue == pre.word_queue
            } else {
                &&& post.user_input@ == pre.user_input@.drop_last()
                &&& post.performance.mistyped_chars@ == if pre.performance.mistyped_chars@.len()
                    > 0 && pre.performance.mistyped_chars@.last() == pre.user_input@.len() - 1 {
                    pre.performance.mistyped_chars@.drop_last()
                } else {
                    pre.performance.mistyped_chars@
                }
                &&& post.performance.backspace_count == sat_add_u32(
                    pre.performance.backspace_count,
                    1,
                )
                &&& post.performance.problem_words.ledger() == ledger_added(
                    pre.performance.problem_words.ledger(),
                    cw,
                    speed,
                    sat_add_u32(pre.performance.backspace_count, 1),
                )
                &&& post.word_queue.state() == queue_flagged(pre.word_queue.state(), cw)
            }
            &&& post.performance.word_speed_tracker == pre.performance.word_speed_tracker
            &&& post.performance.fastest_slowest_words == pre.performance.fastest_slowest_words
            &&& post.performance.total_time_ms == pre.performance.total_time_ms
            &&& post.performance.total_correct_chars == pre.performance.total_correct_chars
        },
        Key::Other => {
            &&& post.user_input@ == pre.user_input@
            &&& post.performance.mistyped_chars@ == pre.performance.mistyped_chars@
            &&& post.performance.word_start_time == started
            &&& post.word_queue == pre.word_queue
            &&& post.performance.word_speed_tracker == pre.performance.word_speed_tracker
            &&& post.performance.fastest_slowest_words == pre.performance.fastest_slowest_words
            &&& post.performance.problem_words == pre.performance.problem_words
            &&& post.performance.total_time_ms == pre.performance.total_time_ms
            &&& post.performance.total_correct_chars == pre.performance.total_correct_chars
            &&& post.performance.backspace_count == pre.performance.backspace_count
        },
    }
}

impl App {
    pub open spec fn wf(self) -> bool {
        &&& self.performance.wf()
        &&& self.word_queue.wf()
    }

    /// Starts a session on the given lists, serving the second list where
    /// there is one (the first otherwise, or no words at all).
    pub fn new(word_lists: Vec<WordList>) -> (r: Self)
        ensures
            r.wf(),
            r.word_lists == word_lists,
            r.current_list_index == if word_lists@.len() > 1 {
                1int
            } else {
                0int
            },
            r.user_input@ == Seq::<char>::empty(),
            r.performance.word_speed_tracker.window() == Seq::<u64>::empty(),
            r.performance.problem_words.ledger() == Seq::<
                crate::problem_words::LedgerEntryModel,
            >::empty(),
            r.performance.fastest_slowest_words.fastest() == Seq::<RankedEntryModel>::empty(),
            r.performance.fastest_slowest_words.slowest() == Seq::<RankedEntryModel>::empty(),
            r.performance.struggle_combinations.table() == Seq::<RankedEntryModel>::empty(),
            r.performance.word_start_time is None,
            r.performance.last_keypress_time is None,
            r.performance.total_time_ms == 0,
            r.performance.total_correct_chars == 0,
            r.performance.backspace_count == 0,
            r.performance.mistyped_chars@ == Seq::<usize>::empty(),
            !r.word_queue.state().repeating,
            r.word_queue.state().problem_queue == Seq::<
                crate::word_queue::ProblemQueueEntryModel,
            >::empty(),
            word_lists@.len() > 0 ==> r.word_queue.state().originals == words_of(
                word_lists@[if word_lists@.len() > 1 {
                    1int
                } else {
                    0int
                }].words@,
            ),
            word_lists@.len() == 0 ==> r.word_queue.state().originals == Seq::<Seq<char>>::empty(),
    {
        let idx: usize = if word_lists.len() > 1 {
            1
        } else {
            0
        };
        let starting_words: Vec<String> = if word_lists.len() > 0 {
            clone_words(&word_lists[idx].words)
        } else {
            Vec::new()
        };
        proof {
            if word_lists@.len() == 0 {
                assert(words_of(Seq::<String>::empty()) =~= Seq::<Seq<char>>::empty());
            }
        }
        let word_queue = WordQueue::new(starting_words);
        App {
            performance: PerformanceTracker::new(),
            word_queue,
            word_lists,
            current_list_index: idx,
            user_input: String::new(),
        }
    }

    /// The speed of the current attempt on the current word, were it
    /// completed at `now_ms`.
    fn calculate_word_speed(&self, now_ms: u64) -> (r: u64)
        ensures
            r == attempt_speed(
                self.word_queue.state().current.len() as int,
                self.performance.word_start_time,
                now_ms,
            ),
    {
        match self.performance.word_start_time {
            Some(s) => {
                let e: u64 = if now_ms >= s {
                    now_ms - s
                } else {
                    0
                };
                let len = self.word_queue.current_word().unicode_len();
                compute_speed_milli_wpm(len, e)
            },
            None => 0,
        }
    }

    /// Adds the attempt's elapsed time and the word's characters to the
    /// cumulative totals, clamping rather than wrapping.
    fn update_stats(&mut self, now_ms: u64)
        requires
            old(self).wf(),
        ensures
            final(self).wf(),
            final(self).performance.total_time_ms == match old(self).performance.word_start_time {
                Some(s) => sat_add_u64(
                    old(self).performance.total_time_ms,
                    elapsed_ms_between(s, now_ms),
                ),
                None => old(self).performance.total_time_ms,
            },
            final(self).performance.total_correct_chars == match old(
                self,
            ).performance.word_start_time {
                Some(_) => sat_add_u32(
                    old(self).performance.total_correct_chars,
                    old(self).word_queue.state().current.len() as int,
                ),
                None => old(self).performance.total_correct_chars,
            },
            *final(self) == (App {
                performance: (PerformanceTracker {
                    total_time_ms: final(self).performance.total_time_ms,
                    total_correct_chars: final(self).performance.total_correct_chars,
                    ..old(self).performance
                }),
                ..*old(self)
            }),
    {
        match self.performance.word_start_time {
            Some(s) => {
                let e: u64 = if now_ms >= s {
                    now_ms - s
                } else {
                    0
                };
                self.performance.total_time_ms = if self.performance.total_time_ms > u64::MAX - e {
                    u64::MAX
                } else {
                    self.performance.total_time_ms + e
                };
                let len = self.word_queue.current_word().unicode_len();
                let room = (u32::MAX - self.performance.total_correct_chars) as usize;
                self.performance.total_correct_chars = if len > room {
                    u32::MAX
                } else {
                    self.performance.total_correct_chars + len as u32
                };
            },
            None => {},
        }
    }

    /// Flags the current word as a problem word, in the ledger (with the
    /// attempt's speed and backspace count) and in the queue's repeat
    /// loop.
    fn add_problem_word(&mut self, now_ms: u64)
        requires
            old(self).wf(),
        ensures
            final(self).wf(),
            final(self).performance.problem_words.ledger() == ledger_added(
                old(self).performance.problem_words.ledger(),
                old(self).word_queue.state().current,
                attempt_speed(
                    old(self).word_queue.state().current.len() as int,
                    old(self).performance.word_start_time,
                    now_ms,
                ),
                old(self).performance.backspace_count,
            ),
            final(self).word_queue.state() == queue_flagged(
                old(self).word_queue.state(),
                old(self).word_queue.state().current,
            ),
            *final(self) == (App {
                performance: (PerformanceTracker {
                    problem_words: final(self).performance.problem_words,
                    ..old(self).performance
                }),
                word_queue: final(self).word_queue,
                ..*old(self)
            }),
    {
        let speed = self.calculate_word_speed(now_ms);
        let current_word = self.word_queue.current_word().to_owned();
        let for_queue = current_word.clone();
        self.performance.add_problem_word(current_word, speed);
        self.word_queue.add_problem_word(for_queue);
    }

    /// Settles the word at a space, as `completion_core` describes.
    fn on_word_completed(&mut self, now_ms: u64)
        requires
            old(self).wf(),
        ensures
            final(self).wf(),
            completion_core(
                *old(self),
                *final(self),
                now_ms,
                old(self).performance.word_start_time,
            ),
            final(self).performance.last_keypress_time == old(
                self,
            ).performance.last_keypress_time,
            final(self).performance.struggle_combinations == old(
                self,
            ).performance.struggle_combinations,
    {
        let is_match = str_eq(self.user_input.as_str(), self.word_queue.current_word());
        if is_match {
            let speed = self.calculate_word_speed(now_ms);
            self.performance.update_recent_word_speeds(speed);
            let typed = self.user_input.clone();
            self.performance.update_fastest_slowest_words(typed.as_str(), speed);
            self.update_stats(now_ms);
            if self.word_queue.is_current_word_problem() {
                self.word_queue.update_problem_word_correct_attempt();
                if self.word_queue.get_current_problem_word_repetitions()
                    >= REQUIRED_REPETITIONS {
                    let cw = self.word_queue.current_word().to_owned();
                    self.performance.update_problem_word_correct_attempts(cw.as_str());
                }
            } else if self.performance.backspace_used() {
                self.add_problem_word(now_ms);
            } else {
                let cw = self.word_queue.current_word().to_owned();
                self.performance.update_problem_word_correct_attempts(cw.as_str());
            }
            self.performance.remove_learned_words();
            self.word_queue.next_word();
        } else {
            self.add_problem_word(now_ms);
        }
        self.user_input = String::new();
        self.performance.mistyped_chars.clear();
        self.performance.backspace_count = 0;
        self.performance.word_start_time = None;
        proof {
            assert(self.performance.mistyped_chars@ =~= Seq::<usize>::empty());
        }
    }

    /// Reacts to one decoded keystroke at `now_ms`, as `on_key_rel`
    /// describes.
    pub fn on_key(&mut self, key: Key, now_ms: u64)
        requires
            old(self).wf(),
        ensures
            final(self).wf(),
            on_key_rel(*old(self), *final(self), key, now_ms),
    {
        let is_backspace = matches!(key, Key::Backspace);
        if self.performance.word_start_time.is_none() && !is_backspace {
            self.performance.word_start_time = Some(now_ms);
        }
        match self.performance.last_keypress_time {
            Some(last) => {
                let dur: u64 = if now_ms >= last {
                    now_ms - last
                } else {
                    0
                };
                let typed = self.user_input.clone();
                self.performance.update_struggle_combinations(dur, typed.as_str());
            },
            None => {},
        }
        self.performance.last_keypress_time = Some(now_ms);
        match key {
            Key::Char(c) => {
                if c == ' ' {
                    self.on_word_completed(now_ms);
                } else {
                    let input_len = self.user_input.as_str().unicode_len();
                    let current_word = self.word_queue.current_word();
                    if input_len < current_word.unicode_len() {
                        let expected = current_word.get_char(input_len);
                        if c != expected {
                            self.performance.mistyped_chars.push(input_len);
                        }
                    }
                    push_char(&mut self.user_input, c);
                }
            },
            Key::Backspace => {
                let input_len = self.user_input.as_str().unicode_len();
                if input_len > 0 {
                    pop_char(&mut self.user_input);
                    let new_len = input_len - 1;
                    let m = self.performance.mistyped_chars.len();
                    if m > 0 {
                        let last_pos = self.performance.mistyped_chars[m - 1];
                        if last_pos == new_len {
                            self.performance.mistyped_chars.pop();
                        }
                    }
                    if self.performance.backspace_count < u32::MAX {
                        self.performance.backspace_count = self.performance.backspace_count + 1;
                    }
                    self.add_problem_word(now_ms);
                }
            },
            Key::Other => {},
        }
    }

    /// The rolling average over the last ten word speeds.
    pub fn average_speed_last_10_words(&self) -> (r: u64)
        requires
            self.wf(),
        ensures
            r == if self.performance.word_speed_tracker.window().len() == 0 {
                0int
            } else {
                crate::word_speed_tracker::speed_sum(self.performance.word_speed_tracker.window())
                    / self.performance.word_speed_tracker.window().len() as int
            },
    {
        self.performance.average_speed_last_10_words()
    }

    /// The final report of the session so far.
    pub fn generate_final_scores(&self) -> (r: FinalReport)
        requires
            self.wf(),
        ensures
            r.average_speed_milli_wpm == sat_speed_milli_wpm(
                self.performance.total_correct_chars as int,
                self.performance.total_time_ms as int,
            ),
            crate::problem_words::ledger_of(r.problem_words@)
                == self.performance.problem_words.ledger(),
            crate::fastest_slowest_words::ranked_of(r.fastest_words@)
                == self.performance.fastest_slowest_words.fastest(),
            crate::fastest_slowest_words::ranked_of(r.slowest_words@)
                == self.performance.fastest_slowest_words.slowest(),
            crate::fastest_slowest_words::ranked_of(r.struggle_combinations@)
                == self.performance.struggle_combinations.table(),
    {
        self.performance.generate_final_scores()
    }

    /// The periodic tick: the session itself carries no per-tick state.
    pub fn on_tick(&mut self)
        ensures
            *final(self) == *old(self),
    {
    }

    /// Switches to the word list at `index`: the queue is re-derived from
    /// it and the attempt state cleared. An out-of-range index is
    /// silently ignored.
    pub fn change_word_list(&mut self, index: usize)
        requires
            old(self).wf(),
        ensures
            final(self).wf(),
            index < old(self).word_lists@.len() ==> {
                &&& final(self).current_list_index == index
                &&& crate::word_queue::switch_rel(
                    final(self).word_queue.state(),
                    old(self).word_queue.state(),
                    words_of(old(self).word_lists@[index as int].words@),
                )
                &&& final(self).user_input@ == Seq::<char>::empty()
                &&& *final(self) == (App {
                    performance: (PerformanceTracker {
                        word_start_time: None,
                        backspace_count: 0,
                        ..old(self).performance
                    }),
                    word_queue: final(self).word_queue,
                    word_lists: old(self).word_lists,
                    current_list_index: index,
                    user_input: final(self).user_input,
                })
            },
            index >= old(self).word_lists@.len() ==> *final(self) == *old(self),
    {
        if index < self.word_lists.len() {
            self.current_list_index = index;
            let new_words = clone_words(&self.word_lists[index].words);
            self.word_queue.change_word_list(new_words);
            self.performance.word_start_time = None;
            self.performance.backspace_count = 0;
            self.user_input = String::new();
        }
    }
}

} // verus!
