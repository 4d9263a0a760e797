//! The aggregate performance tracker: the rolling speed window, the
//! extremes lists, the problem-word ledger and the struggle-combination
//! table, together with the raw keystroke-timing state of the current
//! attempt and the cumulative totals behind the overall words-per-minute
//! figure.

use vstd::prelude::*;
use crate::fastest_slowest_words::{ranked_of, ranked_updated, FastestSlowestWords,
    RankedEntryModel, WordSpeedEntry};
use crate::problem_words::{evict_mastered, ledger_added, ledger_credited, ledger_of,
    ProblemWordEntry, ProblemWords};
use crate::struggle_combinations::{struggle_update, StruggleCombinations};
use crate::word_speed_tracker::{window_step, WordSpeedTracker};
use crate::wpm::{compute_speed_milli_wpm, sat_speed_milli_wpm};

verus! {

/// The final-report snapshot: the aggregate speed and copies of the four
/// trackers' contents.
pub struct FinalReport {
    pub average_speed_milli_wpm: u64,
    pub problem_words: Vec<ProblemWordEntry>,
    pub fastest_words: Vec<WordSpeedEntry>,
    pub slowest_words: Vec<WordSpeedEntry>,
    pub struggle_combinations: Vec<WordSpeedEntry>,
}

pub struct PerformanceTracker {
    pub word_speed_tracker: WordSpeedTracker,
    pub fastest_slowest_words: FastestSlowestWords,
    pub problem_words: ProblemWords,
    pub struggle_combinations: StruggleCombinations,
    /// When the last keystroke arrived, in session milliseconds.
    pub last_keypress_time: Option<u64>,
    /// When the current attempt's first keystroke arrived, if any.
    pub word_start_time: Option<u64>,
    /// Positions mistyped in the current attempt, in the order made.
    pub mistyped_chars: Vec<usize>,
    /// Total time spent on correctly completed words, in milliseconds.
    pub total_time_ms: u64,
    /// Total characters of correctly completed words.
    pub total_correct_chars: u32,
    /// Backspaces used in the current attempt.
    pub backspace_count: u32,
}

impl PerformanceTracker {
    pub open spec fn wf(self) -> bool {
        &&& self.word_speed_tracker.wf()
        &&& self.fastest_slowest_words.wf()
        &&& self.problem_words.wf()
        &&& self.struggle_combinations.wf()
    }

    pub fn new() -> (r: Self)
        ensures
            r.wf(),
            r.word_speed_tracker.window() == Seq::<u64>::empty(),
            r.fastest_slowest_words.fastest() == Seq::<RankedEntryModel>::empty(),
            r.fastest_slowest_words.slowest() == Seq::<RankedEntryModel>::empty(),
            r.problem_words.ledger() == Seq::<crate::problem_words::LedgerEntryModel>::empty(),
            r.struggle_combinations.table() == Seq::<RankedEntryModel>::empty(),
            r.last_keypress_time is None,
            r.word_start_time is None,
            r.mistyped_chars@ == Seq::<usize>::empty(),
            r.total_time_ms == 0,
            r.total_correct_chars == 0,
            r.backspace_count == 0,
    {
        let mistyped_chars: Vec<usize> = Vec::new();
        proof {
            assert(mistyped_chars@ =~= Seq::<usize>::empty());
        }
        PerformanceTracker {
            word_speed_tracker: WordSpeedTracker::new(),
            fastest_slowest_words: FastestSlowestWords::new(),
            problem_words: ProblemWords::new(),
            struggle_combinations: StruggleCombinations::new(),
            last_keypress_time: None,
            word_start_time: None,
            mistyped_chars,
            total_time_ms: 0,
            total_correct_chars: 0,
            backspace_count: 0,
        }
    }

    /// Whether any backspace was used in the current attempt.
    pub fn backspace_used(&self) -> (r: bool)
        ensures
            r == (self.backspace_count > 0),
    {
        self.backspace_count > 0
    }

    /// Records one completed word's speed in the rolling window.
    pub fn update_recent_word_speeds(&mut self, speed: u64)
        requires
            old(self).wf(),
        ensures
            final(self).wf(),
            final(self).word_speed_tracker.window() == window_step(
                old(self).word_speed_tracker.window(),
                speed,
            ),
            *final(self) == (PerformanceTracker {
                word_speed_tracker: final(self).word_speed_tracker,
                ..*old(self)
            }),
    {
        self.word_speed_tracker.update_recent_word_speeds(speed);
    }

    /// The truncating mean of the rolling window, zero when it is empty.
    pub fn average_speed_last_10_words(&self) -> (r: u64)
        requires
            self.wf(),
        ensures
            r == if self.word_speed_tracker.window().len() == 0 {
                0int
            } else {
                crate::word_speed_tracker::speed_sum(self.word_speed_tracker.window())
                    / self.word_speed_tracker.window().len() as int
            },
    {
        self.word_speed_tracker.average_speed_last_10_words()
    }

    /// Offers a completed word to the fastest and slowest lists.
    pub fn update_fastest_slowest_words(&mut self, word: &str, speed: u64)
        requires
            old(self).wf(),
        ensures
            final(self).wf(),
            final(self).fastest_slowest_words.fastest() == ranked_updated(
                old(self).fastest_slowest_words.fastest(),
                (RankedEntryModel { word: word@, speed }),
                false,
            ),
            final(self).fastest_slowest_words.slowest() == ranked_updated(
                old(self).fastest_slowest_words.slowest(),
                (RankedEntryModel { word: word@, speed }),
                true,
            ),
            *final(self) == (PerformanceTracker {
                fastest_slowest_words: final(self).fastest_slowest_words,
                ..*old(self)
            }),
    {
        self.fastest_slowest_words.update(word, speed);
    }

    /// Records a fresh mistake on `word` in the ledger, with the current
    /// attempt's backspace count.
    pub fn add_problem_word(&mut self, word: String, speed: u64)
        requires
            old(self).wf(),
        ensures
            final(self).wf(),
            final(self).problem_words.ledger() == ledger_added(
                old(self).problem_words.ledger(),
                word@,
                speed,
                old(self).backspace_count,
            ),
            *final(self) == (PerformanceTracker {
                problem_words: final(self).problem_words,
                ..*old(self)
            }),
    {
        let count = self.backspace_count;
        self.problem_words.add(word, speed, count);
    }

    /// Credits one consecutive correct completion to `word`'s ledger entry.
    pub fn update_problem_word_correct_attempts(&mut self, word: &str)
        requires
            old(self).wf(),
        ensures
            final(self).wf(),
            final(self).problem_words.ledger() == ledger_credited(
                old(self).problem_words.ledger(),
                word@,
            ),
            *final(self) == (PerformanceTracker {
                problem_words: final(self).problem_words,
                ..*old(self)
            }),
    {
        self.problem_words.update_correct_attempts(word);
    }

    /// Evicts every mastered word from the ledger.
    pub fn remove_learned_words(&mut self)
        requires
            old(self).wf(),
        ensures
            final(self).wf(),
            final(self).problem_words.ledger() == evict_mastered(old(self).problem_words.ledger()),
            *final(self) == (PerformanceTracker {
                problem_words: final(self).problem_words,
                ..*old(self)
            }),
    {
        self.problem_words.remove_learned_words();
    }

    /// Feeds one keystroke interval to the struggle-combination table.
    pub fn update_struggle_combinations(&mut self, elapsed_ms: u64, user_input: &str)
        requires
            old(self).wf(),
        ensures
            final(self).wf(),
            final(self).struggle_combinations.table() == struggle_update(
                old(self).struggle_combinations.table(),
                user_input@,
                elapsed_ms as int,
            ),
            *final(self) == (PerformanceTracker {
                struggle_combinations: final(self).struggle_combinations,
                ..*old(self)
            }),
    {
        self.struggle_combinations.update(elapsed_ms, user_input);
    }

    /// The overall speed: cumulative correct characters over cumulative
    /// time, zero while no time has been accumulated.
    pub fn average_wpm(&self) -> (r: u64)
        ensures
            r == sat_speed_milli_wpm(self.total_correct_chars as int, self.total_time_ms as int),
    {
        compute_speed_milli_wpm(self.total_correct_chars as usize, self.total_time_ms)
    }

    pub fn get_fastest_words(&self) -> (r: &Vec<WordSpeedEntry>)
        requires
            self.wf(),
        ensures
            ranked_of(r@) == self.fastest_slowest_words.fastest(),
    {
        self.fastest_slowest_words.get_fastest_words()
    }

    pub fn get_slowest_words(&self) -> (r: &Vec<WordSpeedEntry>)
        requires
            self.wf(),
        ensures
            ranked_of(r@) == self.fastest_slowest_words.slowest(),
    {
        self.fastest_slowest_words.get_slowest_words()
    }

    pub fn get_problem_words(&self) -> (r: &Vec<ProblemWordEntry>)
        ensures
            ledger_of(r@) == self.problem_words.ledger(),
    {
        self.problem_words.get_words()
    }

    pub fn get_struggle_combinations(&self) -> (r: &Vec<WordSpeedEntry>)
        requires
            self.wf(),
        ensures
            ranked_of(r@) == self.struggle_combinations.table(),
    {
        self.struggle_combinations.get_combinations()
    }

    /// The final report: the aggregate speed and the four trackers'
    /// contents as they stand.
    pub fn generate_final_scores(&self) -> (r: FinalReport)
        requires
            self.wf(),
        ensures
            r.average_speed_milli_wpm == sat_speed_milli_wpm(
                self.total_correct_chars as int,
                self.total_time_ms as int,
            ),
            ledger_of(r.problem_words@) == self.problem_words.ledger(),
            ranked_of(r.fastest_words@) == self.fastest_slowest_words.fastest(),
            ranked_of(r.slowest_words@) == self.fastest_slowest_words.slowest(),
            ranked_of(r.struggle_combinations@) == self.struggle_combinations.table(),
    {
        FinalReport {
            average_speed_milli_wpm: self.average_wpm(),
            problem_words: clone_ledger_entries(self.get_problem_words()),
            fastest_words: clone_ranked_entries(self.get_fastest_words()),
            slowest_words: clone_ranked_entries(self.get_slowest_words()),
            struggle_combinations: clone_ranked_entries(self.get_struggle_combinations()),
        }
    }
}

/// A copy of ledger entries, preserving their models.
fn clone_ledger_entries(v: &Vec<ProblemWordEntry>) -> (r: Vec<ProblemWordEntry>)
    ensures
        ledger_of(r@) == ledger_of(v@),
{
    let mut r: Vec<ProblemWordEntry> = Vec::new();
    let mut i: usize = 0;
    while i < v.len()
        invariant
            i <= v.len(),
            r@.len() == i,
            forall|j: int|
                0 <= j < i ==> (#[trigger] r@[j]).word@ == v@[j].word@ && r@[j].speed == v@[j].speed
                    && r@[j].backspaces == v@[j].backspaces && r@[j].correct_attempts
                    == v@[j].correct_attempts,
        decreases v.len() - i,
    {
        let e = &v[i];
        r.push(
            ProblemWordEntry {
                word: e.word.clone(),
                speed: e.speed,
                backspaces: e.backspaces,
                correct_attempts: e.correct_attempts,
            },
        );
        i = i + 1;
    }
    proof {
        assert(ledger_of(r@) =~= ledger_of(v@));
    }
    r
}

/// A copy of ranked entries, preserving their models.
fn clone_ranked_entries(v: &Vec<WordSpeedEntry>) -> (r: Vec<WordSpeedEntry>)
    ensures
        ranked_of(r@) == ranked_of(v@),
{
    let mut r: Vec<WordSpeedEntry> = Vec::new();
    let mut i: usize = 0;
    while i < v.len()
        invariant
            i <= v.len(),
            r@.len() == i,
            forall|j: int|
                0 <= j < i ==> (#[trigger] r@[j]).word@ == v@[j].word@ && r@[j].speed
                    == v@[j].speed,
        decreases v.len() - i,
    {
        let e = &v[i];
        r.push(WordSpeedEntry { word: e.word.clone(), speed: e.speed });
        i = i + 1;
    }
    proof {
        assert(ranked_of(r@) =~= ranked_of(v@));
    }
    r
}

} // verus!
