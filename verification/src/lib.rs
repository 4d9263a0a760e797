//! Adaptive typing-practice engine: word selection, per-word speed analytics,
//! and spaced repetition of words the user struggles with.
//!
//! Speeds are carried as integers in thousandths of a word per minute
//! (milli-WPM), so that one word of five characters typed in one minute
//! scores exactly 1000. Timestamps arrive as milliseconds on a monotonic
//! session clock supplied by the caller.

#![verifier::loop_isolation(false)]

mod app;
mod fastest_slowest_words;
mod performance_tracker;
mod problem_words;
mod struggle_combinations;
mod text;
mod word_lists;
mod word_queue;
mod word_speed_tracker;
mod wpm;

pub use app::{App, Key};
pub use fastest_slowest_words::FastestSlowestWords;
pub use performance_tracker::{FinalReport, PerformanceTracker};
pub use problem_words::ProblemWords;
pub use struggle_combinations::StruggleCombinations;
pub use text::str_eq;
pub use word_lists::{load_word_lists, load_words_from_embedded, split_lines, WordList};
pub use word_queue::WordQueue;
pub use word_speed_tracker::WordSpeedTracker;
pub use wpm::{compute_speed_milli_wpm, speed_milli_wpm};
