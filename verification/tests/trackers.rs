use typing_trainer::{
    FastestSlowestWords, ProblemWords, StruggleCombinations, WordSpeedTracker,
};

#[test]
fn speed_window_average_is_mean() {
    let mut t = WordSpeedTracker::new();
    assert_eq!(t.average_speed_last_10_words(), 0);
    t.update_recent_word_speeds(1000);
    t.update_recent_word_speeds(3000);
    assert_eq!(t.average_speed_last_10_words(), 2000);
    t.update_recent_word_speeds(100);
    assert_eq!(t.average_speed_last_10_words(), (1000 + 3000 + 100) / 3);
}

#[test]
fn speed_window_retains_exactly_last_ten_of_fifteen() {
    let mut t = WordSpeedTracker::new();
    for i in 1..=15u64 {
        t.update_recent_word_speeds(i * 100);
    }
    // The first five samples (100..500) are gone; the last ten remain.
    let expected: u64 = (6..=15u64).map(|i| i * 100).sum::<u64>() / 10;
    assert_eq!(t.average_speed_last_10_words(), expected);
}

#[test]
fn fastest_words_sorted_descending_capped_and_distinct() {
    let mut x = FastestSlowestWords::new();
    for i in 0..12u64 {
        x.update(&format!("w{}", i), 1000 + i * 10);
    }
    let fastest = x.get_fastest_words();
    assert_eq!(fastest.len(), 10);
    for w in fastest.windows(2) {
        assert!(w[0].speed >= w[1].speed);
    }
    // The two slowest of the twelve fell off the fastest list.
    assert!(fastest.iter().all(|e| e.speed >= 1020));
    let mut names: Vec<&str> = fastest.iter().map(|e| e.word.as_str()).collect();
    names.sort();
    names.dedup();
    assert_eq!(names.len(), 10);
}

#[test]
fn slowest_words_is_ascending_dual() {
    let mut x = FastestSlowestWords::new();
    for i in 0..12u64 {
        x.update(&format!("w{}", i), 1000 + i * 10);
    }
    let slowest = x.get_slowest_words();
    assert_eq!(slowest.len(), 10);
    for w in slowest.windows(2) {
        assert!(w[0].speed <= w[1].speed);
    }
    assert!(slowest.iter().all(|e| e.speed <= 1090));
}

#[test]
fn repeated_word_is_replaced_not_duplicated() {
    let mut x = FastestSlowestWords::new();
    x.update("same", 1000);
    x.update("same", 2000);
    let fastest = x.get_fastest_words();
    assert_eq!(fastest.len(), 1);
    assert_eq!(fastest[0].speed, 2000);
}

#[test]
fn ledger_entry_starts_with_zero_correct_attempts() {
    let mut p = ProblemWords::new();
    p.add("word".to_string(), 10_000, 2);
    let entries = p.get_words();
    assert_eq!(entries.len(), 1);
    assert_eq!(entries[0].word, "word");
    assert_eq!(entries[0].speed, 10_000);
    assert_eq!(entries[0].backspaces, 2);
    assert_eq!(entries[0].correct_attempts, 0);
}

#[test]
fn ledger_smooths_speed_and_resets_attempts_on_new_mistake() {
    let mut p = ProblemWords::new();
    p.add("word".to_string(), 10_000, 1);
    p.update_correct_attempts("word");
    p.add("word".to_string(), 20_000, 3);
    let entries = p.get_words();
    assert_eq!(entries.len(), 1);
    assert_eq!(entries[0].speed, (10_000 + 20_000) / 2);
    assert_eq!(entries[0].backspaces, 3);
    assert_eq!(entries[0].correct_attempts, 0);
}

#[test]
fn ledger_keeps_word_until_fast_and_reliable() {
    let mut p = ProblemWords::new();
    // Fast but not yet reliably correct: stays.
    p.add("fast".to_string(), 40_000, 0);
    p.update_correct_attempts("fast");
    // Reliable but slow: stays.
    p.add("slow".to_string(), 10_000, 0);
    p.update_correct_attempts("slow");
    p.update_correct_attempts("slow");
    // Fast and reliable: evicted.
    p.add("done".to_string(), 40_000, 0);
    p.update_correct_attempts("done");
    p.update_correct_attempts("done");
    p.remove_learned_words();
    let words: Vec<&str> = p.get_words().iter().map(|e| e.word.as_str()).collect();
    assert!(words.contains(&"fast"));
    assert!(words.contains(&"slow"));
    assert!(!words.contains(&"done"));
}

#[test]
fn ledger_evicts_at_exact_mastery_threshold() {
    let mut p = ProblemWords::new();
    p.add("edge".to_string(), 30_000, 0);
    p.update_correct_attempts("edge");
    p.update_correct_attempts("edge");
    p.remove_learned_words();
    assert!(p.get_words().is_empty());
}

#[test]
fn struggle_combinations_exact_speeds_and_order() {
    let mut s = StruggleCombinations::new();
    // 1000 ms for each n-gram: a bigram scores 2/5 words per second scaled,
    // i.e. 2 * 12_000_000 / 1000 = 24_000 milli-WPM; a trigram 36_000.
    s.update(1000, "abcd");
    let combos = s.get_combinations();
    let get = |g: &str| {
        combos
            .iter()
            .find(|e| e.word == g)
            .map(|e| e.speed)
            .unwrap_or_else(|| panic!("missing {}", g))
    };
    assert_eq!(get("ab"), 24_000);
    assert_eq!(get("bc"), 24_000);
    assert_eq!(get("cd"), 24_000);
    assert_eq!(get("abc"), 36_000);
    assert_eq!(get("bcd"), 36_000);
    assert_eq!(combos.len(), 5);
    for w in combos.windows(2) {
        assert!(w[0].speed <= w[1].speed);
    }
}

#[test]
fn struggle_combinations_smooth_on_repeat() {
    let mut s = StruggleCombinations::new();
    s.update(1000, "ab");
    s.update(2000, "ab");
    let combos = s.get_combinations();
    assert_eq!(combos.len(), 1);
    // 24_000 smoothed with 12_000: (24_000 + 12_000) / 2.
    assert_eq!(combos[0].speed, 18_000);
}

#[test]
fn struggle_table_never_exceeds_fifty_entries() {
    let mut s = StruggleCombinations::new();
    // One long input with all-distinct characters yields 57 n-grams.
    let input: String = (0..30u8).map(|i| (b'0' + i % 75) as char).collect();
    let distinct: String = "abcdefghijklmnopqrstuvwxyzABCD".to_string();
    s.update(1000, &distinct);
    assert!(s.get_combinations().len() <= 50);
    // Feeding more inputs never pushes it over the cap.
    s.update(500, &input);
    s.update(2000, "totally different words here");
    assert!(s.get_combinations().len() <= 50);
}

#[test]
fn zero_elapsed_time_scores_zero_not_a_fault() {
    let mut s = StruggleCombinations::new();
    s.update(0, "ab");
    assert_eq!(s.get_combinations()[0].speed, 0);
    assert_eq!(typing_trainer::compute_speed_milli_wpm(5, 0), 0);
}
