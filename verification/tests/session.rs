use typing_trainer::{App, Key, WordList, WordQueue};

fn single_word_app(word: &str) -> App {
    // The session starts on the second list where there is one.
    let lists = vec![
        WordList { name: "first".to_string(), words: vec!["x".to_string()] },
        WordList { name: "second".to_string(), words: vec![word.to_string()] },
    ];
    App::new(lists)
}

fn type_word(app: &mut App, word: &str, start_ms: u64, step_ms: u64) -> u64 {
    let mut t = start_ms;
    for c in word.chars() {
        app.on_key(Key::Char(c), t);
        t += step_ms;
    }
    t
}

#[test]
fn five_char_word_in_one_minute_scores_one_wpm_and_no_ledger_entry() {
    let mut app = single_word_app("apple");
    assert_eq!(app.word_queue.current_word(), "apple");
    // First keystroke at 0 starts the attempt; the space lands at 60 s.
    type_word(&mut app, "apple", 0, 100);
    app.on_key(Key::Char(' '), 60_000);
    // 5 chars / 5 per word / 1 minute = 1.0 WPM = 1000 milli-WPM.
    assert_eq!(app.average_speed_last_10_words(), 1000);
    assert!(app.performance.get_problem_words().is_empty());
    assert_eq!(app.performance.average_wpm(), 1000);
}

#[test]
fn wrong_final_character_adds_ledger_entry_and_sets_repeat_flag() {
    let mut app = single_word_app("apple");
    type_word(&mut app, "appla", 0, 100);
    app.on_key(Key::Char(' '), 1000);
    let ledger = app.performance.get_problem_words();
    assert_eq!(ledger.len(), 1);
    assert_eq!(ledger[0].word, "apple");
    assert_eq!(ledger[0].correct_attempts, 0);
    assert!(app.word_queue.is_current_word_problem());
}

#[test]
fn one_backspace_after_correct_character_flags_current_word() {
    let mut app = single_word_app("apple");
    app.on_key(Key::Char('a'), 0);
    app.on_key(Key::Backspace, 100);
    let ledger = app.performance.get_problem_words();
    assert_eq!(ledger.len(), 1);
    assert_eq!(ledger[0].word, "apple");
    assert!(app.word_queue.is_current_word_problem());
}

#[test]
fn mistyped_position_recorded_and_undone_by_backspace() {
    let mut app = single_word_app("apple");
    app.on_key(Key::Char('z'), 0);
    assert_eq!(app.performance.mistyped_chars, vec![0]);
    app.on_key(Key::Backspace, 100);
    assert!(app.performance.mistyped_chars.is_empty());
    assert_eq!(app.user_input, "");
}

#[test]
fn problem_word_must_be_retyped_three_times_in_a_row() {
    let mut app = single_word_app("apple");
    // A mistake puts the word in the repeat loop.
    type_word(&mut app, "wrong", 0, 10);
    app.on_key(Key::Char(' '), 100);
    assert!(app.word_queue.is_current_word_problem());
    // Two correct completions are not enough to leave the loop.
    let mut t = 1000;
    for _ in 0..2 {
        t = type_word(&mut app, "apple", t, 10) + 10;
        app.on_key(Key::Char(' '), t);
        t += 10;
        assert!(app.word_queue.is_current_word_problem());
        assert_eq!(app.word_queue.current_word(), "apple");
    }
    // The third correct completion releases it.
    t = type_word(&mut app, "apple", t, 10) + 10;
    app.on_key(Key::Char(' '), t);
    assert!(!app.word_queue.is_current_word_problem());
}

#[test]
fn mistake_resets_repetition_counter_and_keeps_repeat_mode() {
    let mut app = single_word_app("apple");
    type_word(&mut app, "wrong", 0, 10);
    app.on_key(Key::Char(' '), 100);
    let mut t = 1000;
    // Two correct completions, then a mistake.
    for _ in 0..2 {
        t = type_word(&mut app, "apple", t, 10) + 10;
        app.on_key(Key::Char(' '), t);
        t += 10;
    }
    assert_eq!(app.word_queue.get_current_problem_word_repetitions(), 2);
    t = type_word(&mut app, "nope", t, 10) + 10;
    app.on_key(Key::Char(' '), t);
    assert!(app.word_queue.is_current_word_problem());
    assert_eq!(app.word_queue.get_current_problem_word_repetitions(), 0);
}

#[test]
fn other_keys_are_ignored_beyond_timing() {
    let mut app = single_word_app("apple");
    app.on_key(Key::Other, 0);
    assert_eq!(app.user_input, "");
    assert_eq!(app.word_queue.current_word(), "apple");
    assert!(app.performance.get_problem_words().is_empty());
}

#[test]
fn out_of_range_list_switch_is_ignored() {
    let mut app = single_word_app("apple");
    app.on_key(Key::Char('a'), 0);
    app.change_word_list(7);
    assert_eq!(app.current_list_index, 1);
    assert_eq!(app.word_queue.current_word(), "apple");
    assert_eq!(app.user_input, "a");
}

#[test]
fn switching_away_and_back_preserves_word_set() {
    let list_a = vec!["alpha".to_string(), "beta".to_string(), "gamma".to_string()];
    let list_b = vec!["delta".to_string(), "epsilon".to_string(), "zeta".to_string()];
    let lists = vec![
        WordList { name: "a".to_string(), words: list_a.clone() },
        WordList { name: "b".to_string(), words: list_b.clone() },
    ];
    let mut app = App::new(lists);
    // With three words the current word and the two lookahead words are
    // the whole list; the pool is empty.
    let held = |app: &App| {
        let mut v: Vec<String> = vec![app.word_queue.current_word().to_string()];
        v.extend(app.word_queue.next_words().iter().cloned());
        v.sort();
        v
    };
    app.change_word_list(0);
    let mut expect_a = list_a.clone();
    expect_a.sort();
    assert_eq!(held(&app), expect_a);
    app.change_word_list(1);
    let mut expect_b = list_b.clone();
    expect_b.sort();
    assert_eq!(held(&app), expect_b);
    app.change_word_list(0);
    assert_eq!(held(&app), expect_a);
}

#[test]
fn final_report_reflects_tracker_contents() {
    let mut app = single_word_app("apple");
    type_word(&mut app, "apple", 0, 100);
    app.on_key(Key::Char(' '), 60_000);
    let report = app.generate_final_scores();
    assert_eq!(report.average_speed_milli_wpm, 1000);
    assert!(report.problem_words.is_empty());
    assert_eq!(report.fastest_words.len(), 1);
    assert_eq!(report.fastest_words[0].word, "apple");
    assert_eq!(report.fastest_words[0].speed, 1000);
    assert_eq!(report.slowest_words.len(), 1);
    assert!(!report.struggle_combinations.is_empty());
}

#[test]
fn queue_serves_empty_strings_for_empty_list() {
    let q = WordQueue::new(Vec::new());
    assert_eq!(q.current_word(), "");
    assert_eq!(q.next_words().len(), 2);
    assert_eq!(q.next_words()[0], "");
}

#[test]
fn queue_advance_never_stalls_on_short_lists() {
    let mut q = WordQueue::new(vec!["solo".to_string()]);
    for _ in 0..5 {
        q.next_word();
        assert_eq!(q.next_words().len(), 2);
    }
    // The one real word keeps coming back around via reshuffles.
    let mut seen_solo = q.current_word() == "solo";
    for _ in 0..5 {
        q.next_word();
        seen_solo = seen_solo || q.current_word() == "solo";
    }
    assert!(seen_solo);
}

#[test]
fn flagging_same_word_twice_does_not_duplicate_queue_entry() {
    let mut q = WordQueue::new(vec!["a".to_string(), "b".to_string(), "c".to_string()]);
    let w = q.current_word().to_string();
    q.add_problem_word(w.clone());
    q.add_problem_word(w.clone());
    // Serve the problem word and complete it three times.
    q.next_word();
    assert_eq!(q.current_word(), w);
    for _ in 0..3 {
        q.update_problem_word_correct_attempt();
        q.next_word();
    }
    // Had the word been queued twice it would be served again now.
    assert!(!q.is_current_word_problem());
}
