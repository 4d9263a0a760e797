//! The struggle-combination table: every two- and three-character substring
//! of the text typed so far, ranked ascending by typing speed so the
//! slowest (most struggled-with) key sequences surface first. Speeds are
//! smoothed with the same averaging rule as the problem-word ledger.

use vstd::prelude::*;
use vstd::string::StrSliceExecFns;
use crate::fastest_slowest_words::{
    drop_word, insert_ranked, lemma_drop_word_absent, lemma_drop_word_at, lemma_drop_word_no_word,
    lemma_insert_ranked_at, lemma_sorted_distinct_insert, ranked_before, ranked_has_word,
    ranked_index_of, ranked_of, ranked_sorted, ranked_words_distinct, RankedEntryModel,
    WordSpeedEntry,
};
use crate::text::str_eq;
use crate::wpm::speed_milli_wpm;

verus! {

/// How many combinations the table retains after an update.
pub const STRUGGLE_CAP: usize = 50;

/// The speed credited to one n-gram typed over one keystroke interval.
/// An n-gram is at most three characters, so this never saturates.
pub open spec fn gram_speed(len: int, elapsed_ms: int) -> u64
    recommends
        0 <= len <= 3,
{
    speed_milli_wpm(len, elapsed_ms) as u64
}

/// The two- and three-character substrings of `input` starting at or after
/// position `i`, in scan order: at each position the bigram comes first,
/// then the trigram.
pub open spec fn grams_from(input: Seq<char>, i: int) -> Seq<Seq<char>>
    decreases input.len() - i,
{
    if i < 0 || i + 1 >= input.len() {
        Seq::<Seq<char>>::empty()
    } else {
        seq![input.subrange(i, i + 2)] + (if i + 2 < input.len() {
            seq![input.subrange(i, i + 3)]
        } else {
            Seq::<Seq<char>>::empty()
        }) + grams_from(input, i + 1)
    }
}

pub open spec fn grams_of(input: Seq<char>) -> Seq<Seq<char>> {
    grams_from(input, 0)
}

/// One n-gram folded into the table: its old entry (if any) is replaced by
/// one with the smoothed speed, re-inserted in ascending rank order.
pub open spec fn smooth_step(
    t: Seq<RankedEntryModel>,
    gram: Seq<char>,
    speed: u64,
) -> Seq<RankedEntryModel> {
    let m = if ranked_has_word(t, gram) {
        RankedEntryModel {
            word: gram,
            speed: ((t[ranked_index_of(t, gram)].speed + speed) / 2) as u64,
        }
    } else {
        RankedEntryModel { word: gram, speed }
    };
    insert_ranked(drop_word(t, gram), m, true)
}

/// Every n-gram of the list folded into the table in order, each credited
/// the speed of its own length over the keystroke interval.
pub open spec fn smooth_all(
    t: Seq<RankedEntryModel>,
    grams: Seq<Seq<char>>,
    elapsed_ms: int,
) -> Seq<RankedEntryModel>
    decreases grams.len(),
{
    if grams.len() == 0 {
        t
    } else {
        smooth_all(
            smooth_step(t, grams.first(), gram_speed(grams.first().len() as int, elapsed_ms)),
            grams.drop_first(),
            elapsed_ms,
        )
    }
}

/// The table an update leaves behind: the fold of all n-grams, clipped to
/// the cap.
pub open spec fn struggle_update(
    t: Seq<RankedEntryModel>,
    input: Seq<char>,
    elapsed_ms: int,
) -> Seq<RankedEntryModel> {
    let folded = smooth_all(t, grams_of(input), elapsed_ms);
    if folded.len() <= STRUGGLE_CAP {
        folded
    } else {
        folded.take(STRUGGLE_CAP as int)
    }
}

pub struct StruggleCombinations {
    combinations: Vec<WordSpeedEntry>,
}

impl StruggleCombinations {
    /// The ranked table; each entry's `word` holds the n-gram.
    pub closed spec fn table(self) -> Seq<RankedEntryModel> {
        ranked_of(self.combinations@)
    }

    /// Ascending by speed, no n-gram twice, never over the cap.
    pub open spec fn wf(self) -> bool {
        &&& ranked_sorted(self.table(), true)
        &&& ranked_words_distinct(self.table())
        &&& self.table().len() <= STRUGGLE_CAP
    }

    pub fn new() -> (r: Self)
        ensures
            r.table() == Seq::<RankedEntryModel>::empty(),
            r.wf(),
    {
        let combinations: Vec<WordSpeedEntry> = Vec::new();
        proof {
            assert(ranked_of(combinations@) =~= Seq::<RankedEntryModel>::empty());
        }
        StruggleCombinations { combinations }
    }

    /// Folds one n-gram into the table, keeping it sorted and duplicate-free.
    fn process_gram(&mut self, gram: &str, speed: u64)
        requires
            ranked_sorted(old(self).table(), true),
            ranked_words_distinct(old(self).table()),
        ensures
            ranked_sorted(final(self).table(), true),
            ranked_words_distinct(final(self).table()),
            final(self).table() == smooth_step(old(self).table(), gram@, speed),
            final(self).table().len() <= old(self).table().len() + 1,
    {
        let ghost pre = self.table();
        let n = self.combinations.len();
        let mut i: usize = 0;
        let mut found = false;
        while i < n && !found
            invariant
                i <= n,
                n == pre.len(),
                self.table() == pre,
                !found ==> forall|j: int| 0 <= j < i ==> pre[j].word != gram@,
                found ==> i < pre.len() && pre[i as int].word == gram@ && forall|j: int|
                    0 <= j < i ==> pre[j].word != gram@,
            decreases n - i, (if found { 0int } else { 1int }),
        {
            if str_eq(self.combinations[i].word.as_str(), gram) {
                found = true;
            } else {
                i = i + 1;
            }
        }
        let smoothed: u64 = if found {
            proof {
                assert(ranked_has_word(pre, gram@));
                let k = ranked_index_of(pre, gram@);
                assert(0 <= k < pre.len() && pre[k].word == gram@);
                assert(k == i as int);
            }
            let s: u64 = ((self.combinations[i].speed as u128 + speed as u128) / 2) as u64;
            self.combinations.remove(i);
            proof {
                lemma_drop_word_at(pre, gram@, i as int);
                assert(self.table() =~= pre.remove(i as int));
            }
            s
        } else {
            proof {
                assert(!ranked_has_word(pre, gram@));
                lemma_drop_word_absent(pre, gram@);
            }
            speed
        };
        let ghost m = RankedEntryModel { word: gram@, speed: smoothed };
        let ghost dropped = drop_word(pre, gram@);
        proof {
            assert(self.table() == dropped);
        }
        let mut pos: usize = 0;
        let mut scanning = true;
        while scanning
            invariant
                pos <= self.combinations.len(),
                self.table() == dropped,
                forall|j: int| 0 <= j < pos ==> ranked_before(true, dropped[j].speed, smoothed),
                !scanning ==> pos == dropped.len() || !ranked_before(
                    true,
                    dropped[pos as int].speed,
                    smoothed,
                ),
            decreases self.combinations.len() - pos, (if scanning { 1int } else { 0int }),
        {
            if pos >= self.combinations.len() {
                scanning = false;
            } else {
                if self.combinations[pos].speed <= smoothed {
                    pos = pos + 1;
                } else {
                    scanning = false;
                }
            }
        }
        let entry = WordSpeedEntry { word: gram.to_owned(), speed: smoothed };
        self.combinations.insert(pos, entry);
        proof {
            lemma_insert_ranked_at(dropped, m, true, pos as int);
            assert(self.table() =~= dropped.insert(pos as int, m));
            lemma_drop_word_no_word(pre, gram@);
            lemma_sorted_distinct_insert(dropped, m, true, pos as int);
            assert(self.table() == smooth_step(pre, gram@, speed));
        }
    }

    /// Feeds one keystroke interval: every bigram and trigram of the text
    /// typed so far is credited this interval's speed for its length, the
    /// table is re-ranked ascending, and clipped back to the cap.
    pub fn update(&mut self, elapsed_ms: u64, user_input: &str)
        requires
            old(self).wf(),
        ensures
            final(self).wf(),
            final(self).table() == struggle_update(
                old(self).table(),
                user_input@,
                elapsed_ms as int,
            ),
    {
        let ghost pre = self.table();
        let ghost all = grams_of(user_input@);
        let n = user_input.unicode_len();
        let mut i: usize = 0;
        proof {
            assert(smooth_all(self.table(), grams_from(user_input@, i as int), elapsed_ms as int)
                == smooth_all(pre, all, elapsed_ms as int));
        }
        while n >= 2 && i < n - 1
            invariant
                i <= n,
                n == user_input@.len(),
                ranked_sorted(self.table(), true),
                ranked_words_distinct(self.table()),
                smooth_all(self.table(), grams_from(user_input@, i as int), elapsed_ms as int)
                    == smooth_all(pre, all, elapsed_ms as int),
            decreases n - i,
        {
            let ghost table0 = self.table();
            let ghost rest0 = grams_from(user_input@, i as int);
            let bigram = user_input.substring_char(i, i + 2);
            let bigram_speed = gram_speed_exec(2, elapsed_ms);
            self.process_gram(bigram, bigram_speed);
            proof {
                let tri_part: Seq<Seq<char>> = if i as int + 2 < user_input@.len() {
                    seq![user_input@.subrange(i as int, i as int + 3)]
                } else {
                    Seq::<Seq<char>>::empty()
                };
                let rest_next = grams_from(user_input@, i as int + 1);
                assert(rest0 == seq![user_input@.subrange(i as int, i as int + 2)] + tri_part
                    + rest_next);
                assert(rest0.first() == user_input@.subrange(i as int, i as int + 2));
                assert(rest0.drop_first() =~= tri_part + rest_next);
                assert(bigram@ == rest0.first());
                assert(self.table() == smooth_step(
                    table0,
                    rest0.first(),
                    gram_speed(rest0.first().len() as int, elapsed_ms as int),
                ));
                assert(smooth_all(self.table(), rest0.drop_first(), elapsed_ms as int)
                    == smooth_all(table0, rest0, elapsed_ms as int));
            }
            if i + 2 < n {
                let ghost table1 = self.table();
                let ghost rest1 = grams_from(user_input@, i as int).drop_first();
                let trigram = user_input.substring_char(i, i + 3);
                let trigram_speed = gram_speed_exec(3, elapsed_ms);
                self.process_gram(trigram, trigram_speed);
                proof {
                    let rest_next = grams_from(user_input@, i as int + 1);
                    assert(rest1 == seq![user_input@.subrange(i as int, i as int + 3)] + rest_next);
                    assert(rest1.first() == user_input@.subrange(i as int, i as int + 3));
                    assert(rest1.drop_first() =~= rest_next);
                    assert(trigram@ == rest1.first());
                    assert(self.table() == smooth_step(
                        table1,
                        rest1.first(),
                        gram_speed(rest1.first().len() as int, elapsed_ms as int),
                    ));
                    assert(smooth_all(self.table(), rest_next, elapsed_ms as int) == smooth_all(
                        table1,
                        rest1,
                        elapsed_ms as int,
                    ));
                }
            } else {
                proof {
                    let rest_next = grams_from(user_input@, i as int + 1);
                    assert(grams_from(user_input@, i as int).drop_first() =~= rest_next);
                }
            }
            i = i + 1;
        }
        proof {
            assert(grams_from(user_input@, i as int) =~= Seq::<Seq<char>>::empty());
            assert(self.table() == smooth_all(pre, all, elapsed_ms as int));
        }
        if self.combinations.len() > STRUGGLE_CAP {
            let ghost folded = self.table();
            self.combinations.truncate(STRUGGLE_CAP);
            proof {
                assert(self.table() =~= folded.take(STRUGGLE_CAP as int));
            }
        }
        proof {
            assert(self.table() == struggle_update(pre, user_input@, elapsed_ms as int));
        }
    }

    /// The ranked combinations, slowest first.
    pub fn get_combinations(&self) -> (r: &Vec<WordSpeedEntry>)
        requires
            self.wf(),
        ensures
            ranked_of(r@) == self.table(),
            ranked_sorted(ranked_of(r@), true),
            ranked_words_distinct(ranked_of(r@)),
            r@.len() <= STRUGGLE_CAP,
    {
        &self.combinations
    }
}

/// The speed for one n-gram of `len` characters over `elapsed_ms`.
fn gram_speed_exec(len: usize, elapsed_ms: u64) -> (r: u64)
    requires
        len <= 3,
    ensures
        r == gram_speed(len as int, elapsed_ms as int),
{
    crate::wpm::compute_speed_milli_wpm(len, elapsed_ms)
}

} // verus!
