//! The problem-word ledger: one entry per mistyped word, holding a smoothed
//! average speed, the latest backspace count, and how many times in a row
//! the word has since been completed correctly. An entry is evicted only
//! once the word is both fast and reliably correct.

use vstd::prelude::*;
use crate::text::str_eq;

verus! {

/// A word leaves the ledger only at or above this smoothed speed (30 WPM).
pub const MASTERY_SPEED_MILLI_WPM: u64 = 30_000;

/// A word leaves the ledger only with at least this many correct attempts.
pub const MASTERY_CORRECT_ATTEMPTS: u8 = 2;

/// One ledger entry, as stored.
pub struct ProblemWordEntry {
    pub word: String,
    pub speed: u64,
    pub backspaces: u32,
    pub correct_attempts: u8,
}

/// The mathematical shadow of one ledger entry: the word as a character
/// sequence together with its statistics.
pub struct LedgerEntryModel {
    pub word: Seq<char>,
    pub speed: u64,
    pub backspaces: u32,
    pub correct_attempts: u8,
}

pub open spec fn entry_model(e: ProblemWordEntry) -> LedgerEntryModel {
    LedgerEntryModel {
        word: e.word@,
        speed: e.speed,
        backspaces: e.backspaces,
        correct_attempts: e.correct_attempts,
    }
}

/// The mastery rule: fast enough and correct often enough, simultaneously.
pub open spec fn mastered(m: LedgerEntryModel) -> bool {
    m.speed >= MASTERY_SPEED_MILLI_WPM && m.correct_attempts >= MASTERY_CORRECT_ATTEMPTS
}

/// The ledger with every mastered entry removed, order preserved.
pub open spec fn evict_mastered(s: Seq<LedgerEntryModel>) -> Seq<LedgerEntryModel>
    decreases s.len(),
{
    if s.len() == 0 {
        Seq::<LedgerEntryModel>::empty()
    } else if mastered(s.first()) {
        evict_mastered(s.drop_first())
    } else {
        seq![s.first()] + evict_mastered(s.drop_first())
    }
}

pub open spec fn ledger_has_word(s: Seq<LedgerEntryModel>, w: Seq<char>) -> bool {
    exists|i: int| 0 <= i < s.len() && s[i].word == w
}

/// The index of the entry for `w`; meaningful only under `ledger_has_word`
/// and the ledger's word-uniqueness invariant.
pub open spec fn ledger_index_of(s: Seq<LedgerEntryModel>, w: Seq<char>) -> int {
    choose|i: int| 0 <= i < s.len() && s[i].word == w
}

/// Pairwise-distinct words: at most one ledger entry per word.
pub open spec fn ledger_words_distinct(s: Seq<LedgerEntryModel>) -> bool {
    forall|i: int, j: int| 0 <= i < j < s.len() ==> s[i].word != s[j].word
}

/// The ledger after a fresh mistake on `word` with the given speed and
/// backspace count: a new entry, or the old one smoothed and reset.
pub open spec fn ledger_added(
    s: Seq<LedgerEntryModel>,
    word: Seq<char>,
    speed: u64,
    backspaces: u32,
) -> Seq<LedgerEntryModel> {
    if ledger_has_word(s, word) {
        s.update(
            ledger_index_of(s, word),
            LedgerEntryModel {
                word,
                speed: ((s[ledger_index_of(s, word)].speed + speed) / 2) as u64,
                backspaces,
                correct_attempts: 0,
            },
        )
    } else {
        s.push(LedgerEntryModel { word, speed, backspaces, correct_attempts: 0 })
    }
}

/// The ledger after one more consecutive correct completion of `word`:
/// its entry's count rises (saturating); a word without an entry changes
/// nothing.
pub open spec fn ledger_credited(s: Seq<LedgerEntryModel>, word: Seq<char>) -> Seq<
    LedgerEntryModel,
> {
    if ledger_has_word(s, word) {
        s.update(
            ledger_index_of(s, word),
            LedgerEntryModel {
                correct_attempts: if s[ledger_index_of(s, word)].correct_attempts < u8::MAX {
                    (s[ledger_index_of(s, word)].correct_attempts + 1) as u8
                } else {
                    u8::MAX
                },
                ..s[ledger_index_of(s, word)]
            },
        )
    } else {
        s
    }
}

/// The models of a stored entry sequence, in order.
pub open spec fn ledger_of(entries: Seq<ProblemWordEntry>) -> Seq<LedgerEntryModel> {
    entries.map_values(|e: ProblemWordEntry| entry_model(e))
}

pub struct ProblemWords {
    words: Vec<ProblemWordEntry>,
}

impl ProblemWords {
    /// The ledger contents, in insertion order.
    pub closed spec fn ledger(self) -> Seq<LedgerEntryModel> {
        ledger_of(self.words@)
    }

    pub open spec fn wf(self) -> bool {
        ledger_words_distinct(self.ledger())
    }

    pub fn new() -> (r: Self)
        ensures
            r.ledger() == Seq::<LedgerEntryModel>::empty(),
            r.wf(),
    {
        let words: Vec<ProblemWordEntry> = Vec::new();
        proof {
            assert(ledger_of(words@) =~= Seq::<LedgerEntryModel>::empty());
        }
        ProblemWords { words }
    }

    /// Records a fresh mistake on `word`: a new entry starts with the given
    /// speed; an existing entry has its speed smoothed by averaging with the
    /// new one, its backspace count replaced, and its consecutive-correct
    /// counter reset to zero.
    pub fn add(&mut self, word: String, speed: u64, backspace_count: u32)
        requires
            old(self).wf(),
        ensures
            final(self).wf(),
            final(self).ledger() == ledger_added(old(self).ledger(), word@, speed, backspace_count),
    {
        let ghost pre = self.ledger();
        let n = self.words.len();
        let mut i: usize = 0;
        while i < n
            invariant
                i <= n,
                n == pre.len(),
                self.ledger() == pre,
                self.wf(),
                forall|j: int| 0 <= j < i ==> pre[j].word != word@,
            decreases n - i,
        {
            if str_eq(self.words[i].word.as_str(), word.as_str()) {
                proof {
                    assert(pre[i as int].word == word@);
                    assert(ledger_has_word(pre, word@));
                    let k = ledger_index_of(pre, word@);
                    assert(0 <= k < pre.len() && pre[k].word == word@);
                    assert(k == i as int);
                }
                let smoothed: u64 = ((self.words[i].speed as u128 + speed as u128) / 2) as u64;
                let entry = &mut self.words[i];
                entry.speed = smoothed;
                entry.backspaces = backspace_count;
                entry.correct_attempts = 0;
                proof {
                    assert(self.ledger() =~= pre.update(
                        i as int,
                        (LedgerEntryModel {
                            word: word@,
                            speed: ((pre[i as int].speed + speed) / 2) as u64,
                            backspaces: backspace_count,
                            correct_attempts: 0,
                        }),
                    ));
                }
                return ;
            }
            i = i + 1;
        }
        proof {
            assert(!ledger_has_word(pre, word@));
        }
        self.words.push(
            ProblemWordEntry { word, speed, backspaces: backspace_count, correct_attempts: 0 },
        );
        proof {
            assert(self.ledger() =~= pre.push(
                (LedgerEntryModel {
                    word: word@,
                    speed: speed,
                    backspaces: backspace_count,
                    correct_attempts: 0,
                }),
            ));
        }
    }

    /// Credits one more consecutive correct completion to the entry for
    /// `word`, if there is one; the count saturates rather than wraps.
    pub fn update_correct_attempts(&mut self, word: &str)
        requires
            old(self).wf(),
        ensures
            final(self).wf(),
            final(self).ledger() == ledger_credited(old(self).ledger(), word@),
    {
        let ghost pre = self.ledger();
        let n = self.words.len();
        let mut i: usize = 0;
        while i < n
            invariant
                i <= n,
                n == pre.len(),
                self.ledger() == pre,
                self.wf(),
                forall|j: int| 0 <= j < i ==> pre[j].word != word@,
            decreases n - i,
        {
            if str_eq(self.words[i].word.as_str(), word) {
                proof {
                    assert(pre[i as int].word == word@);
                    assert(ledger_has_word(pre, word@));
                    let k = ledger_index_of(pre, word@);
                    assert(0 <= k < pre.len() && pre[k].word == word@);
                    assert(k == i as int);
                }
                let bumped: u8 = if self.words[i].correct_attempts < u8::MAX {
                    self.words[i].correct_attempts + 1
                } else {
                    u8::MAX
                };
                let entry = &mut self.words[i];
                entry.correct_attempts = bumped;
                proof {
                    assert(self.ledger() =~= pre.update(
                        i as int,
                        (LedgerEntryModel {
                            correct_attempts: if pre[i as int].correct_attempts < u8::MAX {
                                (pre[i as int].correct_attempts + 1) as u8
                            } else {
                                u8::MAX
                            },
                            ..pre[i as int]
                        }),
                    ));
                }
                return ;
            }
            i = i + 1;
        }
        proof {
            assert(!ledger_has_word(pre, word@));
        }
    }

    /// Drops every entry meeting the mastery rule; all others stay, in order.
    pub fn remove_learned_words(&mut self)
        requires
            old(self).wf(),
        ensures
            final(self).wf(),
            final(self).ledger() == evict_mastered(old(self).ledger()),
    {
        let ghost pre = self.ledger();
        let mut kept: Vec<ProblemWordEntry> = Vec::new();
        proof {
            assert(ledger_of(kept@) =~= Seq::<LedgerEntryModel>::empty());
        }
        while self.words.len() > 0
            invariant
                evict_mastered(pre) =~= ledger_of(kept@) + evict_mastered(self.ledger()),
            decreases self.words.len(),
        {
            let ghost cur = self.ledger();
            let ghost kept_pre = ledger_of(kept@);
            let e = self.words.remove(0);
            proof {
                assert(self.ledger() =~= cur.drop_first());
                assert(entry_model(e) == cur.first());
            }
            if e.speed < MASTERY_SPEED_MILLI_WPM || e.correct_attempts < MASTERY_CORRECT_ATTEMPTS {
                kept.push(e);
                proof {
                    assert(ledger_of(kept@) =~= kept_pre.push(cur.first()));
                    assert(kept_pre.push(cur.first()) + evict_mastered(cur.drop_first()) =~= (
                    kept_pre + (seq![cur.first()] + evict_mastered(cur.drop_first()))));
                }
            } else {
                proof {
                    assert(mastered(cur.first()));
                }
            }
        }
        proof {
            assert(self.ledger() =~= Seq::<LedgerEntryModel>::empty());
            assert(evict_mastered(pre) =~= ledger_of(kept@));
        }
        self.words = kept;
        proof {
            lemma_evict_keeps_distinct(pre);
        }
    }

    /// The ledger entries, for display and for the final report.
    pub fn get_words(&self) -> (r: &Vec<ProblemWordEntry>)
        ensures
            ledger_of(r@) == self.ledger(),
    {
        &self.words
    }
}

/// A word flagged as a problem is never removed by eviction while its
/// entry falls short of the mastery rule: below the mastery speed or
/// short of the required correct attempts, the entry stays in the ledger.
pub proof fn lemma_nonmastered_entry_retained(s: Seq<LedgerEntryModel>, i: int)
    requires
        0 <= i < s.len(),
        !mastered(s[i]),
    ensures
        evict_mastered(s).contains(s[i]),
    decreases s.len(),
{
    if i == 0 {
        assert(evict_mastered(s)[0] == s[0]);
    } else {
        lemma_nonmastered_entry_retained(s.drop_first(), i - 1);
        let sub = evict_mastered(s.drop_first());
        let j = choose|j: int| 0 <= j < sub.len() && sub[j] == s.drop_first()[i - 1];
        if mastered(s.first()) {
            assert(evict_mastered(s)[j] == s[i]);
        } else {
            assert(evict_mastered(s)[j + 1] == s[i]);
        }
    }
}

/// Eviction removes only entries that meet the mastery rule: everything in
/// the evicted ledger already stood in the old one, and word uniqueness is
/// preserved.
pub proof fn lemma_evict_keeps_distinct(s: Seq<LedgerEntryModel>)
    requires
        ledger_words_distinct(s),
    ensures
        ledger_words_distinct(evict_mastered(s)),
        forall|i: int|
            0 <= i < evict_mastered(s).len() ==> s.contains(#[trigger] evict_mastered(s)[i]),
    decreases s.len(),
{
    if s.len() == 0 {
    } else {
        assert(ledger_words_distinct(s.drop_first())) by {
            assert(forall|i: int, j: int|
                0 <= i < j < s.drop_first().len() ==> s.drop_first()[i] == s[i + 1]
                    && s.drop_first()[j] == s[j + 1]);
        }
        lemma_evict_keeps_distinct(s.drop_first());
        let sub = evict_mastered(s.drop_first());
        assert(forall|i: int| 0 <= i < sub.len() ==> s.contains(#[trigger] sub[i])) by {
            assert(forall|i: int|
                0 <= i < sub.len() ==> s.drop_first().contains(#[trigger] sub[i]));
            assert(forall|k: int|
                0 <= k < s.drop_first().len() ==> #[trigger] s.drop_first()[k] == s[k + 1]);
        }
        if !mastered(s.first()) {
            let whole = evict_mastered(s);
            assert(whole == seq![s.first()] + sub);
            assert forall|i: int, j: int| 0 <= i < j < whole.len() implies whole[i].word
                != whole[j].word by {
                if i == 0 {
                    assert(whole[j] == sub[j - 1]);
                    assert(s.drop_first().contains(sub[j - 1]));
                    let k = choose|k: int|
                        0 <= k < s.drop_first().len() && s.drop_first()[k] == sub[j - 1];
                    assert(s[k + 1] == sub[j - 1]);
                    assert(s[0].word != s[k + 1].word);
                } else {
                    assert(whole[i] == sub[i - 1] && whole[j] == sub[j - 1]);
                }
            }
        }
    }
}

} // verus!
