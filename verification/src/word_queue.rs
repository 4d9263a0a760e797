//! The word queue: the pool of practice words, the current word and the
//! two-word lookahead shown to the user, and a FIFO of problem words that
//! must each be retyped correctly three times in a row before returning to
//! normal rotation. The pool is served in shuffled order and refreshed
//! from the full original list whenever it runs out, so the session never
//! stalls.

use vstd::prelude::*;
use vstd::multiset::Multiset;
use rand::seq::SliceRandom;
use crate::text::str_eq;

verus! {

/// A problem word must be retyped correctly this many times in a row.
pub const REQUIRED_REPETITIONS: u8 = 3;

/// The character sequences of a vector of strings, in order.
pub open spec fn words_of(ws: Seq<String>) -> Seq<Seq<char>> {
    ws.map_values(|s: String| s@)
}

/// One queued problem word, as stored.
pub struct ProblemQueueEntry {
    pub word: String,
    pub counter: u8,
}

/// The mathematical shadow of a queued problem word.
pub struct ProblemQueueEntryModel {
    pub word: Seq<char>,
    pub counter: u8,
}

pub open spec fn queue_entry_model(e: ProblemQueueEntry) -> ProblemQueueEntryModel {
    ProblemQueueEntryModel { word: e.word@, counter: e.counter }
}

pub open spec fn queue_of(es: Seq<ProblemQueueEntry>) -> Seq<ProblemQueueEntryModel> {
    es.map_values(|e: ProblemQueueEntry| queue_entry_model(e))
}

pub open spec fn queue_words_distinct(s: Seq<ProblemQueueEntryModel>) -> bool {
    forall|i: int, j: int| 0 <= i < j < s.len() ==> s[i].word != s[j].word
}

pub open spec fn queue_has_word(s: Seq<ProblemQueueEntryModel>, w: Seq<char>) -> bool {
    exists|i: int| 0 <= i < s.len() && s[i].word == w
}

pub open spec fn queue_index_of(s: Seq<ProblemQueueEntryModel>, w: Seq<char>) -> int {
    choose|i: int| 0 <= i < s.len() && s[i].word == w
}

/// The whole queue state, at the level the contracts speak of.
pub struct QueueModel {
    pub problem_queue: Seq<ProblemQueueEntryModel>,
    pub pool: Seq<Seq<char>>,
    pub originals: Seq<Seq<char>>,
    pub current: Seq<char>,
    pub lookahead: Seq<Seq<char>>,
    pub repeating: bool,
    pub repetitions: u8,
}

/// How one word is drawn for serving: from the end of the pool while it
/// lasts; from a fresh reshuffle of the original list once the pool is
/// exhausted; the empty word when there are no words at all.
pub open spec fn pulled(
    pool0: Seq<Seq<char>>,
    originals: Seq<Seq<char>>,
    w: Seq<char>,
    pool1: Seq<Seq<char>>,
) -> bool {
    if pool0.len() > 0 {
        w == pool0.last() && pool1 == pool0.drop_last()
    } else if originals.len() > 0 {
        pool1.push(w).to_multiset() == originals.to_multiset()
    } else {
        w == Seq::<char>::empty() && pool1 == pool0
    }
}

/// Zero or more draws in order.
pub open spec fn pulled_n(
    pool0: Seq<Seq<char>>,
    originals: Seq<Seq<char>>,
    ws: Seq<Seq<char>>,
    pool1: Seq<Seq<char>>,
) -> bool
    decreases ws.len(),
{
    if ws.len() == 0 {
        pool1 == pool0
    } else {
        exists|mid: Seq<Seq<char>>|
            pulled_n(pool0, originals, ws.drop_last(), mid) && pulled(
                mid,
                originals,
                ws.last(),
                pool1,
            )
    }
}

/// What one advance of the queue does: while a problem word still needs
/// repetitions it is re-served unchanged; at the required count it is
/// popped; then the front of the problem queue, or failing that the first
/// lookahead word, becomes current, and the lookahead is refilled to two
/// entries by drawing from the pool.
pub open spec fn advance_rel(pre: QueueModel, post: QueueModel) -> bool {
    if pre.repeating && pre.repetitions < REQUIRED_REPETITIONS {
        post == pre
    } else {
        let q = if pre.repeating {
            pre.problem_queue.drop_first()
        } else {
            pre.problem_queue
        };
        &&& post.originals == pre.originals
        &&& post.problem_queue == q
        &&& post.repetitions == 0
        &&& post.lookahead.len() == 2
        &&& if q.len() > 0 {
            &&& post.repeating
            &&& post.current == q[0].word
            &&& exists|ws: Seq<Seq<char>>|
                pulled_n(pre.pool, pre.originals, ws, post.pool) && post.lookahead
                    == pre.lookahead + ws
        } else {
            &&& !post.repeating
            &&& exists|ws: Seq<Seq<char>>|
                pulled_n(pre.pool, pre.originals, ws, post.pool) && seq![post.current]
                    + post.lookahead == pre.lookahead + ws
        }
    }
}

/// What switching to a new word list does: the originals become the new
/// list, the problem queue and repeat state are kept, and the current
/// word, lookahead and pool are re-derived from a shuffle of the new list.
pub open spec fn switch_rel(post: QueueModel, pre: QueueModel, list: Seq<Seq<char>>) -> bool {
    &&& post.originals == list
    &&& post.problem_queue == pre.problem_queue
    &&& post.repeating == pre.repeating
    &&& post.repetitions == pre.repetitions
    &&& if list.len() >= 3 {
        &&& post.lookahead.len() == 2
        &&& (seq![post.current] + post.lookahead + post.pool).to_multiset() == list.to_multiset()
    } else {
        &&& post.lookahead.to_multiset() == list.to_multiset()
        &&& post.current == Seq::<char>::empty()
        &&& post.pool.len() == 0
    }
}

/// The queue state after a word is flagged as a problem word: its entry's
/// counter is reset (or a fresh entry appended), and the repeat loop is
/// forced with the repetition count reset.
pub open spec fn queue_flagged(pre: QueueModel, w: Seq<char>) -> QueueModel {
    QueueModel {
        problem_queue: if queue_has_word(pre.problem_queue, w) {
            pre.problem_queue.update(
                queue_index_of(pre.problem_queue, w),
                ProblemQueueEntryModel { word: w, counter: 0 },
            )
        } else {
            pre.problem_queue.push(ProblemQueueEntryModel { word: w, counter: 0 })
        },
        repeating: true,
        repetitions: 0,
        ..pre
    }
}

/// The queue state after one correct retype is credited: the repetition
/// count rises (saturating) inside the repeat loop, and nothing changes
/// outside it.
pub open spec fn queue_credited(pre: QueueModel) -> QueueModel {
    if pre.repeating {
        QueueModel {
            repetitions: if pre.repetitions < u8::MAX {
                (pre.repetitions + 1) as u8
            } else {
                u8::MAX
            },
            ..pre
        }
    } else {
        pre
    }
}

/// The words a queue is currently serving from: the current word, the
/// lookahead, and what is left of the pool.
pub open spec fn held_words(m: QueueModel) -> Multiset<Seq<char>> {
    (seq![m.current] + m.lookahead + m.pool).to_multiset()
}

pub struct WordQueue {
    problem_word_queue: Vec<ProblemQueueEntry>,
    all_words: Vec<String>,
    original_words: Vec<String>,
    current_word: String,
    next_words: Vec<String>,
    is_repeating_problem_word: bool,
    problem_word_repetitions: u8,
}

/// Relies on rand's `SliceRandom::shuffle`: it permutes the slice in
/// place, so the words are kept, only their order changes.
#[verifier::external_body]
fn shuffle_words(words: &mut Vec<String>)
    ensures
        words_of(final(words)@).to_multiset() == words_of(old(words)@).to_multiset(),
        final(words)@.len() == old(words)@.len(),
{
    words.shuffle(&mut rand::rng());
}

/// A copy of the words, character for character.
pub(crate) fn clone_words(ws: &Vec<String>) -> (r: Vec<String>)
    ensures
        words_of(r@) == words_of(ws@),
{
    let mut r: Vec<String> = Vec::new();
    let mut i: usize = 0;
    while i < ws.len()
        invariant
            i <= ws.len(),
            r@.len() == i,
            forall|j: int| 0 <= j < i ==> r@[j]@ == ws@[j]@,
        decreases ws.len() - i,
    {
        r.push(ws[i].clone());
        i = i + 1;
    }
    proof {
        assert(words_of(r@) =~= words_of(ws@));
    }
    r
}

/// Draws one word as `pulled` describes.
fn pull_word(pool: &mut Vec<String>, originals: &Vec<String>) -> (w: String)
    ensures
        pulled(words_of(old(pool)@), words_of(originals@), w@, words_of(final(pool)@)),
{
    let ghost pool0 = words_of(pool@);
    if pool.len() == 0 && originals.len() > 0 {
        *pool = clone_words(originals);
        shuffle_words(pool);
    }
    let ghost refreshed = words_of(pool@);
    match pool.pop() {
        Some(x) => {
            proof {
                assert(words_of(pool@) =~= refreshed.drop_last());
                assert(x@ == refreshed.last());
                if pool0.len() == 0 {
                    assert(refreshed.drop_last().push(refreshed.last()) =~= refreshed);
                    assert(words_of(pool@).push(x@).to_multiset() == words_of(
                        originals@,
                    ).to_multiset());
                }
            }
            x
        },
        None => {
            proof {
                assert(words_of(pool@) =~= pool0);
            }
            String::new()
        },
    }
}

/// The last word of the vector, or the empty word.
fn pop_or_empty(v: &mut Vec<String>) -> (w: String)
    ensures
        old(v)@.len() > 0 ==> w@ == words_of(old(v)@).last() && words_of(final(v)@) == words_of(
            old(v)@,
        ).drop_last(),
        old(v)@.len() == 0 ==> w@ == Seq::<char>::empty() && final(v)@ == old(v)@,
{
    let ghost pre = words_of(v@);
    match v.pop() {
        Some(x) => {
            proof {
                assert(words_of(v@) =~= pre.drop_last());
            }
            x
        },
        None => String::new(),
    }
}

impl WordQueue {
    pub closed spec fn state(self) -> QueueModel {
        QueueModel {
            problem_queue: queue_of(self.problem_word_queue@),
            pool: words_of(self.all_words@),
            originals: words_of(self.original_words@),
            current: self.current_word@,
            lookahead: words_of(self.next_words@),
            repeating: self.is_repeating_problem_word,
            repetitions: self.problem_word_repetitions,
        }
    }

    pub open spec fn wf(self) -> bool {
        &&& queue_words_distinct(self.state().problem_queue)
        &&& self.state().lookahead.len() <= 2
        &&& (!self.state().repeating ==> self.state().repetitions == 0)
        &&& (self.state().repeating ==> self.state().problem_queue.len() > 0)
    }

    /// True while the queue is serving a problem word from its FIFO.
    pub fn is_current_word_problem(&self) -> (r: bool)
        ensures
            r == self.state().repeating,
    {
        self.is_repeating_problem_word
    }

    /// Consecutive correct completions of the problem word being served.
    pub fn get_current_problem_word_repetitions(&self) -> (r: u8)
        ensures
            r == self.state().repetitions,
    {
        self.problem_word_repetitions
    }

    /// The word the user must type now.
    pub fn current_word(&self) -> (r: &str)
        ensures
            r@ == self.state().current,
    {
        self.current_word.as_str()
    }

    /// The lookahead shown to the user.
    pub fn next_words(&self) -> (r: &Vec<String>)
        ensures
            words_of(r@) == self.state().lookahead,
    {
        &self.next_words
    }

    /// Starts a queue on a shuffled copy of the given list: one word is
    /// drawn as current and two as lookahead, falling back to empty words
    /// when the list is too short.
    pub fn new(initial_words: Vec<String>) -> (r: Self)
        ensures
            r.wf(),
            r.state().problem_queue == Seq::<ProblemQueueEntryModel>::empty(),
            !r.state().repeating,
            r.state().repetitions == 0,
            r.state().originals == words_of(initial_words@),
            r.state().lookahead.len() == 2,
            initial_words@.len() >= 3 ==> (seq![r.state().current] + r.state().lookahead
                + r.state().pool).to_multiset() == words_of(initial_words@).to_multiset(),
            initial_words@.len() == 2 ==> (seq![r.state().current]
                + r.state().lookahead).to_multiset() == words_of(
                initial_words@,
            ).to_multiset().insert(Seq::<char>::empty()) && r.state().pool.len() == 0,
            initial_words@.len() == 1 ==> r.state().current == words_of(initial_words@)[0]
                && r.state().lookahead == seq![Seq::<char>::empty(), Seq::<char>::empty()]
                && r.state().pool.len() == 0,
            initial_words@.len() == 0 ==> r.state().current == Seq::<char>::empty()
                && r.state().lookahead == seq![Seq::<char>::empty(), Seq::<char>::empty()]
                && r.state().pool.len() == 0,
    {
        broadcast use vstd::seq_lib::lemma_multiset_commutative, vstd::seq_lib::group_to_multiset_ensures;

        let ghost given = words_of(initial_words@);
        let original_words = clone_words(&initial_words);
        let mut all_words = initial_words;
        shuffle_words(&mut all_words);
        let ghost shuffled = words_of(all_words@);
        let current_word = pop_or_empty(&mut all_words);
        let ghost p1 = words_of(all_words@);
        let w1 = pop_or_empty(&mut all_words);
        let ghost p2 = words_of(all_words@);
        let w2 = pop_or_empty(&mut all_words);
        let ghost p3 = words_of(all_words@);
        let mut next_words: Vec<String> = Vec::new();
        next_words.push(w1);
        next_words.push(w2);
        proof {
            assert(words_of(next_words@) =~= seq![w1@, w2@]);
            assert(seq![w1@, w2@] =~= seq![w1@].push(w2@));
            assert(seq![w1@] =~= Seq::<Seq<char>>::empty().push(w1@));
            if given.len() >= 3 {
                assert(shuffled =~= p3.push(w2@).push(w1@).push(current_word@));
                assert((seq![current_word@] + seq![w1@, w2@] + p3).to_multiset() =~= shuffled.to_multiset());
            } else if given.len() == 2 {
                assert(p2 =~= Seq::<Seq<char>>::empty());
                assert(shuffled =~= p2.push(w1@).push(current_word@));
                assert(w2@ == Seq::<char>::empty());
                assert((seq![current_word@] + seq![w1@, w2@]).to_multiset() =~= shuffled.to_multiset().insert(Seq::<char>::empty()));
            } else if given.len() == 1 {
                assert(shuffled =~= p1.push(current_word@));
                assert(p1 =~= Seq::<Seq<char>>::empty());
                assert(shuffled.to_multiset() == given.to_multiset());
                assert(given =~= Seq::<Seq<char>>::empty().push(given[0]));
                assert(shuffled.to_multiset() =~= Multiset::<Seq<char>>::empty().insert(given[0]));
                assert(shuffled.to_multiset().contains(current_word@));
                assert(current_word@ == given[0]);
                assert(words_of(next_words@) =~= seq![Seq::<char>::empty(), Seq::<char>::empty()]);
            } else {
                assert(shuffled =~= Seq::<Seq<char>>::empty());
                assert(current_word@ == Seq::<char>::empty());
                assert(words_of(next_words@) =~= seq![Seq::<char>::empty(), Seq::<char>::empty()]);
            }
        }
        let r = WordQueue {
            problem_word_queue: Vec::new(),
            all_words,
            original_words,
            current_word,
            next_words,
            is_repeating_problem_word: false,
            problem_word_repetitions: 0,
        };
        proof {
            assert(queue_of(r.problem_word_queue@) =~= Seq::<ProblemQueueEntryModel>::empty());
        }
        r
    }

    /// Advances to the next word, as `advance_rel` describes: a problem
    /// word short of its repetitions is re-served unchanged; otherwise the
    /// problem-queue front, or the first lookahead word, becomes current,
    /// and the lookahead is refilled to two entries.
    pub fn next_word(&mut self)
        requires
            old(self).wf(),
        ensures
            final(self).wf(),
            advance_rel(old(self).state(), final(self).state()),
    {
        let ghost pre = self.state();
        if self.is_repeating_problem_word {
            if self.problem_word_repetitions >= REQUIRED_REPETITIONS {
                self.is_repeating_problem_word = false;
                self.problem_word_repetitions = 0;
                self.problem_word_queue.remove(0);
                proof {
                    assert(queue_of(self.problem_word_queue@) =~= pre.problem_queue.drop_first());
                }
            } else {
                return ;
            }
        }
        let ghost q = queue_of(self.problem_word_queue@);
        let ghost mut ws: Seq<Seq<char>> = Seq::empty();
        let ghost head: Seq<Seq<char>>;
        if self.problem_word_queue.len() > 0 {
            let w = self.problem_word_queue[0].word.clone();
            self.current_word = w;
            self.is_repeating_problem_word = true;
            self.problem_word_repetitions = 0;
            proof {
                head = Seq::<Seq<char>>::empty();
                assert(self.current_word@ == q[0].word);
            }
        } else {
            if self.next_words.len() == 0 {
                let ghost pool_before = words_of(self.all_words@);
                let w = pull_word(&mut self.all_words, &self.original_words);
                self.next_words.push(w);
                proof {
                    ws = ws.push(w@);
                    assert(ws.last() == w@);
                    assert(ws.drop_last() =~= Seq::<Seq<char>>::empty());
                    assert(pool_before == pre.pool);
                    assert(pulled_n(pre.pool, pre.originals, ws.drop_last(), pool_before));
                    assert(pulled(pool_before, pre.originals, ws.last(), words_of(
                        self.all_words@,
                    )));
                    assert(pulled_n(pre.pool, pre.originals, ws, words_of(self.all_words@)));
                    assert(words_of(self.next_words@) =~= pre.lookahead.push(w@));
                    assert(pre.lookahead.push(w@) =~= pre.lookahead + ws);
                }
            }
            self.current_word = self.next_words.remove(0);
            proof {
                head = seq![self.current_word@];
                assert(words_of(self.next_words@) =~= (pre.lookahead + ws).drop_first());
                assert(head + words_of(self.next_words@) =~= pre.lookahead + ws);
            }
        }
        proof {
            assert(pulled_n(pre.pool, pre.originals, ws, words_of(self.all_words@)));
            if q.len() > 0 {
                assert(head + words_of(self.next_words@) =~= pre.lookahead + ws);
            }
        }
        let ghost cur0 = self.current_word@;
        let ghost rep0 = self.is_repeating_problem_word;
        while self.next_words.len() < 2
            invariant
                words_of(self.next_words@).len() <= 2,
                pulled_n(pre.pool, pre.originals, ws, words_of(self.all_words@)),
                head + words_of(self.next_words@) == pre.lookahead + ws,
                words_of(self.original_words@) == pre.originals,
                queue_of(self.problem_word_queue@) == q,
                self.current_word@ == cur0,
                self.is_repeating_problem_word == rep0,
                self.problem_word_repetitions == 0,
            decreases 2 - self.next_words.len(),
        {
            let ghost ws_before = ws;
            let ghost la_before = words_of(self.next_words@);
            let ghost pool_before = words_of(self.all_words@);
            let w = pull_word(&mut self.all_words, &self.original_words);
            self.next_words.push(w);
            proof {
                ws = ws.push(w@);
                assert(ws.last() == w@);
                assert(ws.drop_last() =~= ws_before);
                assert(pulled_n(pre.pool, pre.originals, ws.drop_last(), pool_before));
                assert(pulled(pool_before, pre.originals, ws.last(), words_of(self.all_words@)));
                assert(pulled_n(pre.pool, pre.originals, ws, words_of(self.all_words@)));
                assert(words_of(self.next_words@) =~= la_before.push(w@));
                assert(head + la_before.push(w@) =~= (head + la_before).push(w@));
                assert((pre.lookahead + ws_before).push(w@) =~= pre.lookahead + ws);
            }
        }
        proof {
            let post = self.state();
            assert(post.problem_queue == q);
            if q.len() > 0 {
                assert(head =~= Seq::<Seq<char>>::empty());
                assert(head + post.lookahead =~= post.lookahead);
                assert(post.lookahead == pre.lookahead + ws);
            } else {
                assert(head =~= seq![cur0]);
                assert(post.current == cur0);
                assert(seq![post.current] + post.lookahead =~= head + post.lookahead);
                assert(seq![post.current] + post.lookahead == pre.lookahead + ws);
            }
            assert(advance_rel(pre, post));
        }
    }

    /// Flags a word as a problem word: its queue entry's counter is reset
    /// to zero (a fresh entry is appended if it had none), and the queue
    /// is forced into the repeat loop with the repetition count reset.
    pub fn add_problem_word(&mut self, word: String)
        requires
            old(self).wf(),
        ensures
            final(self).wf(),
            final(self).state() == queue_flagged(old(self).state(), word@),
    {
        let ghost pre = queue_of(self.problem_word_queue@);
        let n = self.problem_word_queue.len();
        let mut i: usize = 0;
        let mut found = false;
        while i < n && !found
            invariant
                i <= n,
                n == pre.len(),
                queue_of(self.problem_word_queue@) == pre,
                self == old(self),
                !found ==> forall|j: int| 0 <= j < i ==> pre[j].word != word@,
                found ==> i < pre.len() && pre[i as int].word == word@ && forall|j: int|
                    0 <= j < i ==> pre[j].word != word@,
            decreases n - i, (if found { 0int } else { 1int }),
        {
            if str_eq(self.problem_word_queue[i].word.as_str(), word.as_str()) {
                found = true;
            } else {
                i = i + 1;
            }
        }
        if found {
            proof {
                assert(queue_has_word(pre, word@));
                let k = queue_index_of(pre, word@);
                assert(0 <= k < pre.len() && pre[k].word == word@);
                assert(k == i as int);
            }
            let entry = &mut self.problem_word_queue[i];
            entry.counter = 0;
            proof {
                assert(queue_of(self.problem_word_queue@) =~= pre.update(
                    i as int,
                    (ProblemQueueEntryModel { word: word@, counter: 0 }),
                ));
            }
        } else {
            proof {
                assert(!queue_has_word(pre, word@));
            }
            self.problem_word_queue.push(ProblemQueueEntry { word, counter: 0 });
            proof {
                assert(queue_of(self.problem_word_queue@) =~= pre.push(
                    (ProblemQueueEntryModel { word: word@, counter: 0 }),
                ));
            }
        }
        self.is_repeating_problem_word = true;
        self.problem_word_repetitions = 0;
    }

    /// Credits one correct retype of the problem word being served; has no
    /// effect outside the repeat loop. The count saturates rather than
    /// wraps.
    pub fn update_problem_word_correct_attempt(&mut self)
        requires
            old(self).wf(),
        ensures
            final(self).wf(),
            final(self).state() == queue_credited(old(self).state()),
    {
        if self.is_repeating_problem_word {
            if self.problem_word_repetitions < u8::MAX {
                self.problem_word_repetitions = self.problem_word_repetitions + 1;
            }
        }
    }

    /// Switches to a new word list: the pool and originals are replaced
    /// and reshuffled and the current word and lookahead are re-derived;
    /// the problem queue and repeat state are deliberately kept.
    pub fn change_word_list(&mut self, new_words: Vec<String>)
        requires
            old(self).wf(),
        ensures
            final(self).wf(),
            switch_rel(final(self).state(), old(self).state(), words_of(new_words@)),
    {
        broadcast use vstd::seq_lib::lemma_multiset_commutative, vstd::seq_lib::group_to_multiset_ensures;

        let ghost given = words_of(new_words@);
        self.original_words = clone_words(&new_words);
        self.all_words = new_words;
        shuffle_words(&mut self.all_words);
        let ghost shuffled = words_of(self.all_words@);
        let n = self.all_words.len();
        let split_at = if n >= 2 {
            n - 2
        } else {
            0
        };
        self.next_words = self.all_words.split_off(split_at);
        let ghost pool_mid = words_of(self.all_words@);
        self.current_word = pop_or_empty(&mut self.all_words);
        proof {
            assert(words_of(self.next_words@) =~= shuffled.skip(split_at as int));
            assert(pool_mid =~= shuffled.take(split_at as int));
            if given.len() >= 3 {
                assert(words_of(self.all_words@) =~= pool_mid.drop_last());
                assert(self.current_word@ == pool_mid.last());
                assert(shuffled =~= pool_mid + words_of(self.next_words@));
                assert(pool_mid =~= words_of(self.all_words@).push(self.current_word@));
                assert((seq![self.current_word@] + words_of(self.next_words@) + words_of(
                    self.all_words@,
                )).to_multiset() =~= shuffled.to_multiset());
            } else {
                assert(pool_mid =~= Seq::<Seq<char>>::empty());
                assert(self.current_word@ == Seq::<char>::empty());
                assert(words_of(self.next_words@) =~= shuffled);
            }
        }
    }
}

/// While a problem word is short of the required consecutive correct
/// completions, an advance re-serves it: nothing about the queue changes,
/// and it stays in the repeat loop.
pub proof fn lemma_repeat_word_is_reserved(pre: QueueModel, post: QueueModel)
    requires
        advance_rel(pre, post),
        pre.repeating,
        pre.repetitions < REQUIRED_REPETITIONS,
    ensures
        post == pre,
        post.current == pre.current,
        post.repeating,
{
}

/// At the required repetition count an advance releases the word: it is
/// popped from the problem queue, the count resets, and the repeat loop
/// continues only if another problem word is waiting.
pub proof fn lemma_repeat_word_released(pre: QueueModel, post: QueueModel)
    requires
        advance_rel(pre, post),
        pre.repeating,
        pre.problem_queue.len() > 0,
        pre.repetitions >= REQUIRED_REPETITIONS,
    ensures
        post.problem_queue == pre.problem_queue.drop_first(),
        post.repetitions == 0,
        post.repeating == (pre.problem_queue.len() > 1),
{
}

/// Switching away from a word list and back to it restores the same words
/// being served, whatever happened in between: the words held after a
/// switch depend only on the list switched to, never on the prior state.
pub proof fn lemma_word_list_round_trip(
    pre_a: QueueModel,
    post_a: QueueModel,
    pre_b: QueueModel,
    post_b: QueueModel,
    list: Seq<Seq<char>>,
)
    requires
        switch_rel(post_a, pre_a, list),
        switch_rel(post_b, pre_b, list),
    ensures
        held_words(post_a) == held_words(post_b),
{
    broadcast use vstd::seq_lib::lemma_multiset_commutative, vstd::seq_lib::group_to_multiset_ensures;

    if list.len() < 3 {
        lemma_held_words_small(post_a, list);
        lemma_held_words_small(post_b, list);
    }
}

proof fn lemma_held_words_small(m: QueueModel, list: Seq<Seq<char>>)
    requires
        m.lookahead.to_multiset() == list.to_multiset(),
        m.current == Seq::<char>::empty(),
        m.pool.len() == 0,
    ensures
        held_words(m) == list.to_multiset().insert(Seq::<char>::empty()),
{
    broadcast use vstd::seq_lib::lemma_multiset_commutative, vstd::seq_lib::group_to_multiset_ensures;

    assert(m.pool =~= Seq::<Seq<char>>::empty());
    assert(seq![m.current] =~= Seq::<Seq<char>>::empty().push(Seq::<char>::empty()));
    assert((seq![m.current] + m.lookahead + m.pool).to_multiset() =~= list.to_multiset().insert(
        Seq::<char>::empty(),
    ));
}

} // verus!
