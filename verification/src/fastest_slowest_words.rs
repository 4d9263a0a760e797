//! Bounded ranked lists of distinct words by typing speed: the ten fastest
//! (descending) and the ten slowest (ascending) words ever completed.

use vstd::prelude::*;
use crate::text::str_eq;

verus! {

/// How many words either extremes list retains.
pub const EXTREMES_CAP: usize = 10;

/// One ranked entry, as stored.
pub struct WordSpeedEntry {
    pub word: String,
    pub speed: u64,
}

/// The mathematical shadow of a ranked entry.
pub struct RankedEntryModel {
    pub word: Seq<char>,
    pub speed: u64,
}

pub open spec fn ranked_entry_model(e: WordSpeedEntry) -> RankedEntryModel {
    RankedEntryModel { word: e.word@, speed: e.speed }
}

pub open spec fn ranked_of(entries: Seq<WordSpeedEntry>) -> Seq<RankedEntryModel> {
    entries.map_values(|e: WordSpeedEntry| ranked_entry_model(e))
}

/// Whether a speed of `a` may stay ranked before a speed of `b`.
pub open spec fn ranked_before(ascending: bool, a: u64, b: u64) -> bool {
    if ascending {
        a <= b
    } else {
        a >= b
    }
}

pub open spec fn ranked_sorted(s: Seq<RankedEntryModel>, ascending: bool) -> bool {
    forall|i: int, j: int|
        0 <= i < j < s.len() ==> ranked_before(ascending, s[i].speed, s[j].speed)
}

pub open spec fn ranked_words_distinct(s: Seq<RankedEntryModel>) -> bool {
    forall|i: int, j: int| 0 <= i < j < s.len() ==> s[i].word != s[j].word
}

pub open spec fn ranked_has_word(s: Seq<RankedEntryModel>, w: Seq<char>) -> bool {
    exists|i: int| 0 <= i < s.len() && s[i].word == w
}

/// The index of the entry for `w`; meaningful only under `ranked_has_word`
/// and word uniqueness.
pub open spec fn ranked_index_of(s: Seq<RankedEntryModel>, w: Seq<char>) -> int {
    choose|i: int| 0 <= i < s.len() && s[i].word == w
}

/// The list with the first entry for `w` removed, if there is one.
pub open spec fn drop_word(s: Seq<RankedEntryModel>, w: Seq<char>) -> Seq<RankedEntryModel>
    decreases s.len(),
{
    if s.len() == 0 {
        Seq::<RankedEntryModel>::empty()
    } else if s.first().word == w {
        s.drop_first()
    } else {
        seq![s.first()] + drop_word(s.drop_first(), w)
    }
}

/// Stable ranked insertion: the new entry goes after every entry that may
/// stay before it, so an equal speed keeps the older entry first.
pub open spec fn insert_ranked(
    s: Seq<RankedEntryModel>,
    m: RankedEntryModel,
    ascending: bool,
) -> Seq<RankedEntryModel>
    decreases s.len(),
{
    if s.len() == 0 {
        seq![m]
    } else if ranked_before(ascending, s.first().speed, m.speed) {
        seq![s.first()] + insert_ranked(s.drop_first(), m, ascending)
    } else {
        seq![m] + s
    }
}

/// What a ranked list holds after an update that applies: the word's old
/// entry is dropped, the new one is inserted in rank order, and the list
/// is clipped back to its cap.
pub open spec fn ranked_update(
    s: Seq<RankedEntryModel>,
    m: RankedEntryModel,
    ascending: bool,
) -> Seq<RankedEntryModel> {
    let t = insert_ranked(drop_word(s, m.word), m, ascending);
    if t.len() <= EXTREMES_CAP {
        t
    } else {
        t.take(EXTREMES_CAP as int)
    }
}

/// Whether an update applies at all: the list still has room, or the new
/// speed ranks strictly ahead of the current last entry.
pub open spec fn ranked_update_applies(
    s: Seq<RankedEntryModel>,
    speed: u64,
    ascending: bool,
) -> bool {
    s.len() < EXTREMES_CAP || !ranked_before(ascending, s.last().speed, speed)
}

pub(crate) proof fn lemma_drop_word_absent(s: Seq<RankedEntryModel>, w: Seq<char>)
    requires
        forall|j: int| 0 <= j < s.len() ==> s[j].word != w,
    ensures
        drop_word(s, w) == s,
    decreases s.len(),
{
    if s.len() == 0 {
        assert(drop_word(s, w) =~= s);
    } else {
        lemma_drop_word_absent(s.drop_first(), w);
        assert(drop_word(s, w) =~= s);
    }
}

pub(crate) proof fn lemma_drop_word_at(s: Seq<RankedEntryModel>, w: Seq<char>, i: int)
    requires
        0 <= i < s.len(),
        s[i].word == w,
        forall|j: int| 0 <= j < i ==> s[j].word != w,
    ensures
        drop_word(s, w) == s.remove(i),
    decreases i,
{
    if i == 0 {
        assert(drop_word(s, w) =~= s.remove(0));
    } else {
        lemma_drop_word_at(s.drop_first(), w, i - 1);
        assert(s.drop_first()[i - 1].word == w);
        assert(drop_word(s, w) == seq![s.first()] + s.drop_first().remove(i - 1));
        assert(seq![s.first()] + s.drop_first().remove(i - 1) =~= s.remove(i));
    }
}

pub(crate) proof fn lemma_insert_ranked_at(
    s: Seq<RankedEntryModel>,
    m: RankedEntryModel,
    ascending: bool,
    p: int,
)
    requires
        0 <= p <= s.len(),
        forall|j: int| 0 <= j < p ==> ranked_before(ascending, s[j].speed, m.speed),
        p < s.len() ==> !ranked_before(ascending, s[p as int].speed, m.speed),
    ensures
        insert_ranked(s, m, ascending) == s.insert(p, m),
    decreases p,
{
    if s.len() == 0 {
        assert(insert_ranked(s, m, ascending) =~= s.insert(0, m));
    } else if p == 0 {
        if !ranked_before(ascending, s.first().speed, m.speed) {
            assert(insert_ranked(s, m, ascending) =~= s.insert(0, m));
        }
    } else {
        lemma_insert_ranked_at(s.drop_first(), m, ascending, p - 1);
        assert(insert_ranked(s, m, ascending) == seq![s.first()] + s.drop_first().insert(
            p - 1,
            m,
        ));
        assert(seq![s.first()] + s.drop_first().insert(p - 1, m) =~= s.insert(p, m));
    }
}

/// One bounded list of distinct words kept sorted by speed.
pub struct RankedWordList {
    entries: Vec<WordSpeedEntry>,
    ascending: bool,
}

impl RankedWordList {
    pub closed spec fn ranking(self) -> Seq<RankedEntryModel> {
        ranked_of(self.entries@)
    }

    pub closed spec fn is_ascending(self) -> bool {
        self.ascending
    }

    /// Sorted in its direction, no duplicate words, never over the cap.
    pub open spec fn wf(self) -> bool {
        &&& ranked_sorted(self.ranking(), self.is_ascending())
        &&& ranked_words_distinct(self.ranking())
        &&& self.ranking().len() <= EXTREMES_CAP
    }

    pub fn new(ascending: bool) -> (r: Self)
        ensures
            r.ranking() == Seq::<RankedEntryModel>::empty(),
            r.is_ascending() == ascending,
            r.wf(),
    {
        let entries: Vec<WordSpeedEntry> = Vec::new();
        proof {
            assert(ranked_of(entries@) =~= Seq::<RankedEntryModel>::empty());
        }
        RankedWordList { entries, ascending }
    }

    /// Records a completed word. When the list is full and the new speed
    /// does not rank strictly ahead of the last entry, nothing changes (not
    /// even an existing entry for the same word); otherwise the word's old
    /// entry is replaced and the list re-ranked and clipped.
    #[verifier::rlimit(60)]
    pub fn update(&mut self, word: &str, speed: u64)
        requires
            old(self).wf(),
        ensures
            final(self).wf(),
            final(self).is_ascending() == old(self).is_ascending(),
            final(self).ranking() == ranked_updated(
                old(self).ranking(),
                (RankedEntryModel { word: word@, speed }),
                old(self).is_ascending(),
            ),
    {
        let ghost pre = self.ranking();
        let ghost asc = self.ascending;
        let ghost m = RankedEntryModel { word: word@, speed };
        let n = self.entries.len();
        let applies = if n < EXTREMES_CAP {
            true
        } else {
            let last_speed = self.entries[n - 1].speed;
            if self.ascending {
                speed < last_speed
            } else {
                speed > last_speed
            }
        };
        if !applies {
            return ;
        }
        // Drop any existing entry for this word.
        let mut i: usize = 0;
        let mut found = false;
        while i < self.entries.len() && !found
            invariant
                i <= self.entries.len(),
                self.ranking() == pre,
                !found ==> forall|j: int| 0 <= j < i ==> pre[j].word != word@,
                found ==> i < pre.len() && pre[i as int].word == word@ && forall|j: int|
                    0 <= j < i ==> pre[j].word != word@,
            decreases self.entries.len() - i, (if found { 0int } else { 1int }),
        {
            if str_eq(self.entries[i].word.as_str(), word) {
                found = true;
            } else {
                i = i + 1;
            }
        }
        if found {
            self.entries.remove(i);
            proof {
                lemma_drop_word_at(pre, word@, i as int);
                assert(self.ranking() =~= pre.remove(i as int));
            }
        } else {
            proof {
                lemma_drop_word_absent(pre, word@);
            }
        }
        proof {
            assert(self.ranking() == drop_word(pre, word@));
        }
        let ghost dropped = drop_word(pre, word@);
        // Find the stable insertion point in rank order.
        let mut pos: usize = 0;
        let mut scanning = true;
        while scanning
            invariant
                pos <= self.entries.len(),
                self.ranking() == dropped,
                forall|j: int| 0 <= j < pos ==> ranked_before(asc, dropped[j].speed, speed),
                !scanning ==> pos == dropped.len() || !ranked_before(
                    asc,
                    dropped[pos as int].speed,
                    speed,
                ),
            decreases self.entries.len() - pos, (if scanning { 1int } else { 0int }),
        {
            if pos >= self.entries.len() {
                scanning = false;
            } else {
                let e_speed = self.entries[pos].speed;
                let stays = if self.ascending {
                    e_speed <= speed
                } else {
                    e_speed >= speed
                };
                if stays {
                    pos = pos + 1;
                } else {
                    scanning = false;
                }
            }
        }
        let entry = WordSpeedEntry { word: word.to_owned(), speed };
        self.entries.insert(pos, entry);
        proof {
            lemma_insert_ranked_at(dropped, m, asc, pos as int);
            assert(self.ranking() =~= dropped.insert(pos as int, m));
        }
        if self.entries.len() > EXTREMES_CAP {
            let ghost before_pop = self.ranking();
            self.entries.pop();
            proof {
                assert(self.ranking() =~= before_pop.take(EXTREMES_CAP as int));
            }
        }
        proof {
            let post = self.ranking();
            let inserted = dropped.insert(pos as int, m);
            lemma_drop_word_no_word(pre, word@);
            lemma_sorted_distinct_insert(dropped, m, asc, pos as int);
            assert(post == ranked_update(pre, m, asc));
            assert(ranked_sorted(post, asc));
            assert(ranked_words_distinct(post));
        }
    }

    /// The ranked entries, best first.
    pub fn entries(&self) -> (r: &Vec<WordSpeedEntry>)
        ensures
            ranked_of(r@) == self.ranking(),
    {
        &self.entries
    }
}

/// The ranked list after an update: unchanged where the update does not
/// apply, otherwise re-ranked with the word's new entry.
pub open spec fn ranked_updated(
    s: Seq<RankedEntryModel>,
    m: RankedEntryModel,
    ascending: bool,
) -> Seq<RankedEntryModel> {
    if ranked_update_applies(s, m.speed, ascending) {
        ranked_update(s, m, ascending)
    } else {
        s
    }
}

pub(crate) proof fn lemma_sorted_distinct_insert(
    s: Seq<RankedEntryModel>,
    m: RankedEntryModel,
    ascending: bool,
    p: int,
)
    requires
        ranked_sorted(s, ascending),
        ranked_words_distinct(s),
        forall|j: int| 0 <= j < s.len() ==> s[j].word != m.word,
        0 <= p <= s.len(),
        forall|j: int| 0 <= j < p ==> ranked_before(ascending, s[j].speed, m.speed),
        p < s.len() ==> !ranked_before(ascending, s[p as int].speed, m.speed),
    ensures
        ranked_sorted(s.insert(p, m), ascending),
        ranked_words_distinct(s.insert(p, m)),
{
    let t = s.insert(p, m);
    assert forall|i: int, j: int| 0 <= i < j < t.len() implies ranked_before(
        ascending,
        t[i].speed,
        t[j].speed,
    ) && t[i].word != t[j].word by {
        if i < p && j < p {
            assert(t[i] == s[i] && t[j] == s[j]);
        } else if i < p && j == p {
            assert(t[i] == s[i] && t[j] == m);
        } else if i < p && j > p {
            assert(t[i] == s[i] && t[j] == s[j - 1]);
        } else if i == p {
            assert(t[i] == m && t[j] == s[j - 1]);
            assert(j - 1 >= p);
            if p < s.len() {
                assert(ranked_before(ascending, s[p as int].speed, s[j - 1].speed));
            }
        } else {
            assert(t[i] == s[i - 1] && t[j] == s[j - 1]);
        }
    }
}

pub(crate) proof fn lemma_drop_word_no_word(s: Seq<RankedEntryModel>, w: Seq<char>)
    requires
        ranked_words_distinct(s),
    ensures
        forall|j: int| 0 <= j < drop_word(s, w).len() ==> #[trigger] drop_word(s, w)[j].word != w,
        ranked_words_distinct(drop_word(s, w)),
        forall|asc: bool| ranked_sorted(s, asc) ==> ranked_sorted(drop_word(s, w), asc),
        drop_word(s, w).len() <= s.len(),
    decreases s.len(),
{
    if s.len() == 0 {
    } else {
        assert(ranked_words_distinct(s.drop_first())) by {
            assert(forall|k: int|
                0 <= k < s.drop_first().len() ==> #[trigger] s.drop_first()[k] == s[k + 1]);
        }
        assert(forall|asc: bool| ranked_sorted(s, asc) ==> ranked_sorted(s.drop_first(), asc)) by {
            assert(forall|k: int|
                0 <= k < s.drop_first().len() ==> #[trigger] s.drop_first()[k] == s[k + 1]);
        }
        lemma_drop_word_no_word(s.drop_first(), w);
        if s.first().word == w {
        } else {
            let sub = drop_word(s.drop_first(), w);
            assert(forall|k: int|
                0 <= k < sub.len() ==> exists|x: int|
                    0 <= x < s.drop_first().len() && #[trigger] sub[k] == s.drop_first()[x]) by {
                lemma_drop_word_subset(s.drop_first(), w);
            }
            assert forall|i: int, j: int|
                0 <= i < j < drop_word(s, w).len() implies drop_word(s, w)[i].word != drop_word(
                s,
                w,
            )[j].word by {
                if i == 0 {
                    let x = choose|x: int|
                        0 <= x < s.drop_first().len() && sub[j - 1] == s.drop_first()[x];
                    assert(s[0].word != s[x + 1].word);
                }
            }
            assert forall|asc: bool| ranked_sorted(s, asc) implies ranked_sorted(
                drop_word(s, w),
                asc,
            ) by {
                assert forall|i: int, j: int|
                    0 <= i < j < drop_word(s, w).len() implies ranked_before(
                    asc,
                    drop_word(s, w)[i].speed,
                    drop_word(s, w)[j].speed,
                ) by {
                    if i == 0 {
                        let x = choose|x: int|
                            0 <= x < s.drop_first().len() && sub[j - 1] == s.drop_first()[x];
                        assert(ranked_before(asc, s[0].speed, s[x + 1].speed));
                    }
                }
            }
        }
    }
}

proof fn lemma_drop_word_subset(s: Seq<RankedEntryModel>, w: Seq<char>)
    ensures
        forall|k: int|
            0 <= k < drop_word(s, w).len() ==> exists|x: int|
                0 <= x < s.len() && #[trigger] drop_word(s, w)[k] == s[x],
    decreases s.len(),
{
    if s.len() == 0 {
    } else {
        lemma_drop_word_subset(s.drop_first(), w);
        assert forall|k: int| 0 <= k < drop_word(s, w).len() implies exists|x: int|
            0 <= x < s.len() && #[trigger] drop_word(s, w)[k] == s[x] by {
            if s.first().word == w {
                assert(drop_word(s, w)[k] == s[k + 1]);
            } else {
                if k == 0 {
                    assert(drop_word(s, w)[0] == s[0]);
                } else {
                    let sub = drop_word(s.drop_first(), w);
                    assert(drop_word(s, w)[k] == sub[k - 1]);
                    let x = choose|x: int|
                        0 <= x < s.drop_first().len() && sub[k - 1] == s.drop_first()[x];
                    assert(drop_word(s, w)[k] == s[x + 1]);
                }
            }
        }
    }
}

/// The two extremes lists: fastest words (descending) and slowest words
/// (ascending), each bounded and duplicate-free.
pub struct FastestSlowestWords {
    fastest_words: RankedWordList,
    slowest_words: RankedWordList,
}

impl FastestSlowestWords {
    pub closed spec fn fastest(self) -> Seq<RankedEntryModel> {
        self.fastest_words.ranking()
    }

    pub closed spec fn slowest(self) -> Seq<RankedEntryModel> {
        self.slowest_words.ranking()
    }

    pub closed spec fn wf(self) -> bool {
        &&& self.fastest_words.wf()
        &&& !self.fastest_words.is_ascending()
        &&& self.slowest_words.wf()
        &&& self.slowest_words.is_ascending()
    }

    pub fn new() -> (r: Self)
        ensures
            r.fastest() == Seq::<RankedEntryModel>::empty(),
            r.slowest() == Seq::<RankedEntryModel>::empty(),
            r.wf(),
    {
        // the two rankings are duals: fastest descending, slowest ascending
        FastestSlowestWords {
            fastest_words: RankedWordList::new(false),
            slowest_words: RankedWordList::new(true),
        }
    }

    /// Offers a completed word with its speed to both extremes lists.
    pub fn update(&mut self, word: &str, speed: u64)
        requires
            old(self).wf(),
        ensures
            final(self).wf(),
            final(self).fastest() == ranked_updated(
                old(self).fastest(),
                (RankedEntryModel { word: word@, speed }),
                false,
            ),
            final(self).slowest() == ranked_updated(
                old(self).slowest(),
                (RankedEntryModel { word: word@, speed }),
                true,
            ),
            ranked_sorted(final(self).fastest(), false),
            ranked_words_distinct(final(self).fastest()),
            final(self).fastest().len() <= EXTREMES_CAP,
            ranked_sorted(final(self).slowest(), true),
            ranked_words_distinct(final(self).slowest()),
            final(self).slowest().len() <= EXTREMES_CAP,
    {
        self.fastest_words.update(word, speed);
        self.slowest_words.update(word, speed);
    }

    /// The fastest-words list: sorted descending by speed, at most ten
    /// entries, no word twice.
    pub fn get_fastest_words(&self) -> (r: &Vec<WordSpeedEntry>)
        requires
            self.wf(),
        ensures
            ranked_of(r@) == self.fastest(),
            ranked_sorted(ranked_of(r@), false),
            ranked_words_distinct(ranked_of(r@)),
            r@.len() <= EXTREMES_CAP,
    {
        self.fastest_words.entries()
    }

    /// The slowest-words list: the ascending-sorted dual of the fastest.
    pub fn get_slowest_words(&self) -> (r: &Vec<WordSpeedEntry>)
        requires
            self.wf(),
        ensures
            ranked_of(r@) == self.slowest(),
            ranked_sorted(ranked_of(r@), true),
            ranked_words_distinct(ranked_of(r@)),
            r@.len() <= EXTREMES_CAP,
    {
        self.slowest_words.entries()
    }
}

} // verus!
