use vstd::prelude::*;

verus! {

/// Number of occurrences of `w` in the reading history `h`.
pub open spec fn times_in(h: Seq<Seq<u8>>, w: Seq<u8>) -> nat
    decreases h.len(),
{
    if h.len() == 0 {
        0
    } else {
        times_in(h.drop_last(), w) + if h.last() == w { 1nat } else { 0nat }
    }
}

/// Position (1-based) of the last occurrence of `w` in `h`, or 0 if it never occurs.
pub open spec fn last_position(h: Seq<Seq<u8>>, w: Seq<u8>) -> nat
    decreases h.len(),
{
    if h.len() == 0 {
        0
    } else if h.last() == w {
        h.len()
    } else {
        last_position(h.drop_last(), w)
    }
}

/// Largest gap, in word positions, between two consecutive occurrences of `w` in `h`
/// (0 while `w` has occurred at most once).
pub open spec fn max_gap(h: Seq<Seq<u8>>, w: Seq<u8>) -> nat
    decreases h.len(),
{
    if h.len() == 0 {
        0
    } else {
        let p = h.drop_last();
        let rest = max_gap(p, w);
        if h.last() == w && last_position(p, w) > 0 {
            let gap = (h.len() - last_position(p, w)) as nat;
            if gap > rest { gap } else { rest }
        } else {
            rest
        }
    }
}

/// Gap since the previous occurrence of `w`, for an occurrence that comes right after `h`.
pub open spec fn gap_before(h: Seq<Seq<u8>>, w: Seq<u8>) -> Option<nat> {
    if last_position(h, w) > 0 {
        Some((h.len() + 1 - last_position(h, w)) as nat)
    } else {
        None
    }
}

/// What the tracker keeps of one distinct word.
pub struct WordRecord {
    pub word: Vec<u8>,
    pub times_seen: u64,
    pub last_seen_position: u64,
    pub max_distance: u64,
}

/// The measurements taken at one occurrence of a word.
#[derive(Clone, Copy, Debug, PartialEq, Eq)]
pub struct Observation {
    /// Occurrences of the word so far, this one included.
    pub times_seen: u64,
    /// Gap since the previous occurrence, if there was one.
    pub distance: Option<u64>,
    /// Largest gap between consecutive occurrences so far, this one included.
    pub max_distance: u64,
}

/// Per-word exposure counters, fed one word occurrence at a time in reading order.
pub struct WordTracker {
    position: u64,
    records: Vec<WordRecord>,
    history: Ghost<Seq<Seq<u8>>>,
}

impl WordTracker {
    /// The words observed so far, in reading order.
    pub closed spec fn history(&self) -> Seq<Seq<u8>> {
        self.history@
    }

    /// Distinct words, in the order they were first observed.
    pub closed spec fn words(&self) -> Seq<Seq<u8>> {
        self.records@.map_values(|r: WordRecord| r.word@)
    }

    pub closed spec fn wf(&self) -> bool {
        &&& self.position as int == self.history@.len()
        &&& forall|i: int, j: int|
            0 <= i < j < self.records@.len() ==> self.records@[i].word@ != self.records@[j].word@
        &&& forall|i: int|
            #![trigger self.records@[i]]
            0 <= i < self.records@.len() ==> {
                let r = self.records@[i];
                &&& r.times_seen >= 1
                &&& r.times_seen as nat == times_in(self.history@, r.word@)
                &&& r.last_seen_position as nat == last_position(self.history@, r.word@)
                &&& r.max_distance as nat == max_gap(self.history@, r.word@)
            }
        &&& forall|w: Seq<u8>|
            #![trigger times_in(self.history@, w)]
            times_in(self.history@, w) > 0 ==> self.words().contains(w)
    }

    pub fn new() -> (t: Self)
        ensures
            t.wf(),
            t.history() == Seq::<Seq<u8>>::empty(),
    {
        WordTracker { position: 0, records: Vec::new(), history: Ghost(Seq::empty()) }
    }

    /// Number of word occurrences observed so far.
    pub fn position(&self) -> (r: u64)
        requires
            self.wf(),
        ensures
            r as int == self.history().len(),
    {
        self.position
    }

    /// Records one occurrence of `word` and returns its measurements.
    pub fn observe(&mut self, word: &Vec<u8>) -> (obs: Observation)
        requires
            old(self).wf(),
            old(self).history().len() < u64::MAX,
        ensures
            final(self).wf(),
            final(self).history() == old(self).history().push(word@),
            obs.times_seen as nat == times_in(old(self).history(), word@) + 1,
            obs.distance matches Some(d) ==> gap_before(old(self).history(), word@) == Some(
                d as nat,
            ),
            obs.distance is None ==> gap_before(old(self).history(), word@) is None,
            obs.max_distance as nat == max_gap(final(self).history(), word@),
    {
        proof {
            lemma_bounds(self.history@, word@);
        }
        let ghost h0 = self.history@;
        let ghost w = word@;
        let found = self.find(word);
        self.position = self.position + 1;
        let pos = self.position;
        self.history = Ghost(h0.push(w));
        let ghost h1 = self.history@;
        assert(h1.drop_last() =~= h0);
        proof {
            assert forall|u: Seq<u8>| u != w implies #[trigger] times_in(h1, u) == times_in(h0, u)
                && last_position(h1, u) == last_position(h0, u) && max_gap(h1, u) == max_gap(
                h0,
                u,
            ) by {}
        }
        match found {
            Some(i) => {
                let old_rec = &self.records[i];
                proof {
                    let r0 = self.records@[i as int];
                    assert(r0.word@ == w);
                    lemma_seen_has_position(h0, w);
                    assert(last_position(h1, w) == h1.len());
                    assert(times_in(h1, w) == times_in(h0, w) + 1);
                }
                let distance = pos - old_rec.last_seen_position;
                let max_distance = if distance > old_rec.max_distance {
                    distance
                } else {
                    old_rec.max_distance
                };
                let times_seen = old_rec.times_seen + 1;
                let ghost old_records = self.records@;
                let new_word = copy_bytes(&old_rec.word);
                let rec = WordRecord {
                    word: new_word,
                    times_seen,
                    last_seen_position: pos,
                    max_distance,
                };
                self.records.set(i, rec);
                proof {
                    assert forall|k: int| 0 <= k < self.records@.len() && k != i implies
                        self.records@[k] == old_records[k] by {}
                    assert(self.words() =~= old(self).words());
                }
                Observation { times_seen, distance: Some(distance), max_distance }
            },
            None => {
                let ghost old_words = self.words();
                proof {
                    lemma_unseen(h0, w, old_words);
                }
                let rec = WordRecord {
                    word: copy_bytes(word),
                    times_seen: 1,
                    last_seen_position: pos,
                    max_distance: 0,
                };
                self.records.push(rec);
                proof {
                    assert(self.words() =~= old_words.push(w));
                    assert forall|u: Seq<u8>| #[trigger]
                        times_in(h1, u) > 0 implies self.words().contains(u) by {
                        if u != w {
                            assert(old_words.contains(u));
                            let k = choose|k: int| 0 <= k < old_words.len() && old_words[k] == u;
                            assert(self.words()[k] == u);
                        } else {
                            assert(self.words()[old_words.len() as int] == u);
                        }
                    }
                }
                Observation { times_seen: 1, distance: None, max_distance: 0 }
            },
        }
    }

    /// Index of the record of `word`, if it has one.
    fn find(&self, word: &Vec<u8>) -> (r: Option<usize>)
        requires
            self.wf(),
        ensures
            r matches Some(i) ==> i < self.records@.len() && self.records@[i as int].word@ == word@,
            r is None ==> !self.words().contains(word@),
    {
        let mut i: usize = 0;
        while i < self.records.len()
            invariant
                i <= self.records@.len(),
                forall|k: int| 0 <= k < i ==> self.records@[k].word@ != word@,
            decreases self.records@.len() - i,
        {
            if bytes_equal(&self.records[i].word, word) {
                return Some(i);
            }
            i = i + 1;
        }
        proof {
            if self.words().contains(word@) {
                let k = choose|k: int| 0 <= k < self.words().len() && self.words()[k] == word@;
                assert(self.records@[k].word@ == word@);
            }
        }
        None
    }

    /// One row per distinct observed word, in first-seen order:
    /// (word, largest gap, times seen).
    pub fn stats(&self) -> (rows: Vec<(Vec<u8>, u64, u64)>)
        requires
            self.wf(),
        ensures
            rows@.len() == self.words().len(),
            forall|i: int|
                #![trigger rows@[i]]
                0 <= i < rows@.len() ==> {
                    &&& rows@[i].0@ == self.words()[i]
                    &&& rows@[i].1 as nat == max_gap(self.history(), self.words()[i])
                    &&& rows@[i].2 as nat == times_in(self.history(), self.words()[i])
                },
            forall|w: Seq<u8>| times_in(self.history(), w) > 0 <==> #[trigger] self.words().contains(
                w,
            ),
            forall|i: int, j: int| 0 <= i < j < rows@.len() ==> rows@[i].0@ != rows@[j].0@,
    {
        proof {
            assert forall|w: Seq<u8>| #[trigger]
                self.words().contains(w) implies times_in(self.history(), w) > 0 by {
                let k = choose|k: int| 0 <= k < self.words().len() && self.words()[k] == w;
                assert(self.records@[k].word@ == w);
            }
            assert forall|w: Seq<u8>| times_in(self.history(), w) > 0 implies #[trigger]
                self.words().contains(w) by {
                assert(times_in(self.history@, w) > 0);
            }
        }
        let mut rows: Vec<(Vec<u8>, u64, u64)> = Vec::new();
        let mut i: usize = 0;
        while i < self.records.len()
            invariant
                i <= self.records@.len(),
                rows@.len() == i,
                forall|k: int|
                    #![trigger rows@[k]]
                    0 <= k < i ==> {
                        &&& rows@[k].0@ == self.records@[k].word@
                        &&& rows@[k].1 == self.records@[k].max_distance
                        &&& rows@[k].2 == self.records@[k].times_seen
                    },
            decreases self.records@.len() - i,
        {
            let r = &self.records[i];
            rows.push((copy_bytes(&r.word), r.max_distance, r.times_seen));
            i = i + 1;
        }
        proof {
            assert forall|k: int| 0 <= k < rows@.len() implies {
                &&& rows@[k].0@ == self.words()[k]
                &&& rows@[k].1 as nat == max_gap(self.history(), self.words()[k])
                &&& rows@[k].2 as nat == times_in(self.history(), self.words()[k])
            } by {
                assert(self.records@[k].word@ == self.words()[k]);
            }
            assert forall|i: int, j: int| 0 <= i < j < rows@.len() implies rows@[i].0@
                != rows@[j].0@ by {
                assert(rows@[i].0@ == self.records@[i].word@);
                assert(rows@[j].0@ == self.records@[j].word@);
            }
        }
        rows
    }
}

/// Whether two byte strings are equal.
pub fn bytes_equal(a: &Vec<u8>, b: &Vec<u8>) -> (r: bool)
    ensures
        r == (a@ == b@),
{
    if a.len() != b.len() {
        return false;
    }
    let mut i: usize = 0;
    while i < a.len()
        invariant
            a@.len() == b@.len(),
            i <= a@.len(),
            forall|k: int| 0 <= k < i ==> a@[k] == b@[k],
        decreases a@.len() - i,
    {
        if a[i] != b[i] {
            return false;
        }
        i = i + 1;
    }
    assert(a@ =~= b@);
    true
}

/// A fresh copy of a byte string.
pub fn copy_bytes(a: &Vec<u8>) -> (r: Vec<u8>)
    ensures
        r@ == a@,
{
    let mut r: Vec<u8> = Vec::new();
    let mut i: usize = 0;
    while i < a.len()
        invariant
            i <= a@.len(),
            r@ == a@.subrange(0, i as int),
        decreases a@.len() - i,
    {
        r.push(a[i]);
        i = i + 1;
        assert(r@ =~= a@.subrange(0, i as int));
    }
    assert(r@ =~= a@);
    r
}

/// Counts, last positions and gaps never exceed the length of the history.
pub proof fn lemma_bounds(h: Seq<Seq<u8>>, w: Seq<u8>)
    ensures
        times_in(h, w) <= h.len(),
        last_position(h, w) <= h.len(),
        max_gap(h, w) <= h.len(),
    decreases h.len(),
{
    if h.len() > 0 {
        lemma_bounds(h.drop_last(), w);
    }
}

/// A word that occurs nowhere has no last position and no gap.
proof fn lemma_unseen(h: Seq<Seq<u8>>, w: Seq<u8>, words: Seq<Seq<u8>>)
    requires
        !words.contains(w),
        times_in(h, w) > 0 ==> words.contains(w),
    ensures
        times_in(h, w) == 0,
        last_position(h, w) == 0,
        max_gap(h, w) == 0,
{
    lemma_zero_times(h, w);
}

/// A word that was never read has no last position and no gap.
pub proof fn lemma_zero_times(h: Seq<Seq<u8>>, w: Seq<u8>)
    requires
        times_in(h, w) == 0,
    ensures
        last_position(h, w) == 0,
        max_gap(h, w) == 0,
    decreases h.len(),
{
    if h.len() > 0 {
        lemma_zero_times(h.drop_last(), w);
    }
}

proof fn lemma_seen_has_position(h: Seq<Seq<u8>>, w: Seq<u8>)
    requires
        times_in(h, w) > 0,
    ensures
        last_position(h, w) > 0,
    decreases h.len(),
{
    if h.len() > 0 && h.last() != w {
        lemma_seen_has_position(h.drop_last(), w);
    }
}

/// The largest gap of any word never shrinks as reading goes on.
pub proof fn lemma_max_gap_monotone(h: Seq<Seq<u8>>, next: Seq<u8>, w: Seq<u8>)
    ensures
        max_gap(h, w) <= max_gap(h.push(next), w),
{
    assert(h.push(next).drop_last() =~= h);
}

/// Indices `i < j` hold two consecutive occurrences of `w` in `h`.
pub open spec fn consecutive(h: Seq<Seq<u8>>, w: Seq<u8>, i: int, j: int) -> bool {
    &&& 0 <= i < j < h.len()
    &&& h[i] == w
    &&& h[j] == w
    &&& forall|k: int| i < k < j ==> h[k] != w
}

proof fn lemma_last_position_is_last(h: Seq<Seq<u8>>, w: Seq<u8>)
    ensures
        last_position(h, w) > 0 ==> h[last_position(h, w) - 1] == w,
        forall|k: int| last_position(h, w) <= k < h.len() ==> h[k] != w,
    decreases h.len(),
{
    if h.len() > 0 && h.last() != w {
        let p = h.drop_last();
        lemma_last_position_is_last(p, w);
        lemma_bounds(p, w);
        assert forall|k: int| last_position(h, w) <= k < h.len() implies h[k] != w by {
            if k < p.len() {
                assert(p[k] == h[k]);
            }
        }
        if last_position(h, w) > 0 {
            assert(p[last_position(h, w) - 1] == h[last_position(h, w) - 1]);
        }
    }
}

proof fn lemma_last_position_at(h: Seq<Seq<u8>>, w: Seq<u8>, i: int)
    requires
        0 <= i < h.len(),
        h[i] == w,
        forall|k: int| i < k < h.len() ==> h[k] != w,
    ensures
        last_position(h, w) == i + 1,
    decreases h.len(),
{
    if i < h.len() - 1 {
        lemma_last_position_at(h.drop_last(), w, i);
    }
}

/// Every gap between two consecutive occurrences of a word is at most its
/// largest gap.
pub proof fn lemma_max_gap_bounds_gaps(h: Seq<Seq<u8>>, w: Seq<u8>, i: int, j: int)
    requires
        consecutive(h, w, i, j),
    ensures
        j - i <= max_gap(h, w),
    decreases h.len(),
{
    let p = h.drop_last();
    if j == h.len() - 1 {
        lemma_last_position_at(p, w, i);
    } else {
        lemma_max_gap_bounds_gaps(p, w, i, j);
        lemma_max_gap_monotone(p, h.last(), w);
        assert(p.push(h.last()) =~= h);
    }
}

/// A word's largest gap, when it is not 0, is the gap between two of its
/// consecutive occurrences.
pub proof fn lemma_max_gap_attained(h: Seq<Seq<u8>>, w: Seq<u8>)
    requires
        max_gap(h, w) > 0,
    ensures
        exists|i: int, j: int| consecutive(h, w, i, j) && j - i == max_gap(h, w),
    decreases h.len(),
{
    let p = h.drop_last();
    let lp = last_position(p, w);
    if h.last() == w && lp > 0 && (h.len() - lp) as nat > max_gap(p, w) {
        lemma_last_position_is_last(p, w);
        lemma_bounds(p, w);
        assert(p[lp - 1] == h[lp - 1]);
        assert forall|k: int| lp - 1 < k < h.len() - 1 implies h[k] != w by {
            assert(p[k] == h[k]);
        }
        assert(consecutive(h, w, lp - 1, h.len() - 1));
    } else {
        lemma_max_gap_attained(p, w);
        let (i, j) = choose|i: int, j: int| consecutive(p, w, i, j) && j - i == max_gap(p, w);
        assert(p[i] == h[i] && p[j] == h[j]);
        assert forall|k: int| i < k < j implies h[k] != w by {
            assert(p[k] == h[k]);
        }
        assert(consecutive(h, w, i, j));
    }
}

} // verus!
