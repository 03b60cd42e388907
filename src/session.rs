use vstd::prelude::*;

use crate::tracker::{
    bytes_equal, gap_before, lemma_max_gap_monotone, lemma_zero_times, max_gap, times_in,
    Observation, WordTracker,
};

verus! {

/// Default for `DecayPolicy::seen_threshold`: a word keeps its reading for its
/// first three occurrences.
pub const DEFAULT_SEEN_THRESHOLD: u64 = 3;

/// Default for `DecayPolicy::forget_distance`: a word unseen for this many words
/// counts as forgotten and gets its reading back.
pub const DEFAULT_FORGET_DISTANCE: u64 = 2000;

/// Pitch-accent class of a word, as far as the annotator could tell.
#[derive(Clone, Copy, Debug, PartialEq, Eq, Structural)]
pub enum Pitch {
    Unknown,
    /// An accented mora is present and unambiguous.
    Accented,
    /// Flat (heiban) pattern.
    Flat,
}

/// One piece of a document's text, as the annotator splits it.
pub enum Segment {
    /// Text that is copied as it is (markup, punctuation, kana).
    Text(Vec<u8>),
    /// A word with its reading; `common` is set when the word is among the
    /// most common words that the annotator was told to leave bare.
    Word { surface: Vec<u8>, reading: Vec<u8>, pitch: Pitch, common: bool },
}

/// When learn mode hides a reading: the word has been seen more than
/// `seen_threshold` times and its last gap is below `forget_distance`.
#[derive(Clone, Copy, Debug, PartialEq, Eq, Structural)]
pub struct DecayPolicy {
    pub seen_threshold: u64,
    pub forget_distance: u64,
}

/// Everything that decides how a session renders words.
pub struct Settings {
    pub learn_mode: bool,
    pub pitch_markers: bool,
    pub policy: DecayPolicy,
    pub known_words: Vec<Vec<u8>>,
}

pub open spec fn open_plain() -> Seq<u8> {
    seq![60u8, 114u8, 117u8, 98u8, 121u8, 62u8]
}

pub open spec fn open_accent() -> Seq<u8> {
    seq![
        60u8, 114u8, 117u8, 98u8, 121u8, 32u8, 99u8, 108u8, 97u8, 115u8, 115u8, 61u8, 34u8,
        112u8, 105u8, 116u8, 99u8, 104u8, 95u8, 97u8, 99u8, 99u8, 101u8, 110u8, 116u8, 34u8, 62u8,
    ]
}

pub open spec fn open_flat() -> Seq<u8> {
    seq![
        60u8, 114u8, 117u8, 98u8, 121u8, 32u8, 99u8, 108u8, 97u8, 115u8, 115u8, 61u8, 34u8,
        112u8, 105u8, 116u8, 99u8, 104u8, 95u8, 102u8, 108u8, 97u8, 116u8, 34u8, 62u8,
    ]
}

pub open spec fn rt_open() -> Seq<u8> {
    seq![60u8, 114u8, 116u8, 62u8]
}

pub open spec fn ruby_close() -> Seq<u8> {
    seq![60u8, 47u8, 114u8, 116u8, 62u8, 60u8, 47u8, 114u8, 117u8, 98u8, 121u8, 62u8]
}

/// "＊" in UTF-8.
pub open spec fn accent_marker() -> Seq<u8> {
    seq![239u8, 188u8, 138u8]
}

/// "口" in UTF-8.
pub open spec fn flat_marker() -> Seq<u8> {
    seq![229u8, 143u8, 163u8]
}

pub open spec fn ruby_open(pitch: Pitch, markers: bool) -> Seq<u8> {
    if markers && pitch == Pitch::Accented {
        open_accent()
    } else if markers && pitch == Pitch::Flat {
        open_flat()
    } else {
        open_plain()
    }
}

pub open spec fn pitch_marker(pitch: Pitch, markers: bool) -> Seq<u8> {
    if markers && pitch == Pitch::Accented {
        accent_marker()
    } else if markers && pitch == Pitch::Flat {
        flat_marker()
    } else {
        Seq::empty()
    }
}

/// A word with its reading as ruby markup.
pub open spec fn ruby(surface: Seq<u8>, reading: Seq<u8>, pitch: Pitch, markers: bool) -> Seq<u8> {
    ruby_open(pitch, markers) + surface + rt_open() + reading + pitch_marker(pitch, markers)
        + ruby_close()
}

/// Whether an occurrence shows its reading, given how often the word has now
/// been seen and the gap since its previous occurrence.
pub open spec fn shows_furigana(
    learn_mode: bool,
    policy: DecayPolicy,
    times_seen: nat,
    gap: Option<nat>,
) -> bool {
    match gap {
        None => true,
        Some(d) => !learn_mode || times_seen <= policy.seen_threshold || d
            >= policy.forget_distance,
    }
}

pub open spec fn is_known(known: Seq<Vec<u8>>, w: Seq<u8>) -> bool {
    exists|i: int| 0 <= i < known.len() && (#[trigger] known[i])@ == w
}

/// Whether a segment is a word that takes part in familiarity tracking.
pub open spec fn is_tracked(seg: Segment, s: Settings) -> bool {
    match seg {
        Segment::Text(_) => false,
        Segment::Word { surface, common, .. } => !common && !is_known(s.known_words@, surface@),
    }
}

pub open spec fn word_of(seg: Segment) -> Seq<u8> {
    match seg {
        Segment::Text(t) => t@,
        Segment::Word { surface, .. } => surface@,
    }
}

/// The reading history after the tracked words of `segs` follow `h`.
pub open spec fn history_after(h: Seq<Seq<u8>>, segs: Seq<Segment>, s: Settings) -> Seq<Seq<u8>>
    decreases segs.len(),
{
    if segs.len() == 0 {
        h
    } else {
        let p = history_after(h, segs.drop_last(), s);
        if is_tracked(segs.last(), s) {
            p.push(word_of(segs.last()))
        } else {
            p
        }
    }
}

/// Number of tracked words among `segs`.
pub open spec fn tracked_count(segs: Seq<Segment>, s: Settings) -> nat
    decreases segs.len(),
{
    if segs.len() == 0 {
        0
    } else {
        tracked_count(segs.drop_last(), s) + if is_tracked(segs.last(), s) { 1nat } else { 0nat }
    }
}

/// How one segment is written, when `before` has been read ahead of it.
pub open spec fn render_segment(seg: Segment, before: Seq<Seq<u8>>, s: Settings) -> Seq<u8> {
    match seg {
        Segment::Text(t) => t@,
        Segment::Word { surface, reading, pitch, .. } => if is_tracked(seg, s) && shows_furigana(
            s.learn_mode,
            s.policy,
            times_in(before, surface@) + 1,
            gap_before(before, surface@),
        ) {
            ruby(surface@, reading@, pitch, s.pitch_markers)
        } else {
            surface@
        },
    }
}

/// How a document of segments is written, when `h` has been read ahead of it.
pub open spec fn render_document(h: Seq<Seq<u8>>, segs: Seq<Segment>, s: Settings) -> Seq<u8>
    decreases segs.len(),
{
    if segs.len() == 0 {
        Seq::empty()
    } else {
        render_document(h, segs.drop_last(), s) + render_segment(
            segs.last(),
            history_after(h, segs.drop_last(), s),
            s,
        )
    }
}

pub open spec fn gap_of(d: Option<u64>) -> Option<nat> {
    match d {
        None => None,
        Some(x) => Some(x as nat),
    }
}

impl DecayPolicy {
    pub fn default_policy() -> (p: Self)
        ensures
            p.seen_threshold == DEFAULT_SEEN_THRESHOLD,
            p.forget_distance == DEFAULT_FORGET_DISTANCE,
    {
        DecayPolicy {
            seen_threshold: DEFAULT_SEEN_THRESHOLD,
            forget_distance: DEFAULT_FORGET_DISTANCE,
        }
    }

    /// Whether the occurrence measured by `obs` shows its reading.
    pub fn shows(&self, learn_mode: bool, obs: &Observation) -> (r: bool)
        ensures
            r == shows_furigana(learn_mode, *self, obs.times_seen as nat, gap_of(obs.distance)),
    {
        match obs.distance {
            None => true,
            Some(d) => !learn_mode || obs.times_seen <= self.seen_threshold || d
                >= self.forget_distance,
        }
    }
}

impl Settings {
    /// Whether `w` is one of the words the reader already knows.
    pub fn is_known_word(&self, w: &Vec<u8>) -> (r: bool)
        ensures
            r == is_known(self.known_words@, w@),
    {
        let mut i: usize = 0;
        while i < self.known_words.len()
            invariant
                i <= self.known_words@.len(),
                forall|k: int| 0 <= k < i ==> (#[trigger] self.known_words@[k])@ != w@,
            decreases self.known_words@.len() - i,
        {
            if bytes_equal(&self.known_words[i], w) {
                return true;
            }
            i = i + 1;
        }
        false
    }
}

/// Appends `b` to `out`.
pub fn append_bytes(out: &mut Vec<u8>, b: &[u8])
    ensures
        final(out)@ == old(out)@ + b@,
{
    let ghost start = out@;
    let mut i: usize = 0;
    while i < b.len()
        invariant
            i <= b@.len(),
            out@ == start + b@.subrange(0, i as int),
        decreases b@.len() - i,
    {
        out.push(b[i]);
        i = i + 1;
        assert(out@ =~= start + b@.subrange(0, i as int));
    }
    assert(b@.subrange(0, b@.len() as int) =~= b@);
}

/// Appends the ruby markup of a word to `out`.
pub fn push_ruby(out: &mut Vec<u8>, surface: &Vec<u8>, reading: &Vec<u8>, pitch: Pitch, markers: bool)
    ensures
        final(out)@ == old(out)@ + ruby(surface@, reading@, pitch, markers),
{
    let ghost start = out@;
    if markers && pitch == Pitch::Accented {
        let t: Vec<u8> = vec![
            60u8, 114u8, 117u8, 98u8, 121u8, 32u8, 99u8, 108u8, 97u8, 115u8, 115u8, 61u8, 34u8,
            112u8, 105u8, 116u8, 99u8, 104u8, 95u8, 97u8, 99u8, 99u8, 101u8, 110u8, 116u8, 34u8, 62u8,
        ];
        append_bytes(out, t.as_slice());
    } else if markers && pitch == Pitch::Flat {
        let t: Vec<u8> = vec![
            60u8, 114u8, 117u8, 98u8, 121u8, 32u8, 99u8, 108u8, 97u8, 115u8, 115u8, 61u8, 34u8,
            112u8, 105u8, 116u8, 99u8, 104u8, 95u8, 102u8, 108u8, 97u8, 116u8, 34u8, 62u8,
        ];
        append_bytes(out, t.as_slice());
    } else {
        let t: Vec<u8> = vec![60u8, 114u8, 117u8, 98u8, 121u8, 62u8];
        append_bytes(out, t.as_slice());
    }
    append_bytes(out, surface.as_slice());
    let rt: Vec<u8> = vec![60u8, 114u8, 116u8, 62u8];
    append_bytes(out, rt.as_slice());
    append_bytes(out, reading.as_slice());
    if markers && pitch == Pitch::Accented {
        let m: Vec<u8> = vec![239u8, 188u8, 138u8];
        append_bytes(out, m.as_slice());
    } else if markers && pitch == Pitch::Flat {
        let m: Vec<u8> = vec![229u8, 143u8, 163u8];
        append_bytes(out, m.as_slice());
    }
    let close: Vec<u8> = vec![60u8, 47u8, 114u8, 116u8, 62u8, 60u8, 47u8, 114u8, 117u8, 98u8, 121u8, 62u8];
    append_bytes(out, close.as_slice());
    assert(out@ =~= start + ruby(surface@, reading@, pitch, markers));
}

/// A learning session: one tracker carried through all documents of a book.
pub struct Session {
    settings: Settings,
    tracker: WordTracker,
}

impl Session {
    pub closed spec fn history(&self) -> Seq<Seq<u8>> {
        self.tracker.history()
    }

    pub closed spec fn settings(&self) -> Settings {
        self.settings
    }

    pub closed spec fn tracker(&self) -> WordTracker {
        self.tracker
    }

    pub closed spec fn wf(&self) -> bool {
        self.tracker.wf()
    }

    pub fn new(settings: Settings) -> (s: Self)
        ensures
            s.wf(),
            s.settings() == settings,
            s.history() == Seq::<Seq<u8>>::empty(),
    {
        Session { settings, tracker: WordTracker::new() }
    }

    /// Number of tracked word occurrences so far, over all documents.
    pub fn word_position(&self) -> (r: u64)
        requires
            self.wf(),
        ensures
            r as int == self.history().len(),
    {
        self.tracker.position()
    }

    /// Renders one document, updating the familiarity of every tracked word in it.
    pub fn process_document(&mut self, segments: &Vec<Segment>) -> (out: Vec<u8>)
        requires
            old(self).wf(),
            old(self).history().len() + segments@.len() < u64::MAX,
        ensures
            final(self).wf(),
            final(self).settings() == old(self).settings(),
            final(self).history() == history_after(
                old(self).history(),
                segments@,
                old(self).settings(),
            ),
            out@ == render_document(old(self).history(), segments@, old(self).settings()),
    {
        let ghost h0 = self.history();
        let ghost s = self.settings;
        let mut out: Vec<u8> = Vec::new();
        let mut i: usize = 0;
        assert(segments@.subrange(0, 0) =~= Seq::<Segment>::empty());
        while i < segments.len()
            invariant
                self.wf(),
                self.settings == s,
                i <= segments@.len(),
                h0.len() + segments@.len() < u64::MAX,
                self.history() == history_after(h0, segments@.subrange(0, i as int), s),
                out@ == render_document(h0, segments@.subrange(0, i as int), s),
            decreases segments@.len() - i,
        {
            let ghost pre = segments@.subrange(0, i as int);
            let ghost next = segments@.subrange(0, i + 1);
            assert(next.drop_last() =~= pre);
            proof {
                lemma_history_len(h0, pre, s);
                lemma_tracked_count_bound(pre, s);
            }
            match &segments[i] {
                Segment::Text(t) => {
                    append_bytes(&mut out, t.as_slice());
                },
                Segment::Word { surface, reading, pitch, common } => {
                    if *common || self.settings.is_known_word(surface) {
                        append_bytes(&mut out, surface.as_slice());
                    } else {
                        let obs = self.tracker.observe(surface);
                        if self.settings.policy.shows(self.settings.learn_mode, &obs) {
                            push_ruby(&mut out, surface, reading, *pitch, self.settings.pitch_markers);
                        } else {
                            append_bytes(&mut out, surface.as_slice());
                        }
                    }
                },
            }
            i = i + 1;
        }
        assert(segments@.subrange(0, segments@.len() as int) =~= segments@);
        out
    }

    /// Total tracked word occurrences and one row per distinct word, in first-seen
    /// order: (word, largest gap, times seen).
    pub fn word_stats(&self) -> (r: (u64, Vec<(Vec<u8>, u64, u64)>))
        requires
            self.wf(),
        ensures
            r.0 as int == self.history().len(),
            r.1@.len() == self.tracker().words().len(),
            forall|i: int|
                #![trigger r.1@[i]]
                0 <= i < r.1@.len() ==> {
                    &&& r.1@[i].0@ == self.tracker().words()[i]
                    &&& r.1@[i].1 as nat == max_gap(
                        self.history(),
                        self.tracker().words()[i],
                    )
                    &&& r.1@[i].2 as nat == times_in(self.history(), self.tracker().words()[i])
                },
            forall|w: Seq<u8>|
                times_in(self.history(), w) > 0 <==> #[trigger] self.tracker().words().contains(w),
            forall|i: int, j: int| 0 <= i < j < r.1@.len() ==> r.1@[i].0@ != r.1@[j].0@,
    {
        (self.tracker.position(), self.tracker.stats())
    }
}

/// The reading history grows by exactly one word per tracked word of a document,
/// and by nothing else.
pub proof fn lemma_history_len(h: Seq<Seq<u8>>, segs: Seq<Segment>, s: Settings)
    ensures
        history_after(h, segs, s).len() == h.len() + tracked_count(segs, s),
    decreases segs.len(),
{
    if segs.len() > 0 {
        lemma_history_len(h, segs.drop_last(), s);
    }
}

/// Reading two documents one after the other leaves the same history as reading
/// them as one: the word position runs on across document boundaries.
pub proof fn lemma_history_across_documents(
    h: Seq<Seq<u8>>,
    first: Seq<Segment>,
    second: Seq<Segment>,
    s: Settings,
)
    ensures
        history_after(history_after(h, first, s), second, s) == history_after(h, first + second, s),
    decreases second.len(),
{
    if second.len() == 0 {
        assert(first + second =~= first);
    } else {
        lemma_history_across_documents(h, first, second.drop_last(), s);
        assert((first + second).drop_last() =~= first + second.drop_last());
    }
}

/// A document has no more tracked words than segments.
pub proof fn lemma_tracked_count_bound(segs: Seq<Segment>, s: Settings)
    ensures
        tracked_count(segs, s) <= segs.len(),
    decreases segs.len(),
{
    if segs.len() > 0 {
        lemma_tracked_count_bound(segs.drop_last(), s);
    }
}

/// The first occurrence of a tracked word always shows its reading, whether
/// learn mode is on or off.
pub proof fn lemma_first_occurrence_annotated(seg: Segment, before: Seq<Seq<u8>>, s: Settings)
    requires
        is_tracked(seg, s),
        times_in(before, word_of(seg)) == 0,
    ensures
        seg matches Segment::Word { surface, reading, pitch, .. } ==> render_segment(
            seg,
            before,
            s,
        ) == ruby(surface@, reading@, pitch, s.pitch_markers),
{
    lemma_zero_times(before, word_of(seg));
}

/// Reading a document never lowers the largest gap recorded for any word.
pub proof fn lemma_max_gap_monotone_document(
    h: Seq<Seq<u8>>,
    segs: Seq<Segment>,
    s: Settings,
    w: Seq<u8>,
)
    ensures
        max_gap(h, w) <= max_gap(history_after(h, segs, s), w),
    decreases segs.len(),
{
    if segs.len() > 0 {
        lemma_max_gap_monotone_document(h, segs.drop_last(), s, w);
        let p = history_after(h, segs.drop_last(), s);
        if is_tracked(segs.last(), s) {
            lemma_max_gap_monotone(p, word_of(segs.last()), w);
        }
    }
}

} // verus!
