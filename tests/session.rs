use epub_furigana::session::{DecayPolicy, Pitch, Segment, Session, Settings};
use epub_furigana::tracker::{Observation, WordTracker};

fn word(surface: &str, reading: &str) -> Segment {
    Segment::Word {
        surface: surface.as_bytes().to_vec(),
        reading: reading.as_bytes().to_vec(),
        pitch: Pitch::Unknown,
        common: false,
    }
}

fn text(t: &str) -> Segment {
    Segment::Text(t.as_bytes().to_vec())
}

fn settings(learn_mode: bool, known: &[&str]) -> Settings {
    Settings {
        learn_mode,
        pitch_markers: false,
        policy: DecayPolicy { seen_threshold: 1, forget_distance: 10 },
        known_words: known.iter().map(|w| w.as_bytes().to_vec()).collect(),
    }
}

fn fillers(from: usize, to: usize) -> Vec<Segment> {
    (from..to).map(|i| word(&format!("w{}", i), "x")).collect()
}

fn render(session: &mut Session, segs: Vec<Segment>) -> String {
    String::from_utf8(session.process_document(&segs)).unwrap()
}

const HON_RUBY: &str = "<ruby>本<rt>ほん</rt></ruby>";

#[test]
fn learned_word_loses_and_regains_reading() {
    let mut s = Session::new(settings(true, &[]));
    assert_eq!(render(&mut s, vec![word("本", "ほん")]), HON_RUBY);
    render(&mut s, fillers(2, 5));
    assert_eq!(s.word_position(), 4);
    assert_eq!(render(&mut s, vec![word("本", "ほん")]), "本");
    render(&mut s, fillers(6, 40));
    assert_eq!(s.word_position(), 39);
    assert_eq!(render(&mut s, vec![word("本", "ほん")]), HON_RUBY);
    let (total, stats) = s.word_stats();
    assert_eq!(total, 40);
    assert_eq!(stats[0], ("本".as_bytes().to_vec(), 35, 3));
}

#[test]
fn known_word_never_annotated_nor_counted() {
    let mut s = Session::new(settings(true, &["本"]));
    assert_eq!(render(&mut s, vec![word("本", "ほん")]), "本");
    render(&mut s, fillers(2, 5));
    assert_eq!(s.word_position(), 3);
    assert_eq!(render(&mut s, vec![word("本", "ほん")]), "本");
    render(&mut s, fillers(6, 40));
    assert_eq!(render(&mut s, vec![word("本", "ほん")]), "本");
    let (total, stats) = s.word_stats();
    assert_eq!(total, 37);
    assert!(stats.iter().all(|r| r.0 != "本".as_bytes().to_vec()));
}

#[test]
fn first_occurrence_annotated_in_both_modes() {
    for learn in [false, true] {
        let mut s = Session::new(settings(learn, &[]));
        let out = render(&mut s, vec![text("「"), word("猫", "ねこ"), text("」")]);
        assert_eq!(out, "「<ruby>猫<rt>ねこ</rt></ruby>」");
    }
}

#[test]
fn learn_mode_off_always_annotates() {
    let mut s = Session::new(settings(false, &[]));
    let out = render(&mut s, vec![word("本", "ほん"), word("本", "ほん"), word("本", "ほん")]);
    assert_eq!(out, HON_RUBY.repeat(3));
}

#[test]
fn common_words_left_bare_and_uncounted() {
    let mut s = Session::new(settings(false, &[]));
    let seg = Segment::Word {
        surface: "日".as_bytes().to_vec(),
        reading: "ひ".as_bytes().to_vec(),
        pitch: Pitch::Accented,
        common: true,
    };
    assert_eq!(render(&mut s, vec![seg, text("!")]), "日!");
    assert_eq!(s.word_position(), 0);
}

#[test]
fn position_advances_once_per_tracked_word_across_documents() {
    let mut s = Session::new(settings(true, &["私"]));
    render(&mut s, vec![word("私", "わたし"), text("は"), word("本", "ほん")]);
    assert_eq!(s.word_position(), 1);
    render(&mut s, vec![word("本", "ほん"), word("猫", "ねこ"), text("。")]);
    assert_eq!(s.word_position(), 3);
}

#[test]
fn max_distance_is_largest_gap() {
    let mut s = Session::new(settings(true, &[]));
    render(&mut s, vec![word("本", "ほん"), word("a", "a"), word("b", "b"), word("本", "ほん")]);
    render(&mut s, vec![word("本", "ほん")]);
    let (total, stats) = s.word_stats();
    assert_eq!(total, 5);
    assert_eq!(stats[0], ("本".as_bytes().to_vec(), 3, 3));
    assert_eq!(stats[1], ("a".as_bytes().to_vec(), 0, 1));
    assert_eq!(stats.len(), 3);
}

#[test]
fn pitch_markers_on_annotated_words() {
    let mut st = settings(false, &[]);
    st.pitch_markers = true;
    let mut s = Session::new(st);
    let accented = Segment::Word {
        surface: "雨".as_bytes().to_vec(),
        reading: "あめ".as_bytes().to_vec(),
        pitch: Pitch::Accented,
        common: false,
    };
    let flat = Segment::Word {
        surface: "飴".as_bytes().to_vec(),
        reading: "あめ".as_bytes().to_vec(),
        pitch: Pitch::Flat,
        common: false,
    };
    assert_eq!(
        render(&mut s, vec![accented, flat, word("本", "ほん")]),
        "<ruby class=\"pitch_accent\">雨<rt>あめ＊</rt></ruby><ruby class=\"pitch_flat\">飴<rt>あめ口</rt></ruby><ruby>本<rt>ほん</rt></ruby>"
    );
}

#[test]
fn pitch_markers_off_plain_ruby() {
    let mut s = Session::new(settings(false, &[]));
    let accented = Segment::Word {
        surface: "雨".as_bytes().to_vec(),
        reading: "あめ".as_bytes().to_vec(),
        pitch: Pitch::Accented,
        common: false,
    };
    assert_eq!(render(&mut s, vec![accented]), "<ruby>雨<rt>あめ</rt></ruby>");
}

#[test]
fn empty_document() {
    let mut s = Session::new(settings(true, &[]));
    assert_eq!(render(&mut s, vec![]), "");
    assert_eq!(s.word_stats(), (0, vec![]));
}

#[test]
fn decay_policy_thresholds() {
    let p = DecayPolicy { seen_threshold: 2, forget_distance: 10 };
    let obs = |t: u64, d: Option<u64>| Observation { times_seen: t, distance: d, max_distance: 0 };
    assert!(p.shows(true, &obs(1, None)));
    assert!(p.shows(true, &obs(2, Some(1))));
    assert!(!p.shows(true, &obs(3, Some(9))));
    assert!(p.shows(true, &obs(3, Some(10))));
    assert!(p.shows(false, &obs(3, Some(9))));
    let d = DecayPolicy::default_policy();
    assert_eq!(d.seen_threshold, 3);
    assert_eq!(d.forget_distance, 2000);
}

#[test]
fn tracker_observe_measures_gaps() {
    let mut t = WordTracker::new();
    let a = b"a".to_vec();
    let b = b"b".to_vec();
    let o1 = t.observe(&a);
    assert_eq!((o1.times_seen, o1.distance, o1.max_distance), (1, None, 0));
    t.observe(&b);
    t.observe(&b);
    let o2 = t.observe(&a);
    assert_eq!((o2.times_seen, o2.distance, o2.max_distance), (2, Some(3), 3));
    let o3 = t.observe(&a);
    assert_eq!((o3.times_seen, o3.distance, o3.max_distance), (3, Some(1), 3));
    assert_eq!(t.position(), 5);
    assert_eq!(t.stats(), vec![(a, 3, 3), (b, 1, 2)]);
}
