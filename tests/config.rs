use epub_furigana::config::{Args, ConfigError};

fn args(learn_mode: bool, word_stats: bool) -> Args {
    Args {
        pitch_accent: false,
        furigana_exclude: None,
        known_words: None,
        learn_mode,
        word_stats,
        input_filepath: "in.epub".to_string(),
        output_filepath: "out.epub".to_string(),
    }
}

#[test]
fn word_stats_without_learn_mode_rejected() {
    assert_eq!(args(false, true).validate(), Err(ConfigError::WordStatsWithoutLearnMode));
    assert_eq!(args(true, true).validate(), Ok(()));
    assert_eq!(args(false, false).validate(), Ok(()));
}

#[test]
fn settings_from_args() {
    let mut a = args(true, false);
    a.pitch_accent = true;
    a.furigana_exclude = Some(500);
    assert_eq!(a.exclude_count(), 500);
    assert_eq!(args(true, false).exclude_count(), 0);
    let s = a.settings(vec![b"x".to_vec()]);
    assert!(s.learn_mode && s.pitch_markers);
    assert_eq!(s.policy.seen_threshold, 3);
    assert_eq!(s.known_words, vec![b"x".to_vec()]);
}
