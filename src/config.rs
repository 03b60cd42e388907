use vstd::prelude::*;

use crate::session::{DecayPolicy, Settings, DEFAULT_FORGET_DISTANCE, DEFAULT_SEEN_THRESHOLD};

verus! {

/// The options of one run.
#[derive(Clone, Debug)]
pub struct Args {
    /// Mark the pitch accent of annotated words where it is unambiguous.
    pub pitch_accent: bool,
    /// Leave bare the words made of the N most common kanji.
    pub furigana_exclude: Option<usize>,
    /// Path of a text file of words that get no reading.
    pub known_words: Option<String>,
    /// Let readings fade from words as the reader meets them often.
    pub learn_mode: bool,
    /// Write a word statistics file beside the output.
    pub word_stats: bool,
    pub input_filepath: String,
    pub output_filepath: String,
}

#[derive(Clone, Copy, Debug, PartialEq, Eq, Structural)]
pub enum ConfigError {
    /// Word statistics were asked for without learn mode.
    WordStatsWithoutLearnMode,
}

impl Args {
    /// Checks that the options fit together.
    pub fn validate(&self) -> (r: Result<(), ConfigError>)
        ensures
            r is Err <==> (self.word_stats && !self.learn_mode),
            r matches Err(e) ==> e == ConfigError::WordStatsWithoutLearnMode,
    {
        if self.word_stats && !self.learn_mode {
            Err(ConfigError::WordStatsWithoutLearnMode)
        } else {
            Ok(())
        }
    }

    /// The number of most common words the annotator leaves bare.
    pub fn exclude_count(&self) -> (r: usize)
        ensures
            r == match self.furigana_exclude {
                Some(n) => n,
                None => 0,
            },
    {
        match self.furigana_exclude {
            Some(n) => n,
            None => 0,
        }
    }

    /// Session settings for these options, with the default decay policy.
    pub fn settings(&self, known_words: Vec<Vec<u8>>) -> (s: Settings)
        ensures
            s.learn_mode == self.learn_mode,
            s.pitch_markers == self.pitch_accent,
            s.policy == (DecayPolicy {
                seen_threshold: DEFAULT_SEEN_THRESHOLD,
                forget_distance: DEFAULT_FORGET_DISTANCE,
            }),
            s.known_words@ == known_words@,
    {
        Settings {
            learn_mode: self.learn_mode,
            pitch_markers: self.pitch_accent,
            policy: DecayPolicy::default_policy(),
            known_words,
        }
    }
}

} // verus!
