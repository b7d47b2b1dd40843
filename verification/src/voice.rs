use vstd::prelude::*;

use crate::text::{owned, push_str};

verus! {

/// Settings of the speech synthesizer.
#[derive(Debug)]
pub struct VoiceConfig {
    pub voice: String,
    pub speed: u32,
    pub pitch: u8,
    pub gain: u8,
    pub word_gap: u16,
}

impl Clone for VoiceConfig {
    fn clone(&self) -> (r: Self)
        ensures
            r.voice@ == self.voice@,
            r.speed == self.speed,
            r.pitch == self.pitch,
            r.gain == self.gain,
            r.word_gap == self.word_gap,
    {
        VoiceConfig {
            voice: self.voice.clone(),
            speed: self.speed,
            pitch: self.pitch,
            gain: self.gain,
            word_gap: self.word_gap,
        }
    }
}

impl VoiceConfig {
    /// The settings given, each missing one replaced by its default: voice `en-us`,
    /// speed 175, pitch 50, gain 100 and no extra gap between words.
    pub fn from_settings(
        voice: Option<String>,
        speed: Option<u32>,
        pitch: Option<u8>,
        gain: Option<u8>,
        word_gap: Option<u16>,
    ) -> (r: Self)
        ensures
            r.voice@ == (match voice {
                Some(v) => v@,
                None => "en-us"@,
            }),
            r.speed == (match speed {
                Some(v) => v,
                None => 175u32,
            }),
            r.pitch == (match pitch {
                Some(v) => v,
                None => 50u8,
            }),
            r.gain == (match gain {
                Some(v) => v,
                None => 100u8,
            }),
            r.word_gap == (match word_gap {
                Some(v) => v,
                None => 0u16,
            }),
    {
        VoiceConfig {
            voice: match voice {
                Some(v) => v,
                None => owned("en-us"),
            },
            speed: match speed {
                Some(v) => v,
                None => 175,
            },
            pitch: match pitch {
                Some(v) => v,
                None => 50,
            },
            gain: match gain {
                Some(v) => v,
                None => 100,
            },
            word_gap: match word_gap {
                Some(v) => v,
                None => 0,
            },
        }
    }
}

/// What the synthesizer is asked to say, and how.
#[derive(Debug)]
pub struct SpeechRequest {
    pub config: VoiceConfig,
    /// The IPA text in the synthesizer's phoneme brackets.
    pub phonemes: String,
}

/// Speaks IPA text through a speech synthesizer.
#[derive(Debug)]
pub struct VoiceEngine;

impl VoiceEngine {
    pub fn new() -> (r: Self)
        ensures
            r == VoiceEngine,
    {
        VoiceEngine
    }

    /// Checks the settings and wraps the IPA text in `[[` and `]]`, the synthesizer's
    /// phoneme brackets. A pitch above 99 or a gain above 200 is refused, pitch first.
    pub fn prepare(&self, ipa_string: &str, config: VoiceConfig) -> (r: Result<SpeechRequest, String>)
        ensures
            r is Err <==> config.pitch > 99 || config.gain > 200,
            r matches Err(e) ==> e@ == (if config.pitch > 99 {
                "CONCILIUM_VOICE_PITCH must be 0-99"@
            } else {
                "CONCILIUM_VOICE_GAIN must be 0-200"@
            }),
            r matches Ok(req) ==> req.phonemes@ == "[["@ + ipa_string@ + "]]"@
                && req.config.voice@ == config.voice@ && req.config.speed == config.speed
                && req.config.pitch == config.pitch && req.config.gain == config.gain
                && req.config.word_gap == config.word_gap,
    {
        if config.pitch > 99 {
            return Err(owned("CONCILIUM_VOICE_PITCH must be 0-99"));
        }
        if config.gain > 200 {
            return Err(owned("CONCILIUM_VOICE_GAIN must be 0-200"));
        }
        let mut phonemes = String::new();
        push_str(&mut phonemes, "[[");
        push_str(&mut phonemes, ipa_string);
        push_str(&mut phonemes, "]]");
        Ok(SpeechRequest { config, phonemes })
    }
}

} // verus!
