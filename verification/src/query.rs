//! The pipeline's data: moras, accent phrases and the audio query.
//! Duration and pitch fields are filled in progressively by the stages;
//! until then they hold placeholder zeroes.
use vstd::prelude::*;
use crate::text::clone_chars;

verus! {

/// The mathematical value of a mora.
#[verifier::ext_equal]
pub struct MoraV {
    pub text: Seq<char>,
    pub consonant: Option<char>,
    pub consonant_length: Option<u32>,
    pub vowel: char,
    pub vowel_length: u32,
    pub pitch: u32,
}

/// One phonological timing unit: an optional consonant and a vowel, with
/// their durations and the mora's pitch.
pub struct Mora {
    pub text: Vec<char>,
    pub consonant: Option<char>,
    pub consonant_length: Option<u32>,
    pub vowel: char,
    pub vowel_length: u32,
    pub pitch: u32,
}

impl View for Mora {
    type V = MoraV;

    open spec fn view(&self) -> MoraV {
        MoraV {
            text: self.text@,
            consonant: self.consonant,
            consonant_length: self.consonant_length,
            vowel: self.vowel,
            vowel_length: self.vowel_length,
            pitch: self.pitch,
        }
    }
}

impl Mora {
    /// A deep copy.
    pub fn duplicate(&self) -> (r: Mora)
        ensures
            r@ == self@,
    {
        let r = Mora {
            text: clone_chars(&self.text),
            consonant: self.consonant,
            consonant_length: self.consonant_length,
            vowel: self.vowel,
            vowel_length: self.vowel_length,
            pitch: self.pitch,
        };
        assert(r@ =~= self@);
        r
    }
}

pub open spec fn opt_mora_view(o: Option<Mora>) -> Option<MoraV> {
    match o {
        Some(m) => Some(m@),
        None => None,
    }
}

/// The mathematical value of an accent phrase.
#[verifier::ext_equal]
pub struct AccentPhraseV {
    pub moras: Seq<MoraV>,
    pub accent: u64,
    pub pause_mora: Option<MoraV>,
}

/// An ordered group of moras sharing one pitch-accent contour. The
/// accent index names the accented mora by its distance from the end of
/// the phrase (the final mora has index 1); 0 means a flat contour.
pub struct AccentPhrase {
    pub moras: Vec<Mora>,
    pub accent: u64,
    pub pause_mora: Option<Mora>,
}

impl View for AccentPhrase {
    type V = AccentPhraseV;

    open spec fn view(&self) -> AccentPhraseV {
        AccentPhraseV {
            moras: self.moras@.map_values(|m: Mora| m@),
            accent: self.accent,
            pause_mora: opt_mora_view(self.pause_mora),
        }
    }
}

/// The views of a phrase vector.
pub open spec fn phrases_view(v: Seq<AccentPhrase>) -> Seq<AccentPhraseV> {
    v.map_values(|p: AccentPhrase| p@)
}

/// The mathematical value of an audio query.
#[verifier::ext_equal]
pub struct AudioQueryV {
    pub accent_phrases: Seq<AccentPhraseV>,
    pub speed_scale: u32,
    pub pitch_scale: u32,
    pub intonation_scale: u32,
    pub volume_scale: u32,
    pub pre_phoneme_length: u32,
    pub post_phoneme_length: u32,
    pub output_sampling_rate: u32,
    pub output_stereo: bool,
    pub kana: Seq<char>,
}

/// A fully specified synthesis request: the accent phrases plus the
/// global prosody scalars, in fixed-point units of [`crate::SCALE_ONE`].
/// Re-submitting an equal query against the same loaded model yields
/// the same waveform.
pub struct AudioQuery {
    pub accent_phrases: Vec<AccentPhrase>,
    pub speed_scale: u32,
    pub pitch_scale: u32,
    pub intonation_scale: u32,
    pub volume_scale: u32,
    pub pre_phoneme_length: u32,
    pub post_phoneme_length: u32,
    pub output_sampling_rate: u32,
    pub output_stereo: bool,
    pub kana: Vec<char>,
}

impl View for AudioQuery {
    type V = AudioQueryV;

    open spec fn view(&self) -> AudioQueryV {
        AudioQueryV {
            accent_phrases: phrases_view(self.accent_phrases@),
            speed_scale: self.speed_scale,
            pitch_scale: self.pitch_scale,
            intonation_scale: self.intonation_scale,
            volume_scale: self.volume_scale,
            pre_phoneme_length: self.pre_phoneme_length,
            post_phoneme_length: self.post_phoneme_length,
            output_sampling_rate: self.output_sampling_rate,
            output_stereo: self.output_stereo,
            kana: self.kana@,
        }
    }
}

} // verus!
