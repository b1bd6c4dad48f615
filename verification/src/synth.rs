//! The synthesizer: the voice-model registry, a text-analyzer snapshot,
//! and the ordered synthesis stages. Every stage resolves the style id
//! against the registry when it runs, is deterministic given the resolved
//! model's weights, and leaves the shared state untouched.
use vstd::prelude::*;
use crate::error::VvError;
use crate::analyzer::{TextAnalyzer, MorphemeV, spec_analyze};
use crate::kana::{parse_kana, spec_parse_kana, moras_of_reading, build_reading_moras};
use crate::model::VoiceModel;
use crate::query::{Mora, MoraV, AccentPhrase, AccentPhraseV, AudioQuery, AudioQueryV,
    phrases_view, opt_mora_view};
use crate::registry::{ModelRegistry, registry_wf, routes, find_style, is_loaded,
    no_style_overlap, find_model};
use crate::text::clone_chars;

verus! {

/// The hardware acceleration policy.
#[derive(Clone, Copy, PartialEq, Eq, Structural, Debug)]
pub enum AccelerationMode {
    /// Choose for the environment; this engine resolves it to CPU.
    Auto,
    Cpu,
    Gpu,
}

/// The recognized acceleration-mode strings.
pub open spec fn spec_mode_of(s: Seq<char>) -> Option<AccelerationMode> {
    if s == "AUTO"@ {
        Some(AccelerationMode::Auto)
    } else if s == "CPU"@ {
        Some(AccelerationMode::Cpu)
    } else if s == "GPU"@ {
        Some(AccelerationMode::Gpu)
    } else {
        None
    }
}

/// Construction options as a caller writes them: an optional mode string
/// and an optional CPU thread count (0, the default, means "use all").
pub struct InitializeOptions {
    pub acceleration_mode: Option<String>,
    pub cpu_num_threads: Option<u16>,
}

/// The options after validation.
pub struct ResolvedOptions {
    pub acceleration_mode: AccelerationMode,
    pub cpu_num_threads: u16,
}

impl InitializeOptions {
    /// Validate the options; an unrecognized mode string is a validation
    /// error carrying the received value. Omitted fields default to
    /// AUTO and 0.
    pub fn convert(self) -> (r: Result<ResolvedOptions, VvError>)
        ensures
            match r {
                Ok(o) => {
                    &&& (match self.acceleration_mode {
                        Some(s) => spec_mode_of(s@) == Some(o.acceleration_mode),
                        None => o.acceleration_mode == AccelerationMode::Auto,
                    })
                    &&& o.cpu_num_threads == (match self.cpu_num_threads {
                        Some(n) => n,
                        None => 0u16,
                    })
                },
                Err(e) => {
                    &&& e matches VvError::UnknownAccelerationMode(v)
                    &&& self.acceleration_mode matches Some(s) && v@ == s@
                    &&& spec_mode_of(v@) is None
                },
            },
    {
        let acceleration_mode = match &self.acceleration_mode {
            Some(s) => {
                if *s == String::from_str("AUTO") {
                    AccelerationMode::Auto
                } else if *s == String::from_str("CPU") {
                    AccelerationMode::Cpu
                } else if *s == String::from_str("GPU") {
                    AccelerationMode::Gpu
                } else {
                    return Err(VvError::UnknownAccelerationMode(s.clone()));
                }
            },
            None => AccelerationMode::Auto,
        };
        let cpu_num_threads = match self.cpu_num_threads {
            Some(n) => n,
            None => 0,
        };
        Ok(ResolvedOptions { acceleration_mode, cpu_num_threads })
    }
}

/// Options for the waveform stage: silence padding added before and
/// after the decoded audio (distinct from the query's own pre/post
/// phoneme lengths), and whether per-mora frame counts are returned as
/// diagnostic features.
pub struct SynthesisOptions {
    pub leading_silence: u32,
    pub trailing_silence: u32,
    pub return_features: bool,
}

impl SynthesisOptions {
    /// No padding, no diagnostics.
    pub fn plain() -> (r: SynthesisOptions)
        ensures
            r.leading_silence == 0,
            r.trailing_silence == 0,
            !r.return_features,
    {
        SynthesisOptions { leading_silence: 0, trailing_silence: 0, return_features: false }
    }
}

/// The waveform stage's product: PCM samples, and the per-mora frame
/// counts when diagnostics were requested.
pub struct AudioResult {
    pub samples: Vec<u8>,
    pub features: Option<Vec<u64>>,
}

// ---------------------------------------------------------------------
// The deterministic kernels. Each is a pure function of the resolved
// model's weights (through a seed digest) and the mora data.
// ---------------------------------------------------------------------

/// The digest of a weight prefix: a running sum modulo 65536.
pub open spec fn wseed_upto(w: Seq<u64>, n: int) -> int
    decreases n,
{
    if n <= 0 {
        0
    } else {
        (wseed_upto(w, n - 1) + (w[n - 1] as int) % 65536) % 65536
    }
}

/// The seed digest of a model's weights: every kernel output is a
/// function of this digest and the mora data alone, so synthesis is
/// reproducible for a fixed loaded model.
pub open spec fn wseed(w: Seq<u64>) -> int {
    wseed_upto(w, w.len() as int)
}

/// The seed of the model that serves `sid`.
pub open spec fn style_seed(s: Seq<crate::model::VoiceModelV>, sid: u32) -> int {
    wseed(s[find_style(s, sid)].weights)
}

pub fn weights_seed(w: &Vec<u64>) -> (r: u64)
    ensures
        r == wseed(w@),
        r < 65536,
{
    let mut acc: u64 = 0;
    let mut i: usize = 0;
    while i < w.len()
        invariant
            0 <= i <= w@.len(),
            acc == wseed_upto(w@, i as int),
            acc < 65536,
        decreases w@.len() - i,
    {
        acc = (acc + w[i] % 65536) % 65536;
        i = i + 1;
    }
    acc
}

/// The predicted vowel duration of a mora, in fixed-point units.
pub open spec fn vowel_dur(seed: int, c: char) -> u32 {
    (20 + (seed + (c as u32) as int) % 180) as u32
}

/// The predicted consonant duration.
pub open spec fn consonant_dur(seed: int, c: char) -> u32 {
    (10 + (seed + (c as u32) as int) % 90) as u32
}

/// The predicted pitch of a mora; the accent nucleus is raised.
pub open spec fn mora_pitch(seed: int, c: char, accented: bool) -> u32 {
    (3000 + (seed + (c as u32) as int + if accented {
        700int
    } else {
        0int
    }) % 2500) as u32
}

/// Duration prediction over one mora: both length fields are filled,
/// everything else (the pitch included) is untouched.
pub open spec fn fill_length_mora(m: MoraV, seed: int) -> MoraV {
    MoraV {
        consonant_length: match m.consonant {
            Some(c) => Some(consonant_dur(seed, c)),
            None => None,
        },
        vowel_length: vowel_dur(seed, m.vowel),
        ..m
    }
}

pub open spec fn fill_length_phrase(p: AccentPhraseV, seed: int) -> AccentPhraseV {
    AccentPhraseV {
        moras: p.moras.map_values(|m: MoraV| fill_length_mora(m, seed)),
        pause_mora: match p.pause_mora {
            Some(m) => Some(fill_length_mora(m, seed)),
            None => None,
        },
        ..p
    }
}

/// The duration stage: every mora of every phrase, pause moras included.
pub open spec fn spec_replace_phoneme_length(ps: Seq<AccentPhraseV>, seed: int) -> Seq<
    AccentPhraseV,
> {
    ps.map_values(|p: AccentPhraseV| fill_length_phrase(p, seed))
}

/// The mora at 0-based position `i` of `n` is the accent nucleus when
/// the accent index (counted from the phrase end) names it.
pub open spec fn is_accented(i: int, accent: u64, n: int) -> bool {
    accent > 0 && i == n - accent
}

/// Pitch prediction over one mora: only the pitch field changes.
pub open spec fn fill_pitch_mora(m: MoraV, seed: int, accented: bool) -> MoraV {
    MoraV { pitch: mora_pitch(seed, m.vowel, accented), ..m }
}

pub open spec fn fill_pitch_phrase(p: AccentPhraseV, seed: int) -> AccentPhraseV {
    AccentPhraseV {
        moras: p.moras.map(
            |i: int, m: MoraV| fill_pitch_mora(m, seed, is_accented(i, p.accent, p.moras.len() as int)),
        ),
        pause_mora: match p.pause_mora {
            Some(m) => Some(fill_pitch_mora(m, seed, false)),
            None => None,
        },
        ..p
    }
}

/// The pitch stage: every mora of every phrase; durations untouched.
pub open spec fn spec_replace_mora_pitch(ps: Seq<AccentPhraseV>, seed: int) -> Seq<AccentPhraseV> {
    ps.map_values(|p: AccentPhraseV| fill_pitch_phrase(p, seed))
}

/// Both predictions over one mora in a single pass: the lengths from
/// the duration kernel and the pitch from the pitch kernel.
pub open spec fn fill_both_mora(m: MoraV, seed: int, accented: bool) -> MoraV {
    MoraV {
        consonant_length: match m.consonant {
            Some(c) => Some(consonant_dur(seed, c)),
            None => None,
        },
        vowel_length: vowel_dur(seed, m.vowel),
        pitch: mora_pitch(seed, m.vowel, accented),
        ..m
    }
}

pub open spec fn fill_both_phrase(p: AccentPhraseV, seed: int) -> AccentPhraseV {
    AccentPhraseV {
        moras: p.moras.map(
            |i: int, m: MoraV| fill_both_mora(m, seed, is_accented(i, p.accent, p.moras.len() as int)),
        ),
        pause_mora: match p.pause_mora {
            Some(m) => Some(fill_both_mora(m, seed, false)),
            None => None,
        },
        ..p
    }
}

/// Both prediction stages at once, as one pass over the phrases.
pub open spec fn spec_replace_mora_data(ps: Seq<AccentPhraseV>, seed: int) -> Seq<AccentPhraseV> {
    ps.map_values(|p: AccentPhraseV| fill_both_phrase(p, seed))
}

/// The combined stage is exactly the duration stage followed by the
/// pitch stage: predicting durations first and pitches second, by
/// separate calls, gives the same phrases as the single pass.
pub proof fn lemma_mora_data_composes(ps: Seq<AccentPhraseV>, seed: int)
    ensures
        spec_replace_mora_data(ps, seed) == spec_replace_mora_pitch(
            spec_replace_phoneme_length(ps, seed),
            seed,
        ),
{
    let a = spec_replace_mora_data(ps, seed);
    let b = spec_replace_mora_pitch(spec_replace_phoneme_length(ps, seed), seed);
    assert(a.len() == ps.len());
    assert(b.len() == ps.len());
    assert forall|i: int| 0 <= i < ps.len() implies a[i] == #[trigger] b[i] by {
        let p = ps[i];
        let pl = fill_length_phrase(p, seed);
        assert(a[i] == fill_both_phrase(p, seed));
        assert(b[i] == fill_pitch_phrase(pl, seed));
        assert(pl.moras.len() == p.moras.len());
        assert(pl.accent == p.accent);
        assert forall|j: int|
            0 <= j < p.moras.len() implies #[trigger] fill_both_phrase(p, seed).moras[j]
            == fill_pitch_phrase(pl, seed).moras[j] by {
            let acc = is_accented(j, p.accent, p.moras.len() as int);
            assert(pl.moras[j] == fill_length_mora(p.moras[j], seed));
            assert(fill_pitch_phrase(pl, seed).moras[j] == fill_pitch_mora(
                fill_length_mora(p.moras[j], seed),
                seed,
                acc,
            ));
            assert(fill_both_phrase(p, seed).moras[j] == fill_both_mora(p.moras[j], seed, acc));
            assert(fill_both_mora(p.moras[j], seed, acc) =~= fill_pitch_mora(
                fill_length_mora(p.moras[j], seed),
                seed,
                acc,
            ));
        }
        assert(fill_both_phrase(p, seed).moras =~= fill_pitch_phrase(pl, seed).moras);
        match p.pause_mora {
            Some(m) => {
                assert(fill_both_mora(m, seed, false) =~= fill_pitch_mora(
                    fill_length_mora(m, seed),
                    seed,
                    false,
                ));
            },
            None => {},
        }
        assert(fill_both_phrase(p, seed) =~= fill_pitch_phrase(pl, seed));
    }
    assert(a =~= b);
}

fn fill_length_mora_exec(m: &Mora, seed: u64) -> (r: Mora)
    requires
        seed < 65536,
    ensures
        r@ == fill_length_mora(m@, seed as int),
{
    let consonant_length: Option<u32> = match m.consonant {
        Some(c) => Some((10 + (seed + (c as u32) as u64) % 90) as u32),
        None => None,
    };
    let vowel_length: u32 = (20 + (seed + (m.vowel as u32) as u64) % 180) as u32;
    let r = Mora {
        text: clone_chars(&m.text),
        consonant: m.consonant,
        consonant_length,
        vowel: m.vowel,
        vowel_length,
        pitch: m.pitch,
    };
    assert(r@ =~= fill_length_mora(m@, seed as int));
    r
}

fn fill_pitch_mora_exec(m: &Mora, seed: u64, accented: bool) -> (r: Mora)
    requires
        seed < 65536,
    ensures
        r@ == fill_pitch_mora(m@, seed as int, accented),
{
    let bump: u64 = if accented {
        700
    } else {
        0
    };
    let pitch: u32 = (3000 + (seed + (m.vowel as u32) as u64 + bump) % 2500) as u32;
    let r = Mora {
        text: clone_chars(&m.text),
        consonant: m.consonant,
        consonant_length: m.consonant_length,
        vowel: m.vowel,
        vowel_length: m.vowel_length,
        pitch,
    };
    assert(r@ =~= fill_pitch_mora(m@, seed as int, accented));
    r
}

fn fill_length_phrase_exec(p: &AccentPhrase, seed: u64) -> (r: AccentPhrase)
    requires
        seed < 65536,
    ensures
        r@ == fill_length_phrase(p@, seed as int),
{
    let ghost target = fill_length_phrase(p@, seed as int);
    let mut moras: Vec<Mora> = Vec::new();
    let mut i: usize = 0;
    while i < p.moras.len()
        invariant
            0 <= i <= p.moras@.len(),
            seed < 65536,
            target == fill_length_phrase(p@, seed as int),
            target.moras.len() == p.moras@.len(),
            moras@.len() == i,
            forall|j: int| 0 <= j < i ==> moras@[j]@ == target.moras[j],
        decreases p.moras@.len() - i,
    {
        let m0 = fill_length_mora_exec(&p.moras[i], seed);
        assert(p.moras[i as int]@ == p@.moras[i as int]);
        assert(m0@ == target.moras[i as int]);
        moras.push(m0);
        i = i + 1;
    }
    let pause_mora: Option<Mora> = match &p.pause_mora {
        Some(m) => Some(fill_length_mora_exec(m, seed)),
        None => None,
    };
    let r = AccentPhrase { moras, accent: p.accent, pause_mora };
    assert(r@ =~= target) by {
        assert(r@.moras =~= target.moras);
    }
    r
}

fn fill_pitch_phrase_exec(p: &AccentPhrase, seed: u64) -> (r: AccentPhrase)
    requires
        seed < 65536,
    ensures
        r@ == fill_pitch_phrase(p@, seed as int),
{
    let ghost target = fill_pitch_phrase(p@, seed as int);
    let n = p.moras.len();
    let mut moras: Vec<Mora> = Vec::new();
    let mut i: usize = 0;
    while i < n
        invariant
            0 <= i <= n,
            n == p.moras@.len(),
            seed < 65536,
            target == fill_pitch_phrase(p@, seed as int),
            target.moras.len() == p.moras@.len(),
            moras@.len() == i,
            forall|j: int| 0 <= j < i ==> moras@[j]@ == target.moras[j],
        decreases n - i,
    {
        let accented = p.accent > 0 && p.accent <= n as u64 && i as u64 == n as u64 - p.accent;
        assert(accented == is_accented(i as int, p@.accent, p@.moras.len() as int));
        let m0 = fill_pitch_mora_exec(&p.moras[i], seed, accented);
        assert(p.moras[i as int]@ == p@.moras[i as int]);
        assert(m0@ == target.moras[i as int]);
        moras.push(m0);
        i = i + 1;
    }
    let pause_mora: Option<Mora> = match &p.pause_mora {
        Some(m) => Some(fill_pitch_mora_exec(m, seed, false)),
        None => None,
    };
    let r = AccentPhrase { moras, accent: p.accent, pause_mora };
    assert(r@ =~= target) by {
        assert(r@.moras =~= target.moras);
    }
    r
}

fn run_phoneme_length(ps: &Vec<AccentPhrase>, seed: u64) -> (r: Vec<AccentPhrase>)
    requires
        seed < 65536,
    ensures
        phrases_view(r@) == spec_replace_phoneme_length(phrases_view(ps@), seed as int),
{
    let ghost target = spec_replace_phoneme_length(phrases_view(ps@), seed as int);
    let mut out: Vec<AccentPhrase> = Vec::new();
    let mut i: usize = 0;
    while i < ps.len()
        invariant
            0 <= i <= ps@.len(),
            seed < 65536,
            target == spec_replace_phoneme_length(phrases_view(ps@), seed as int),
            target.len() == ps@.len(),
            out@.len() == i,
            forall|j: int| 0 <= j < i ==> out@[j]@ == target[j],
        decreases ps@.len() - i,
    {
        let p0 = fill_length_phrase_exec(&ps[i], seed);
        assert(ps[i as int]@ == phrases_view(ps@)[i as int]);
        assert(p0@ == target[i as int]);
        out.push(p0);
        i = i + 1;
    }
    assert(phrases_view(out@) =~= target);
    out
}

fn run_mora_pitch(ps: &Vec<AccentPhrase>, seed: u64) -> (r: Vec<AccentPhrase>)
    requires
        seed < 65536,
    ensures
        phrases_view(r@) == spec_replace_mora_pitch(phrases_view(ps@), seed as int),
{
    let ghost target = spec_replace_mora_pitch(phrases_view(ps@), seed as int);
    let mut out: Vec<AccentPhrase> = Vec::new();
    let mut i: usize = 0;
    while i < ps.len()
        invariant
            0 <= i <= ps@.len(),
            seed < 65536,
            target == spec_replace_mora_pitch(phrases_view(ps@), seed as int),
            target.len() == ps@.len(),
            out@.len() == i,
            forall|j: int| 0 <= j < i ==> out@[j]@ == target[j],
        decreases ps@.len() - i,
    {
        let p0 = fill_pitch_phrase_exec(&ps[i], seed);
        assert(ps[i as int]@ == phrases_view(ps@)[i as int]);
        assert(p0@ == target[i as int]);
        out.push(p0);
        i = i + 1;
    }
    assert(phrases_view(out@) =~= target);
    out
}

// ---------------------------------------------------------------------
// The waveform kernel.
// ---------------------------------------------------------------------

/// One PCM sample of a mora: a function of the seed, the mora's pitch,
/// the query's pitch, intonation and volume scales, and the sample's
/// position.
pub open spec fn sample_value(
    seed: int,
    pitch: u32,
    pitch_scale: u32,
    intonation: u32,
    volume: u32,
    j: int,
) -> u8 {
    (((pitch as int) * (intonation as int) / 1000 % 65536 + (pitch_scale as int) % 65536 + j
        % 65536 + seed % 65536) * (volume as int % 65536) / 1000 % 256) as u8
}

/// A mora's frame total: consonant and vowel durations together.
pub open spec fn mora_frames(m: MoraV) -> int {
    (match m.consonant_length {
        Some(x) => x as int,
        None => 0,
    }) + m.vowel_length as int
}

/// How many samples a mora occupies: its frames at the query's speed
/// scale, resampled from the 24 kHz base rate to the query's output
/// sampling rate (so a zero rate yields no voiced samples).
pub open spec fn mora_sample_count(m: MoraV, speed: u32, rate: u32) -> int {
    mora_frames(m) * 1000 / (speed as int) * (rate as int) / 24000
}

pub open spec fn mora_samples(m: MoraV, q: AudioQueryV, seed: int) -> Seq<u8> {
    Seq::new(
        mora_sample_count(m, q.speed_scale, q.output_sampling_rate) as nat,
        |j: int| sample_value(seed, m.pitch, q.pitch_scale, q.intonation_scale, q.volume_scale, j),
    )
}

pub open spec fn moras_samples(ms: Seq<MoraV>, q: AudioQueryV, seed: int) -> Seq<u8>
    decreases ms.len(),
{
    if ms.len() == 0 {
        Seq::empty()
    } else {
        moras_samples(ms.drop_last(), q, seed) + mora_samples(ms.last(), q, seed)
    }
}

pub open spec fn phrase_samples(p: AccentPhraseV, q: AudioQueryV, seed: int) -> Seq<u8> {
    moras_samples(p.moras, q, seed) + (match p.pause_mora {
        Some(m) => mora_samples(m, q, seed),
        None => Seq::empty(),
    })
}

pub open spec fn phrases_samples(ps: Seq<AccentPhraseV>, q: AudioQueryV, seed: int) -> Seq<u8>
    decreases ps.len(),
{
    if ps.len() == 0 {
        Seq::empty()
    } else {
        phrases_samples(ps.drop_last(), q, seed) + phrase_samples(ps.last(), q, seed)
    }
}

pub open spec fn zeros(n: int) -> Seq<u8> {
    Seq::new(
        if n >= 0 {
            n as nat
        } else {
            0
        },
        |j: int| 0u8,
    )
}

/// The single-channel waveform: leading silence, the query's own
/// pre-phoneme silence, the phrases in order, then the post-phoneme and
/// trailing silence.
pub open spec fn mono_waveform(q: AudioQueryV, seed: int, opts_lead: u32, opts_trail: u32) -> Seq<
    u8,
> {
    zeros(opts_lead as int) + zeros(q.pre_phoneme_length as int) + phrases_samples(
        q.accent_phrases,
        q,
        seed,
    ) + zeros(q.post_phoneme_length as int) + zeros(opts_trail as int)
}

/// A stereo frame repeats each mono sample on both channels.
pub open spec fn stereo_expand(s: Seq<u8>) -> Seq<u8> {
    Seq::new(2 * s.len(), |i: int| s[i / 2])
}

/// The waveform of a query: mono, or stereo-expanded when the query
/// asks for stereo output.
pub open spec fn spec_waveform(q: AudioQueryV, seed: int, opts_lead: u32, opts_trail: u32) -> Seq<
    u8,
> {
    if q.output_stereo {
        stereo_expand(mono_waveform(q, seed, opts_lead, opts_trail))
    } else {
        mono_waveform(q, seed, opts_lead, opts_trail)
    }
}

/// The diagnostic features: each mora's sample count, in order, pause
/// moras included.
pub open spec fn moras_counts(ms: Seq<MoraV>, q: AudioQueryV) -> Seq<u64>
    decreases ms.len(),
{
    if ms.len() == 0 {
        Seq::empty()
    } else {
        moras_counts(ms.drop_last(), q).push(
            mora_sample_count(ms.last(), q.speed_scale, q.output_sampling_rate) as u64,
        )
    }
}

pub open spec fn phrase_counts(p: AccentPhraseV, q: AudioQueryV) -> Seq<u64> {
    moras_counts(p.moras, q) + (match p.pause_mora {
        Some(m) => seq![mora_sample_count(m, q.speed_scale, q.output_sampling_rate) as u64],
        None => Seq::empty(),
    })
}

pub open spec fn phrases_counts(ps: Seq<AccentPhraseV>, q: AudioQueryV) -> Seq<u64>
    decreases ps.len(),
{
    if ps.len() == 0 {
        Seq::empty()
    } else {
        phrases_counts(ps.drop_last(), q) + phrase_counts(ps.last(), q)
    }
}

fn push_zeros(out: &mut Vec<u8>, n: u32)
    ensures
        final(out)@ == old(out)@ + zeros(n as int),
{
    let mut j: u32 = 0;
    while j < n
        invariant
            0 <= j <= n,
            out@ == old(out)@ + zeros(j as int),
        decreases n - j,
    {
        out.push(0);
        assert(out@ =~= old(out)@ + zeros(j as int + 1));
        j = j + 1;
    }
}

/// Append one mora's samples and record its frame count.
fn push_mora_samples(
    out: &mut Vec<u8>,
    feats: &mut Vec<u64>,
    m: &Mora,
    q: &AudioQuery,
    seed: u64,
)
    requires
        q.speed_scale > 0,
        seed < 65536,
    ensures
        final(out)@ == old(out)@ + mora_samples(m@, q@, seed as int),
        final(feats)@ == old(feats)@.push(
            mora_sample_count(m@, q@.speed_scale, q@.output_sampling_rate) as u64,
        ),
{
    let cl: u64 = match m.consonant_length {
        Some(x) => x as u64,
        None => 0,
    };
    let frames: u64 = cl + (m.vowel_length as u64);
    let c1: u64 = frames * 1000 / (q.speed_scale as u64);
    proof {
        let f = frames as int;
        let sp = q.speed_scale as int;
        assert(f * 1000 / sp <= f * 1000) by (nonlinear_arith)
            requires
                sp >= 1,
                f >= 0,
        ;
        assert(c1 <= 0x7D0_0000_0000);
        let r = q.output_sampling_rate as int;
        assert((c1 as int) * r <= 0x7D0_0000_0000 * 0xFFFF_FFFF) by (nonlinear_arith)
            requires
                0 <= c1 as int <= 0x7D0_0000_0000,
                0 <= r <= 0xFFFF_FFFF,
        ;
        vstd::arithmetic::div_mod::lemma_div_is_ordered(
            (c1 as int) * r,
            0x7D0_0000_0000int * 0xFFFF_FFFFint,
            24000,
        );
    }
    let count128: u128 = (c1 as u128) * (q.output_sampling_rate as u128) / 24000;
    let count: u64 = count128 as u64;
    assert(count == mora_sample_count(m@, q@.speed_scale, q@.output_sampling_rate));
    proof {
        let a = m.pitch as int;
        let b = q.intonation_scale as int;
        assert(a * b <= 0xFFFF_FFFF * 0xFFFF_FFFF) by (nonlinear_arith)
            requires
                0 <= a <= 0xFFFF_FFFF,
                0 <= b <= 0xFFFF_FFFF,
        ;
    }
    let pi: u64 = (m.pitch as u64) * (q.intonation_scale as u64) / 1000 % 65536;
    let shift: u64 = (q.pitch_scale as u64) % 65536;
    let vol: u64 = (q.volume_scale as u64) % 65536;
    let ghost sm = mora_samples(m@, q@, seed as int);
    assert(sm.len() == count);
    let mut j: u64 = 0;
    while j < count
        invariant
            0 <= j <= count,
            seed < 65536,
            pi == (m@.pitch as int) * (q@.intonation_scale as int) / 1000 % 65536,
            shift == q@.pitch_scale as int % 65536,
            vol == q@.volume_scale as int % 65536,
            sm == mora_samples(m@, q@, seed as int),
            sm.len() == count,
            out@ == old(out)@ + sm.take(j as int),
        decreases count - j,
    {
        proof {
            let a = (pi + shift + j % 65536 + seed) as int;
            let b = vol as int;
            assert(a * b <= 262144 * 65536) by (nonlinear_arith)
                requires
                    0 <= a <= 262144,
                    0 <= b <= 65536,
            ;
        }
        let v: u8 = ((pi + shift + j % 65536 + seed) * vol / 1000 % 256) as u8;
        assert(v == sm[j as int]);
        out.push(v);
        assert(out@ =~= old(out)@ + sm.take(j as int + 1));
        j = j + 1;
    }
    assert(sm.take(sm.len() as int) =~= sm);
    feats.push(count);
}

/// Render the padded mono waveform and the per-mora frame counts.
fn render_mono(q: &AudioQuery, seed: u64, lead: u32, trail: u32) -> (r: (Vec<u8>, Vec<u64>))
    requires
        q.speed_scale > 0,
        seed < 65536,
    ensures
        r.0@ == mono_waveform(q@, seed as int, lead, trail),
        r.1@ == phrases_counts(q@.accent_phrases, q@),
{
    let mut out: Vec<u8> = Vec::new();
    let mut feats: Vec<u64> = Vec::new();
    push_zeros(&mut out, lead);
    push_zeros(&mut out, q.pre_phoneme_length);
    let ghost head = zeros(lead as int) + zeros(q@.pre_phoneme_length as int);
    assert(out@ =~= head);
    let mut i: usize = 0;
    proof {
        assert(out@ =~= head + phrases_samples(q@.accent_phrases.take(0), q@, seed as int));
        assert(feats@ =~= phrases_counts(q@.accent_phrases.take(0), q@));
    }
    while i < q.accent_phrases.len()
        invariant
            0 <= i <= q.accent_phrases@.len(),
            q.speed_scale > 0,
            seed < 65536,
            head == zeros(lead as int) + zeros(q@.pre_phoneme_length as int),
            q@.accent_phrases.len() == q.accent_phrases@.len(),
            forall|j: int|
                0 <= j < q@.accent_phrases.len() ==> q@.accent_phrases[j]
                    == q.accent_phrases@[j]@,
            out@ == head + phrases_samples(q@.accent_phrases.take(i as int), q@, seed as int),
            feats@ == phrases_counts(q@.accent_phrases.take(i as int), q@),
        decreases q.accent_phrases@.len() - i,
    {
        let p = &q.accent_phrases[i];
        let ghost pv = q@.accent_phrases[i as int];
        assert(p@ == pv);
        let ghost out_before = out@;
        let ghost feats_before = feats@;
        let mut k: usize = 0;
        proof {
            assert(out@ =~= out_before + moras_samples(pv.moras.take(0), q@, seed as int));
            assert(feats@ =~= feats_before + moras_counts(pv.moras.take(0), q@));
        }
        while k < p.moras.len()
            invariant
                0 <= k <= p.moras@.len(),
                q.speed_scale > 0,
                seed < 65536,
                pv == p@,
                pv.moras.len() == p.moras@.len(),
                forall|j: int| 0 <= j < pv.moras.len() ==> pv.moras[j] == p.moras@[j]@,
                out@ == out_before + moras_samples(pv.moras.take(k as int), q@, seed as int),
                feats@ == feats_before + moras_counts(pv.moras.take(k as int), q@),
            decreases p.moras@.len() - k,
        {
            let ghost o1 = out@;
            let ghost f1 = feats@;
            push_mora_samples(&mut out, &mut feats, &p.moras[k], q, seed);
            proof {
                let t2 = pv.moras.take(k as int + 1);
                assert(t2.drop_last() =~= pv.moras.take(k as int));
                assert(t2.last() == pv.moras[k as int]);
                assert(out@ =~= out_before + moras_samples(t2, q@, seed as int));
                assert(feats@ =~= feats_before + moras_counts(t2, q@));
            }
            k = k + 1;
        }
        proof {
            assert(pv.moras.take(pv.moras.len() as int) =~= pv.moras);
        }
        match &p.pause_mora {
            Some(m) => {
                push_mora_samples(&mut out, &mut feats, m, q, seed);
                assert(opt_mora_view(p.pause_mora) == pv.pause_mora);
            },
            None => {
                assert(pv.pause_mora is None);
            },
        }
        assert(out@ =~= out_before + phrase_samples(pv, q@, seed as int));
        assert(feats@ =~= feats_before + phrase_counts(pv, q@));
        proof {
            let t2 = q@.accent_phrases.take(i as int + 1);
            assert(t2.drop_last() =~= q@.accent_phrases.take(i as int));
            assert(t2.last() == pv);
            assert(out@ =~= head + phrases_samples(t2, q@, seed as int));
            assert(feats@ =~= phrases_counts(t2, q@));
        }
        i = i + 1;
    }
    proof {
        assert(q@.accent_phrases.take(q@.accent_phrases.len() as int) =~= q@.accent_phrases);
    }
    push_zeros(&mut out, q.post_phoneme_length);
    push_zeros(&mut out, trail);
    assert(out@ =~= mono_waveform(q@, seed as int, lead, trail));
    (out, feats)
}

/// Duplicate each sample onto two channels.
fn expand_stereo(s: &Vec<u8>) -> (r: Vec<u8>)
    ensures
        r@ == stereo_expand(s@),
{
    let mut out: Vec<u8> = Vec::new();
    let mut i: usize = 0;
    while i < s.len()
        invariant
            0 <= i <= s@.len(),
            out@.len() == 2 * i,
            forall|j: int| 0 <= j < 2 * i ==> out@[j] == s@[j / 2],
        decreases s@.len() - i,
    {
        out.push(s[i]);
        out.push(s[i]);
        assert forall|j: int| 0 <= j < 2 * (i + 1) implies out@[j] == s@[j / 2] by {
            if j >= 2 * i {
                assert(j / 2 == i as int);
                assert(out@[j] == s@[i as int]);
            }
        }
        i = i + 1;
    }
    assert(out@ =~= stereo_expand(s@));
    out
}

// ---------------------------------------------------------------------
// The synthesizer.
// ---------------------------------------------------------------------

/// The synthesis orchestrator: the model registry, a snapshot-holding
/// text analyzer, and the acceleration policy it was built with.
pub struct Synthesizer {
    pub registry: ModelRegistry,
    pub analyzer: TextAnalyzer,
    pub gpu: bool,
    pub cpu_num_threads: u16,
}

/// The default audio query around a phrase sequence: unit prosody
/// scalars, a hundred fixed-point units of silence on both sides, 24 kHz
/// mono output, and the originating notation echoed back.
pub open spec fn spec_audio_query(ps: Seq<AccentPhraseV>, kana: Seq<char>) -> AudioQueryV {
    AudioQueryV {
        accent_phrases: ps,
        speed_scale: 1000,
        pitch_scale: 0,
        intonation_scale: 1000,
        volume_scale: 1000,
        pre_phoneme_length: 100,
        post_phoneme_length: 100,
        output_sampling_rate: 24000,
        output_stereo: false,
        kana,
    }
}

/// The acceleration mode an option set resolves to, or `None` when the
/// mode string is unrecognized. Omitted options mean AUTO.
pub open spec fn spec_options_mode(options: Option<InitializeOptions>) -> Option<
    AccelerationMode,
> {
    match options {
        None => Some(AccelerationMode::Auto),
        Some(o) => match o.acceleration_mode {
            None => Some(AccelerationMode::Auto),
            Some(m) => spec_mode_of(m@),
        },
    }
}

/// Accent phrases straight from analyzed morphemes: one phrase per
/// morpheme, its reading's moras with placeholder prosody, its accent.
pub open spec fn spec_phrases_of(ms: Seq<MorphemeV>) -> Seq<AccentPhraseV> {
    ms.map_values(
        |m: MorphemeV| AccentPhraseV {
            moras: moras_of_reading(m.reading),
            accent: m.accent,
            pause_mora: None,
        },
    )
}

impl Synthesizer {
    /// Build a synthesizer around a text analyzer (whose snapshot is
    /// copied) with validated options; an unrecognized acceleration-mode
    /// string is rejected before anything is built.
    pub fn new(open_jtalk: &TextAnalyzer, options: Option<InitializeOptions>) -> (r: Result<
        Synthesizer,
        VvError,
    >)
        ensures
            match r {
                Ok(s) => {
                    &&& s.registry@ =~= Seq::<crate::model::VoiceModelV>::empty()
                    &&& registry_wf(s.registry@)
                    &&& s.analyzer@ == open_jtalk@
                    &&& spec_options_mode(options) matches Some(m) && (s.gpu <==> m
                        == AccelerationMode::Gpu)
                },
                Err(e) => {
                    &&& e matches VvError::UnknownAccelerationMode(v) && spec_mode_of(v@) is None
                    &&& spec_options_mode(options) is None
                },
            },
    {
        let resolved = match options {
            Some(o) => o.convert()?,
            None => ResolvedOptions {
                acceleration_mode: AccelerationMode::Auto,
                cpu_num_threads: 0,
            },
        };
        let gpu = match resolved.acceleration_mode {
            AccelerationMode::Gpu => true,
            _ => false,
        };
        Ok(
            Synthesizer {
                registry: ModelRegistry::new(),
                analyzer: open_jtalk.duplicate(),
                gpu,
                cpu_num_threads: resolved.cpu_num_threads,
            },
        )
    }

    /// Whether hardware acceleration resolved to GPU mode.
    pub fn is_gpu_mode(&self) -> (r: bool)
        ensures
            r == self.gpu,
    {
        self.gpu
    }

    /// Load a voice model into the registry (all-or-nothing; see
    /// [`ModelRegistry::load`]).
    pub fn load_voice_model(&mut self, model: &VoiceModel) -> (r: Result<(), VvError>)
        requires
            registry_wf(old(self).registry@),
            crate::model::model_wf(model@),
        ensures
            final(self).analyzer == old(self).analyzer,
            final(self).gpu == old(self).gpu,
            match r {
                Ok(()) => {
                    &&& !is_loaded(old(self).registry@, model@.id)
                    &&& no_style_overlap(old(self).registry@, model@)
                    &&& final(self).registry@ == old(self).registry@.push(model@)
                    &&& registry_wf(final(self).registry@)
                },
                Err(e) => {
                    &&& final(self).registry@ == old(self).registry@
                    &&& match e {
                        VvError::ModelAlreadyLoaded => is_loaded(
                            old(self).registry@,
                            model@.id,
                        ),
                        VvError::StyleConflict(sid) => {
                            &&& !is_loaded(old(self).registry@, model@.id)
                            &&& crate::model::has_style(model@, sid)
                            &&& routes(old(self).registry@, sid)
                        },
                        _ => false,
                    }
                },
            },
    {
        self.registry.load(model)
    }

    /// Unload the model with this id, removing its style routes.
    pub fn unload_voice_model(&mut self, voice_model_id: &Vec<char>) -> (r: Result<(), VvError>)
        requires
            registry_wf(old(self).registry@),
        ensures
            final(self).analyzer == old(self).analyzer,
            final(self).gpu == old(self).gpu,
            match r {
                Ok(()) => {
                    &&& is_loaded(old(self).registry@, voice_model_id@)
                    &&& final(self).registry@ == old(self).registry@.remove(
                        find_model(old(self).registry@, voice_model_id@),
                    )
                    &&& registry_wf(final(self).registry@)
                },
                Err(e) => {
                    &&& e matches VvError::ModelNotFound
                    &&& !is_loaded(old(self).registry@, voice_model_id@)
                    &&& final(self).registry@ == old(self).registry@
                },
            },
    {
        self.registry.unload(voice_model_id)
    }

    /// Is the model with this id loaded? Never fails.
    pub fn is_loaded_voice_model(&self, voice_model_id: &Vec<char>) -> (r: bool)
        ensures
            r == is_loaded(self.registry@, voice_model_id@),
    {
        self.registry.is_loaded_model(voice_model_id)
    }

    /// The styles of every loaded model, in load order.
    pub fn metas(&self) -> (r: Vec<crate::model::StyleMeta>)
        ensures
            r@.map_values(|m: crate::model::StyleMeta| m@) == crate::registry::all_styles(
                self.registry@,
            ),
    {
        self.registry.metas()
    }

    /// Accent phrases from text: the analyzer's morphemes (under the
    /// attached snapshot), one phrase each, with placeholder prosody.
    /// Fails only when the style is unrouted.
    pub fn create_accent_phrases(&self, text: &Vec<char>, style_id: u32) -> (r: Result<
        Vec<AccentPhrase>,
        VvError,
    >)
        ensures
            match r {
                Ok(v) => routes(self.registry@, style_id) && phrases_view(v@) == spec_phrases_of(
                    spec_analyze(self.analyzer@, text@, 0),
                ),
                Err(e) => e matches VvError::StyleNotFound(x) && x == style_id && !routes(
                    self.registry@,
                    style_id,
                ),
            },
    {
        let _model = self.registry.resolve_style(style_id)?;
        let morphs = self.analyzer.analyze(text);
        let ghost target = spec_phrases_of(spec_analyze(self.analyzer@, text@, 0));
        let mut out: Vec<AccentPhrase> = Vec::new();
        let mut i: usize = 0;
        while i < morphs.len()
            invariant
                0 <= i <= morphs@.len(),
                crate::analyzer::morphemes_view(morphs@) == spec_analyze(
                    self.analyzer@,
                    text@,
                    0,
                ),
                target == spec_phrases_of(spec_analyze(self.analyzer@, text@, 0)),
                target.len() == morphs@.len(),
                out@.len() == i,
                forall|j: int| 0 <= j < i ==> out@[j]@ == target[j],
            decreases morphs@.len() - i,
        {
            let m = &morphs[i];
            assert(m@ == crate::analyzer::morphemes_view(morphs@)[i as int]);
            let moras = build_reading_moras(&m.reading, 0);
            assert(m.reading@.subrange(0, m.reading@.len() as int) =~= m.reading@);
            let p0 = AccentPhrase { moras, accent: m.accent, pause_mora: None };
            assert(p0@ =~= target[i as int]);
            out.push(p0);
            i = i + 1;
        }
        assert(phrases_view(out@) =~= target);
        Ok(out)
    }

    /// Accent phrases from phonetic notation, bypassing the analyzer.
    /// Fails when the style is unrouted, or with a parse error on
    /// malformed notation.
    pub fn create_accent_phrases_from_kana(&self, kana: &Vec<char>, style_id: u32) -> (r: Result<
        Vec<AccentPhrase>,
        VvError,
    >)
        ensures
            match r {
                Ok(v) => {
                    &&& routes(self.registry@, style_id)
                    &&& spec_parse_kana(kana@) == Some(phrases_view(v@))
                },
                Err(e) => match e {
                    VvError::StyleNotFound(x) => x == style_id && !routes(
                        self.registry@,
                        style_id,
                    ),
                    VvError::InvalidNotation => routes(self.registry@, style_id)
                        && spec_parse_kana(kana@) is None,
                    _ => false,
                },
            },
    {
        let _model = self.registry.resolve_style(style_id)?;
        parse_kana(kana)
    }

    /// Re-predict every mora's durations for this style; pitch fields
    /// are untouched.
    pub fn replace_phoneme_length(&self, phrases: &Vec<AccentPhrase>, style_id: u32) -> (r: Result<
        Vec<AccentPhrase>,
        VvError,
    >)
        ensures
            match r {
                Ok(v) => routes(self.registry@, style_id) && phrases_view(v@)
                    == spec_replace_phoneme_length(
                    phrases_view(phrases@),
                    style_seed(self.registry@, style_id),
                ),
                Err(e) => e matches VvError::StyleNotFound(x) && x == style_id && !routes(
                    self.registry@,
                    style_id,
                ),
            },
    {
        let model = self.registry.resolve_style(style_id)?;
        let seed = weights_seed(&model.weights);
        Ok(run_phoneme_length(phrases, seed))
    }

    /// Re-predict every mora's pitch for this style; durations are
    /// untouched, so callers may hand-edit durations first.
    pub fn replace_mora_pitch(&self, phrases: &Vec<AccentPhrase>, style_id: u32) -> (r: Result<
        Vec<AccentPhrase>,
        VvError,
    >)
        ensures
            match r {
                Ok(v) => routes(self.registry@, style_id) && phrases_view(v@)
                    == spec_replace_mora_pitch(
                    phrases_view(phrases@),
                    style_seed(self.registry@, style_id),
                ),
                Err(e) => e matches VvError::StyleNotFound(x) && x == style_id && !routes(
                    self.registry@,
                    style_id,
                ),
            },
    {
        let model = self.registry.resolve_style(style_id)?;
        let seed = weights_seed(&model.weights);
        Ok(run_mora_pitch(phrases, seed))
    }

    /// Both prediction stages, durations first: exactly
    /// `replace_mora_pitch` after `replace_phoneme_length`.
    pub fn replace_mora_data(&self, phrases: &Vec<AccentPhrase>, style_id: u32) -> (r: Result<
        Vec<AccentPhrase>,
        VvError,
    >)
        ensures
            match r {
                Ok(v) => routes(self.registry@, style_id) && phrases_view(v@)
                    == spec_replace_mora_data(
                    phrases_view(phrases@),
                    style_seed(self.registry@, style_id),
                ),
                Err(e) => e matches VvError::StyleNotFound(x) && x == style_id && !routes(
                    self.registry@,
                    style_id,
                ),
            },
    {
        let model = self.registry.resolve_style(style_id)?;
        let seed = weights_seed(&model.weights);
        let lengths = run_phoneme_length(phrases, seed);
        proof {
            lemma_mora_data_composes(phrases_view(phrases@), seed as int);
        }
        Ok(run_mora_pitch(&lengths, seed))
    }

    /// A full audio query from text: accent phrases, then both
    /// prediction stages, wrapped with the default prosody scalars.
    pub fn audio_query(&self, text: &Vec<char>, style_id: u32) -> (r: Result<AudioQuery, VvError>)
        ensures
            match r {
                Ok(q) => routes(self.registry@, style_id) && q@ == spec_audio_query(
                    spec_replace_mora_data(
                        spec_phrases_of(spec_analyze(self.analyzer@, text@, 0)),
                        style_seed(self.registry@, style_id),
                    ),
                    Seq::<char>::empty(),
                ),
                Err(e) => e matches VvError::StyleNotFound(x) && x == style_id && !routes(
                    self.registry@,
                    style_id,
                ),
            },
    {
        let phrases = self.create_accent_phrases(text, style_id)?;
        let filled = self.replace_mora_data(&phrases, style_id)?;
        let q = AudioQuery {
            accent_phrases: filled,
            speed_scale: 1000,
            pitch_scale: 0,
            intonation_scale: 1000,
            volume_scale: 1000,
            pre_phoneme_length: 100,
            post_phoneme_length: 100,
            output_sampling_rate: 24000,
            output_stereo: false,
            kana: Vec::new(),
        };
        assert(q@ =~= spec_audio_query(
            spec_replace_mora_data(
                spec_phrases_of(spec_analyze(self.analyzer@, text@, 0)),
                style_seed(self.registry@, style_id),
            ),
            Seq::<char>::empty(),
        ));
        Ok(q)
    }

    /// A full audio query from phonetic notation, echoing the notation.
    pub fn audio_query_from_kana(&self, kana: &Vec<char>, style_id: u32) -> (r: Result<
        AudioQuery,
        VvError,
    >)
        ensures
            match r {
                Ok(q) => {
                    &&& routes(self.registry@, style_id)
                    &&& spec_parse_kana(kana@) matches Some(ps) && q@ == spec_audio_query(
                        spec_replace_mora_data(ps, style_seed(self.registry@, style_id)),
                        kana@,
                    )
                },
                Err(e) => match e {
                    VvError::StyleNotFound(x) => x == style_id && !routes(
                        self.registry@,
                        style_id,
                    ),
                    VvError::InvalidNotation => routes(self.registry@, style_id)
                        && spec_parse_kana(kana@) is None,
                    _ => false,
                },
            },
    {
        let phrases = self.create_accent_phrases_from_kana(kana, style_id)?;
        let filled = self.replace_mora_data(&phrases, style_id)?;
        let q = AudioQuery {
            accent_phrases: filled,
            speed_scale: 1000,
            pitch_scale: 0,
            intonation_scale: 1000,
            volume_scale: 1000,
            pre_phoneme_length: 100,
            post_phoneme_length: 100,
            output_sampling_rate: 24000,
            output_stereo: false,
            kana: clone_chars(kana),
        };
        proof {
            let ps = spec_parse_kana(kana@).unwrap();
            assert(q@ =~= spec_audio_query(
                spec_replace_mora_data(ps, style_seed(self.registry@, style_id)),
                kana@,
            ));
        }
        Ok(q)
    }

    /// Decode a query into PCM samples. Fails when the style is
    /// unrouted, or when the query's speed scale is zero. The waveform
    /// is a pure function of the query, the resolved model's weights and
    /// the padding options, so an equal query reproduces equal bytes.
    pub fn synthesis(&self, query: &AudioQuery, style_id: u32, options: &SynthesisOptions) -> (r:
        Result<AudioResult, VvError>)
        ensures
            match r {
                Ok(out) => {
                    &&& routes(self.registry@, style_id)
                    &&& query@.speed_scale > 0
                    &&& out.samples@ == spec_waveform(
                        query@,
                        style_seed(self.registry@, style_id),
                        options.leading_silence,
                        options.trailing_silence,
                    )
                    &&& (match out.features {
                        Some(f) => options.return_features && f@ == phrases_counts(
                            query@.accent_phrases,
                            query@,
                        ),
                        None => !options.return_features,
                    })
                },
                Err(e) => match e {
                    VvError::StyleNotFound(x) => x == style_id && !routes(
                        self.registry@,
                        style_id,
                    ),
                    VvError::ZeroScale => routes(self.registry@, style_id)
                        && query@.speed_scale == 0,
                    _ => false,
                },
            },
    {
        let model = self.registry.resolve_style(style_id)?;
        if query.speed_scale == 0 {
            return Err(VvError::ZeroScale);
        }
        let seed = weights_seed(&model.weights);
        let (mono, feats) = render_mono(
            query,
            seed,
            options.leading_silence,
            options.trailing_silence,
        );
        let samples = if query.output_stereo {
            expand_stereo(&mono)
        } else {
            mono
        };
        let features = if options.return_features {
            Some(feats)
        } else {
            None
        };
        Ok(AudioResult { samples, features })
    }

    /// Text to speech: exactly `audio_query` followed by `synthesis` on
    /// its result, with the same style and options.
    pub fn tts(&self, text: &Vec<char>, style_id: u32, options: &SynthesisOptions) -> (r: Result<
        AudioResult,
        VvError,
    >)
        ensures
            match r {
                Ok(out) => {
                    &&& routes(self.registry@, style_id)
                    &&& out.samples@ == spec_waveform(
                        spec_audio_query(
                            spec_replace_mora_data(
                                spec_phrases_of(spec_analyze(self.analyzer@, text@, 0)),
                                style_seed(self.registry@, style_id),
                            ),
                            Seq::<char>::empty(),
                        ),
                        style_seed(self.registry@, style_id),
                        options.leading_silence,
                        options.trailing_silence,
                    )
                },
                Err(e) => e matches VvError::StyleNotFound(x) && x == style_id && !routes(
                    self.registry@,
                    style_id,
                ),
            },
    {
        let q = self.audio_query(text, style_id)?;
        match self.synthesis(&q, style_id, options) {
            Ok(out) => Ok(out),
            Err(e) => {
                proof {
                    assert(q@.speed_scale == 1000);
                }
                assert(false);
                Err(e)
            },
        }
    }

    /// Notation to speech: exactly `audio_query_from_kana` followed by
    /// `synthesis` on its result.
    pub fn tts_from_kana(&self, kana: &Vec<char>, style_id: u32, options: &SynthesisOptions) -> (r:
        Result<AudioResult, VvError>)
        ensures
            match r {
                Ok(out) => {
                    &&& routes(self.registry@, style_id)
                    &&& spec_parse_kana(kana@) matches Some(ps) && out.samples@ == spec_waveform(
                        spec_audio_query(
                            spec_replace_mora_data(ps, style_seed(self.registry@, style_id)),
                            kana@,
                        ),
                        style_seed(self.registry@, style_id),
                        options.leading_silence,
                        options.trailing_silence,
                    )
                },
                Err(e) => match e {
                    VvError::StyleNotFound(x) => x == style_id && !routes(
                        self.registry@,
                        style_id,
                    ),
                    VvError::InvalidNotation => routes(self.registry@, style_id)
                        && spec_parse_kana(kana@) is None,
                    _ => false,
                },
            },
    {
        let q = self.audio_query_from_kana(kana, style_id)?;
        match self.synthesis(&q, style_id, options) {
            Ok(out) => Ok(out),
            Err(e) => {
                proof {
                    assert(q@.speed_scale == 1000);
                }
                assert(false);
                Err(e)
            },
        }
    }
}

} // verus!
