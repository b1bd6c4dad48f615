use vvcore::analyzer::TextAnalyzer;
use vvcore::dict::UserDict;
use vvcore::error::{ErrorKind, VvError};
use vvcore::model::{StyleMeta, VoiceModel};
use vvcore::query::AccentPhrase;
use vvcore::synth::{InitializeOptions, Synthesizer, SynthesisOptions};
use vvcore::word::{DictWord, WordType};

fn chars(s: &str) -> Vec<char> {
    s.chars().collect()
}

fn model(id: &str, styles: &[u32]) -> VoiceModel {
    let metas: Vec<StyleMeta> = styles
        .iter()
        .map(|sid| StyleMeta {
            style_id: *sid,
            name: chars("style"),
            speaker_name: chars("speaker"),
        })
        .collect();
    VoiceModel { id: chars(id), styles: metas, weights: vec![3, 1, 4, 1, 5] }
}

fn synthesizer_with_style(style: u32) -> Synthesizer {
    let analyzer = TextAnalyzer::new();
    let mut s = Synthesizer::new(&analyzer, None).unwrap();
    s.load_voice_model(&model("m1", &[style])).unwrap();
    s
}

fn moras_eq(a: &AccentPhrase, b: &AccentPhrase) -> bool {
    if a.accent != b.accent || a.moras.len() != b.moras.len() {
        return false;
    }
    for i in 0..a.moras.len() {
        let (x, y) = (&a.moras[i], &b.moras[i]);
        if x.text != y.text || x.consonant != y.consonant
            || x.consonant_length != y.consonant_length || x.vowel != y.vowel
            || x.vowel_length != y.vowel_length || x.pitch != y.pitch {
            return false;
        }
    }
    true
}

#[test]
fn notation_with_trailing_marker_has_accent_one() {
    let s = synthesizer_with_style(1);
    let phrases = s.create_accent_phrases_from_kana(&chars("ミナミ'"), 1).unwrap();
    assert_eq!(phrases.len(), 1);
    assert_eq!(phrases[0].accent, 1);
    assert_eq!(phrases[0].moras.len(), 3);
    assert_eq!(phrases[0].moras[0].text, chars("ミ"));
    assert_eq!(phrases[0].moras[1].text, chars("ナ"));
    assert_eq!(phrases[0].moras[2].text, chars("ミ"));
}

#[test]
fn notation_small_kana_shares_a_mora() {
    let s = synthesizer_with_style(1);
    let phrases = s.create_accent_phrases_from_kana(&chars("キャク"), 1).unwrap();
    assert_eq!(phrases.len(), 1);
    assert_eq!(phrases[0].moras.len(), 2);
    assert_eq!(phrases[0].moras[0].text, chars("キャ"));
    assert_eq!(phrases[0].moras[0].consonant, Some('キ'));
    assert_eq!(phrases[0].moras[0].vowel, 'ャ');
    assert_eq!(phrases[0].accent, 0);
}

#[test]
fn notation_slash_separates_phrases() {
    let s = synthesizer_with_style(1);
    let phrases = s.create_accent_phrases_from_kana(&chars("ミナミ'/キタ"), 1).unwrap();
    assert_eq!(phrases.len(), 2);
    assert_eq!(phrases[0].accent, 1);
    assert_eq!(phrases[1].accent, 0);
    assert_eq!(phrases[1].moras.len(), 2);
}

#[test]
fn notation_parse_errors() {
    let s = synthesizer_with_style(1);
    // marker with no mora before it
    assert!(matches!(
        s.create_accent_phrases_from_kana(&chars("'ミ"), 1),
        Err(VvError::InvalidNotation)
    ));
    // two markers in one phrase
    assert!(matches!(
        s.create_accent_phrases_from_kana(&chars("ミ'ナ'"), 1),
        Err(VvError::InvalidNotation)
    ));
    // a symbol outside the kana alphabet
    assert!(matches!(
        s.create_accent_phrases_from_kana(&chars("abc"), 1),
        Err(VvError::InvalidNotation)
    ));
    // an empty phrase
    assert!(matches!(
        s.create_accent_phrases_from_kana(&chars("ミ/"), 1),
        Err(VvError::InvalidNotation)
    ));
    assert!(matches!(
        s.create_accent_phrases_from_kana(&chars(""), 1),
        Err(VvError::InvalidNotation)
    ));
    assert_eq!(VvError::InvalidNotation.kind(), ErrorKind::Parse);
}

#[test]
fn unrouted_style_fails_each_stage_with_not_found() {
    let mut s = synthesizer_with_style(1);
    let phrases = s.create_accent_phrases_from_kana(&chars("ミナミ'"), 1).unwrap();
    s.unload_voice_model(&chars("m1")).unwrap();
    assert!(matches!(
        s.create_accent_phrases_from_kana(&chars("ミ"), 1),
        Err(VvError::StyleNotFound(1))
    ));
    assert!(matches!(s.replace_phoneme_length(&phrases, 1), Err(VvError::StyleNotFound(1))));
    assert!(matches!(s.replace_mora_pitch(&phrases, 1), Err(VvError::StyleNotFound(1))));
    assert!(matches!(s.replace_mora_data(&phrases, 1), Err(VvError::StyleNotFound(1))));
    assert!(matches!(s.audio_query_from_kana(&chars("ミ"), 1), Err(VvError::StyleNotFound(1))));
    assert!(matches!(
        s.tts_from_kana(&chars("ミ"), 1, &SynthesisOptions::plain()),
        Err(VvError::StyleNotFound(1))
    ));
}

#[test]
fn replace_mora_data_is_length_then_pitch() {
    let s = synthesizer_with_style(1);
    let phrases = s.create_accent_phrases_from_kana(&chars("ミナミ'/キャク"), 1).unwrap();
    let combined = s.replace_mora_data(&phrases, 1).unwrap();
    let by_hand = s
        .replace_mora_pitch(&s.replace_phoneme_length(&phrases, 1).unwrap(), 1)
        .unwrap();
    assert_eq!(combined.len(), by_hand.len());
    for i in 0..combined.len() {
        assert!(moras_eq(&combined[i], &by_hand[i]));
    }
}

#[test]
fn duration_stage_leaves_pitch_untouched_and_vice_versa() {
    let s = synthesizer_with_style(1);
    let phrases = s.create_accent_phrases_from_kana(&chars("ミナミ'"), 1).unwrap();
    let with_len = s.replace_phoneme_length(&phrases, 1).unwrap();
    for p in &with_len {
        for m in &p.moras {
            assert_eq!(m.pitch, 0);
            assert!(m.vowel_length > 0);
        }
    }
    let with_pitch = s.replace_mora_pitch(&with_len, 1).unwrap();
    for i in 0..with_pitch.len() {
        for j in 0..with_pitch[i].moras.len() {
            assert_eq!(with_pitch[i].moras[j].vowel_length, with_len[i].moras[j].vowel_length);
            assert!(with_pitch[i].moras[j].pitch >= 3000);
        }
    }
    // the accent nucleus (first mora: accent 1 of 3 counts from the end)
    let nucleus = &with_pitch[0].moras[2];
    let flat = &with_pitch[0].moras[0];
    assert!(nucleus.pitch != flat.pitch || nucleus.vowel != flat.vowel);
}

#[test]
fn tts_equals_audio_query_then_synthesis() {
    let s = synthesizer_with_style(1);
    let opts = SynthesisOptions::plain();
    let q = s.audio_query_from_kana(&chars("ミナミ'/キタ"), 1).unwrap();
    let manual = s.synthesis(&q, 1, &opts).unwrap();
    let direct = s.tts_from_kana(&chars("ミナミ'/キタ"), 1, &opts).unwrap();
    assert_eq!(manual.samples, direct.samples);
    assert!(!manual.samples.is_empty());
}

#[test]
fn tts_from_text_equals_audio_query_then_synthesis() {
    let s = synthesizer_with_style(1);
    let opts = SynthesisOptions::plain();
    let q = s.audio_query(&chars("こんにちは"), 1).unwrap();
    let manual = s.synthesis(&q, 1, &opts).unwrap();
    let direct = s.tts(&chars("こんにちは"), 1, &opts).unwrap();
    assert_eq!(manual.samples, direct.samples);
}

#[test]
fn equal_queries_reproduce_equal_waveforms() {
    let s = synthesizer_with_style(1);
    let q = s.audio_query_from_kana(&chars("ミナミ'"), 1).unwrap();
    let opts = SynthesisOptions::plain();
    let w1 = s.synthesis(&q, 1, &opts).unwrap();
    let w2 = s.synthesis(&q, 1, &opts).unwrap();
    assert_eq!(w1.samples, w2.samples);
}

#[test]
fn audio_query_defaults_and_kana_echo() {
    let s = synthesizer_with_style(1);
    let q = s.audio_query_from_kana(&chars("ミナミ'"), 1).unwrap();
    assert_eq!(q.speed_scale, 1000);
    assert_eq!(q.pitch_scale, 0);
    assert_eq!(q.intonation_scale, 1000);
    assert_eq!(q.volume_scale, 1000);
    assert_eq!(q.output_sampling_rate, 24000);
    assert!(!q.output_stereo);
    assert_eq!(q.kana, chars("ミナミ'"));
    let qt = s.audio_query(&chars("南"), 1).unwrap();
    assert_eq!(qt.kana, chars(""));
}

#[test]
fn zero_speed_scale_is_rejected_before_decoding() {
    let s = synthesizer_with_style(1);
    let mut q = s.audio_query_from_kana(&chars("ミ"), 1).unwrap();
    q.speed_scale = 0;
    let e = s.synthesis(&q, 1, &SynthesisOptions::plain());
    match e {
        Err(err) => {
            assert!(matches!(err, VvError::ZeroScale));
            assert_eq!(err.kind(), ErrorKind::Validation);
        },
        Ok(_) => panic!("expected ZeroScale"),
    }
}

#[test]
fn stereo_output_doubles_the_sample_count() {
    let s = synthesizer_with_style(1);
    let mut q = s.audio_query_from_kana(&chars("ミナ"), 1).unwrap();
    let mono = s.synthesis(&q, 1, &SynthesisOptions::plain()).unwrap();
    q.output_stereo = true;
    let stereo = s.synthesis(&q, 1, &SynthesisOptions::plain()).unwrap();
    assert_eq!(stereo.samples.len(), 2 * mono.samples.len());
    assert_eq!(stereo.samples[0], mono.samples[0]);
    assert_eq!(stereo.samples[1], mono.samples[0]);
}

#[test]
fn padding_options_add_leading_and_trailing_silence() {
    let s = synthesizer_with_style(1);
    let q = s.audio_query_from_kana(&chars("ミ"), 1).unwrap();
    let plain = s.synthesis(&q, 1, &SynthesisOptions::plain()).unwrap();
    let padded = s
        .synthesis(
            &q,
            1,
            &SynthesisOptions { leading_silence: 3, trailing_silence: 2, return_features: false },
        )
        .unwrap();
    assert_eq!(padded.samples.len(), plain.samples.len() + 5);
    assert_eq!(&padded.samples[0..3], &[0u8, 0, 0]);
}

#[test]
fn features_are_returned_only_on_request() {
    let s = synthesizer_with_style(1);
    let q = s.audio_query_from_kana(&chars("ミナ"), 1).unwrap();
    let without = s.synthesis(&q, 1, &SynthesisOptions::plain()).unwrap();
    assert!(without.features.is_none());
    let with = s
        .synthesis(
            &q,
            1,
            &SynthesisOptions { leading_silence: 0, trailing_silence: 0, return_features: true },
        )
        .unwrap();
    let feats = with.features.unwrap();
    assert_eq!(feats.len(), 2);
    assert!(feats.iter().all(|c| *c > 0));
}

#[test]
fn attached_dictionary_changes_the_reading() {
    let mut dict = UserDict::new();
    dict.add_word(
        DictWord::new(chars("南"), chars("ミナミ"), 1, WordType::CommonNoun, 5).unwrap(),
    )
    .unwrap();
    let mut with_dict = TextAnalyzer::new();
    with_dict.use_user_dict(&dict);
    let plain = TextAnalyzer::new();
    let text = chars("南");
    let a = with_dict.analyze(&text);
    let b = plain.analyze(&text);
    assert_eq!(a.len(), 1);
    assert_eq!(a[0].reading, chars("ミナミ"));
    assert_eq!(a[0].accent, 1);
    assert_ne!(a[0].reading, b[0].reading);
}

#[test]
fn analyzer_snapshot_is_point_in_time() {
    let mut dict = UserDict::new();
    let id = dict
        .add_word(DictWord::new(chars("南"), chars("ミナミ"), 1, WordType::CommonNoun, 5).unwrap())
        .unwrap();
    let mut analyzer = TextAnalyzer::new();
    analyzer.use_user_dict(&dict);
    // mutating the dictionary after attachment does not affect analysis
    dict.remove_word(id).unwrap();
    let a = analyzer.analyze(&chars("南"));
    assert_eq!(a[0].reading, chars("ミナミ"));
    // re-attaching picks the change up
    analyzer.use_user_dict(&dict);
    let b = analyzer.analyze(&chars("南"));
    assert_ne!(b[0].reading, chars("ミナミ"));
}

#[test]
fn kana_text_reads_as_itself_without_a_dictionary() {
    let plain = TextAnalyzer::new();
    let out = plain.analyze(&chars("ミナ"));
    assert_eq!(out.len(), 2);
    assert_eq!(out[0].reading, chars("ミ"));
    assert_eq!(out[1].reading, chars("ナ"));
}

#[test]
fn initialize_options_validate_the_mode_string() {
    let analyzer = TextAnalyzer::new();
    let gpu = Synthesizer::new(
        &analyzer,
        Some(InitializeOptions {
            acceleration_mode: Some(String::from("GPU")),
            cpu_num_threads: Some(4),
        }),
    )
    .unwrap();
    assert!(gpu.is_gpu_mode());
    let cpu = Synthesizer::new(
        &analyzer,
        Some(InitializeOptions {
            acceleration_mode: Some(String::from("CPU")),
            cpu_num_threads: None,
        }),
    )
    .unwrap();
    assert!(!cpu.is_gpu_mode());
    let auto = Synthesizer::new(&analyzer, None).unwrap();
    assert!(!auto.is_gpu_mode());
    let bad = Synthesizer::new(
        &analyzer,
        Some(InitializeOptions {
            acceleration_mode: Some(String::from("TURBO")),
            cpu_num_threads: None,
        }),
    );
    match bad {
        Err(VvError::UnknownAccelerationMode(v)) => assert_eq!(v, String::from("TURBO")),
        _ => panic!("expected UnknownAccelerationMode"),
    }
}

#[test]
fn synthesizer_metas_reflect_loaded_models() {
    let mut s = synthesizer_with_style(1);
    assert_eq!(s.metas().len(), 1);
    s.load_voice_model(&model("m2", &[8, 9])).unwrap();
    let ids: Vec<u32> = s.metas().iter().map(|m| m.style_id).collect();
    assert_eq!(ids, vec![1, 8, 9]);
    assert!(s.is_loaded_voice_model(&chars("m2")));
}

#[test]
fn prosody_scalars_shape_the_waveform() {
    let s = synthesizer_with_style(1);
    let q = s.audio_query_from_kana(&chars("ミナ"), 1).unwrap();
    let base = s.synthesis(&q, 1, &SynthesisOptions::plain()).unwrap();

    // a pitch shift changes sample values but not the sample count
    let mut shifted = s.audio_query_from_kana(&chars("ミナ"), 1).unwrap();
    shifted.pitch_scale = 5;
    let with_shift = s.synthesis(&shifted, 1, &SynthesisOptions::plain()).unwrap();
    assert_eq!(with_shift.samples.len(), base.samples.len());
    assert_ne!(with_shift.samples, base.samples);

    // doubling the speed roughly halves the voiced sample count
    let mut fast = s.audio_query_from_kana(&chars("ミナ"), 1).unwrap();
    fast.speed_scale = 2000;
    let quick = s.synthesis(&fast, 1, &SynthesisOptions::plain()).unwrap();
    assert!(quick.samples.len() < base.samples.len());

    // zero volume silences every voiced sample
    let mut quiet = s.audio_query_from_kana(&chars("ミナ"), 1).unwrap();
    quiet.volume_scale = 0;
    let silent = s.synthesis(&quiet, 1, &SynthesisOptions::plain()).unwrap();
    assert!(silent.samples.iter().all(|b| *b == 0));
}

#[test]
fn output_sampling_rate_scales_the_sample_count() {
    let s = synthesizer_with_style(1);
    let base = s.audio_query_from_kana(&chars("ミナ"), 1).unwrap();
    let at_base_rate = s.synthesis(&base, 1, &SynthesisOptions::plain()).unwrap();
    let mut halved = s.audio_query_from_kana(&chars("ミナ"), 1).unwrap();
    halved.output_sampling_rate = 12000;
    let at_half_rate = s.synthesis(&halved, 1, &SynthesisOptions::plain()).unwrap();
    assert!(at_half_rate.samples.len() < at_base_rate.samples.len());
    let mut doubled = s.audio_query_from_kana(&chars("ミナ"), 1).unwrap();
    doubled.output_sampling_rate = 48000;
    let at_double_rate = s.synthesis(&doubled, 1, &SynthesisOptions::plain()).unwrap();
    assert!(at_double_rate.samples.len() > at_base_rate.samples.len());
}
