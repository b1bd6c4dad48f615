use vvcore::error::{ErrorKind, VvError};
use vvcore::model::{StyleMeta, VoiceModel};
use vvcore::registry::ModelRegistry;

fn chars(s: &str) -> Vec<char> {
    s.chars().collect()
}

fn model(id: &str, styles: &[u32]) -> VoiceModel {
    let metas: Vec<StyleMeta> = styles
        .iter()
        .map(|sid| StyleMeta {
            style_id: *sid,
            name: chars("style"),
            speaker_name: chars("speaker"),
        })
        .collect();
    VoiceModel { id: chars(id), styles: metas, weights: vec![1, 2, 3] }
}

#[test]
fn load_then_unload_clears_every_route() {
    let mut r = ModelRegistry::new();
    r.load(&model("m1", &[1, 2])).unwrap();
    assert!(r.is_loaded_model(&chars("m1")));
    assert!(r.resolve_style(1).is_ok());
    assert!(r.resolve_style(2).is_ok());
    r.unload(&chars("m1")).unwrap();
    assert!(!r.is_loaded_model(&chars("m1")));
    assert!(matches!(r.resolve_style(1), Err(VvError::StyleNotFound(1))));
    assert!(matches!(r.resolve_style(2), Err(VvError::StyleNotFound(2))));
}

#[test]
fn style_conflict_rolls_back_whole_load() {
    let mut r = ModelRegistry::new();
    r.load(&model("m1", &[1, 2])).unwrap();
    let e = r.load(&model("m2", &[3, 2]));
    match e {
        Err(VvError::StyleConflict(sid)) => {
            assert_eq!(sid, 2);
            assert_eq!(VvError::StyleConflict(sid).kind(), ErrorKind::Conflict);
        },
        _ => panic!("expected StyleConflict"),
    }
    assert!(r.is_loaded_model(&chars("m1")));
    assert!(!r.is_loaded_model(&chars("m2")));
    // no route of the refused model leaked in
    assert!(matches!(r.resolve_style(3), Err(VvError::StyleNotFound(3))));
    assert!(r.resolve_style(2).is_ok());
}

#[test]
fn duplicate_model_id_is_a_conflict() {
    let mut r = ModelRegistry::new();
    r.load(&model("m1", &[1])).unwrap();
    let e = r.load(&model("m1", &[9]));
    assert!(matches!(e, Err(VvError::ModelAlreadyLoaded)));
    assert!(matches!(r.resolve_style(9), Err(VvError::StyleNotFound(9))));
}

#[test]
fn unload_missing_model_reports_not_found() {
    let mut r = ModelRegistry::new();
    let e = r.unload(&chars("ghost"));
    assert!(matches!(e, Err(VvError::ModelNotFound)));
}

#[test]
fn resolve_names_the_owning_model() {
    let mut r = ModelRegistry::new();
    r.load(&model("m1", &[1])).unwrap();
    r.load(&model("m2", &[2])).unwrap();
    assert_eq!(r.resolve_style(2).unwrap().id(), String::from("m2"));
    assert_eq!(r.resolve_style(1).unwrap().id(), String::from("m1"));
}

#[test]
fn metas_lists_styles_in_load_order() {
    let mut r = ModelRegistry::new();
    r.load(&model("m1", &[5, 6])).unwrap();
    r.load(&model("m2", &[7])).unwrap();
    let metas = r.metas();
    let ids: Vec<u32> = metas.iter().map(|m| m.style_id).collect();
    assert_eq!(ids, vec![5, 6, 7]);
}

#[test]
fn model_from_data_parses_a_bundle() {
    // id "m", one style (id 7, name "n", speaker "s"), weights [9, 9]
    let data: Vec<u64> = vec![
        1,
        'm' as u64,
        1,
        7,
        1,
        'n' as u64,
        1,
        's' as u64,
        2,
        9,
        9,
    ];
    let m = VoiceModel::from_data(&data).unwrap();
    assert_eq!(m.id(), String::from("m"));
    let metas = m.metas();
    assert_eq!(metas.len(), 1);
    assert_eq!(metas[0].style_id, 7);
    assert_eq!(metas[0].name, chars("n"));
    assert_eq!(metas[0].speaker_name, chars("s"));
    assert_eq!(m.weights, vec![9, 9]);
}

#[test]
fn model_from_data_rejects_inconsistent_bundles() {
    // truncated stream
    assert!(matches!(VoiceModel::from_data(&vec![4u64, 5]), Err(VvError::InvalidData)));
    // no styles declared
    let no_styles: Vec<u64> = vec![1, 'm' as u64, 0, 0];
    assert!(matches!(VoiceModel::from_data(&no_styles), Err(VvError::InvalidData)));
    // the same style id twice
    let dup: Vec<u64> = vec![
        1,
        'm' as u64,
        2,
        7,
        1,
        'n' as u64,
        1,
        's' as u64,
        7,
        1,
        'o' as u64,
        1,
        't' as u64,
        0,
    ];
    let e = VoiceModel::from_data(&dup);
    match e {
        Err(err) => assert_eq!(err.kind(), ErrorKind::Format),
        Ok(_) => panic!("expected a format error"),
    }
}
