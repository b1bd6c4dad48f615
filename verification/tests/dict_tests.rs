use vvcore::dict::UserDict;
use vvcore::error::{ErrorKind, VvError};
use vvcore::word::{DictWord, UserDictWord, WordType};

fn chars(s: &str) -> Vec<char> {
    s.chars().collect()
}

fn word(surface: &str, pron: &str, accent: u64, prio: u32) -> DictWord {
    DictWord::new(chars(surface), chars(pron), accent, WordType::CommonNoun, prio).unwrap()
}

#[test]
fn save_load_round_trip_preserves_keys_values_and_order() {
    let mut d = UserDict::new();
    d.add_word_with_id(11, word("南", "ミナミ", 1, 5)).unwrap();
    d.add_word_with_id(7, word("北", "キタ", 0, 2)).unwrap();
    d.add_word_with_id(300, word("客", "キャク", 1, 9)).unwrap();
    let data = d.save();
    let mut e = UserDict::new();
    e.load(&data).unwrap();
    let a = d.words();
    let b = e.words();
    assert_eq!(a.len(), b.len());
    for i in 0..a.len() {
        assert_eq!(a[i].id, b[i].id);
        assert_eq!(a[i].word.surface, b[i].word.surface);
        assert_eq!(a[i].word.pronunciation, b[i].word.pronunciation);
        assert_eq!(a[i].word.accent_type, b[i].word.accent_type);
        assert_eq!(a[i].word.word_type, b[i].word.word_type);
        assert_eq!(a[i].word.priority, b[i].word.priority);
    }
    assert_eq!(b[0].id, 11);
    assert_eq!(b[1].id, 7);
    assert_eq!(b[2].id, 300);
}

#[test]
fn load_rejects_malformed_stream_and_leaves_dict_unchanged() {
    let mut d = UserDict::new();
    d.add_word_with_id(1, word("南", "ミナミ", 1, 5)).unwrap();
    let r = d.load(&vec![5u64]);
    assert!(matches!(r, Err(VvError::InvalidData)));
    assert_eq!(d.len(), 1);
    assert_eq!(d.words()[0].id, 1);
}

#[test]
fn load_rejects_duplicate_ids() {
    let mut d = UserDict::new();
    d.add_word_with_id(9, word("南", "ミナミ", 1, 5)).unwrap();
    d.add_word_with_id(10, word("北", "キタ", 0, 2)).unwrap();
    let mut data = d.save();
    // forge: second entry gets the first entry's id
    let mut e = UserDict::new();
    e.load(&data).unwrap();
    // rebuild a stream whose two entries share an id
    let mut f = UserDict::new();
    f.add_word_with_id(9, word("北", "キタ", 0, 2)).unwrap();
    let tail = f.save();
    // splice: count 2, entry(9, 南) then entry(9, 北)
    let one = {
        let mut g = UserDict::new();
        g.add_word_with_id(9, word("南", "ミナミ", 1, 5)).unwrap();
        g.save()
    };
    data = Vec::new();
    data.push(2);
    data.extend_from_slice(&one[1..]);
    data.extend_from_slice(&tail[1..]);
    let r = e.load(&data);
    assert!(matches!(r, Err(VvError::InvalidData)));
    assert_eq!(e.len(), 2);
}

#[test]
fn remove_missing_id_reports_not_found_and_changes_nothing() {
    let mut d = UserDict::new();
    d.add_word_with_id(5, word("南", "ミナミ", 1, 5)).unwrap();
    let r = d.remove_word(77);
    match r {
        Err(VvError::WordNotFound(id)) => {
            assert_eq!(id, 77);
            assert_eq!(VvError::WordNotFound(id).kind(), ErrorKind::NotFound);
        },
        _ => panic!("expected WordNotFound"),
    }
    assert_eq!(d.len(), 1);
}

#[test]
fn add_update_remove_cycle() {
    let mut d = UserDict::new();
    let id = d.add_word(word("南", "ミナミ", 1, 5)).unwrap();
    assert!(d.contains_word(id));
    d.update_word(id, word("南", "ミナミ", 2, 8)).unwrap();
    assert_eq!(d.words()[0].word.accent_type, 2);
    assert_eq!(d.words()[0].word.priority, 8);
    let removed = d.remove_word(id).unwrap();
    assert_eq!(removed.accent_type, 2);
    assert_eq!(d.len(), 0);
    assert!(matches!(d.update_word(id, word("南", "ミナミ", 1, 5)), Err(VvError::WordNotFound(_))));
}

#[test]
fn import_appends_new_entries_in_source_order_and_keeps_existing() {
    let mut a = UserDict::new();
    a.add_word_with_id(1, word("南", "ミナミ", 1, 5)).unwrap();
    a.add_word_with_id(2, word("北", "キタ", 0, 2)).unwrap();
    let mut b = UserDict::new();
    b.add_word_with_id(2, word("東", "ヒガシ", 0, 1)).unwrap();
    b.add_word_with_id(3, word("西", "ニシ", 0, 1)).unwrap();
    b.add_word_with_id(4, word("客", "キャク", 1, 3)).unwrap();
    a.import(&b);
    let w = a.words();
    assert_eq!(w.len(), 4);
    assert_eq!(w[0].id, 1);
    assert_eq!(w[1].id, 2);
    // the existing entry for id 2 wins: it still reads キタ
    assert_eq!(w[1].word.pronunciation, chars("キタ"));
    assert_eq!(w[2].id, 3);
    assert_eq!(w[3].id, 4);
}

#[test]
fn word_validation_errors() {
    assert!(matches!(
        DictWord::new(chars(""), chars("ミナミ"), 1, WordType::CommonNoun, 0),
        Err(VvError::EmptySurface)
    ));
    assert!(matches!(
        DictWord::new(chars("南"), chars("abc"), 1, WordType::CommonNoun, 0),
        Err(VvError::PronunciationNotKana)
    ));
    assert!(matches!(
        DictWord::new(chars("南"), chars("ミナミ"), 4, WordType::CommonNoun, 0),
        Err(VvError::AccentTypeOutOfRange(4, 3))
    ));
    // キャク groups キャ into one mora: two moras in all
    assert!(matches!(
        DictWord::new(chars("客"), chars("キャク"), 3, WordType::CommonNoun, 0),
        Err(VvError::AccentTypeOutOfRange(3, 2))
    ));
    assert!(DictWord::new(chars("客"), chars("キャク"), 2, WordType::CommonNoun, 0).is_ok());
}

#[test]
fn input_word_conversion_defaults_and_errors() {
    let ok = UserDictWord {
        surface: String::from("南"),
        pronunciation: String::from("ミナミ"),
        accent_type: None,
        word_type: None,
        priority: None,
    }
    .convert()
    .unwrap();
    assert_eq!(ok.accent_type, 0);
    assert_eq!(ok.word_type, WordType::CommonNoun);
    assert_eq!(ok.priority, 0);

    let bad_type = UserDictWord {
        surface: String::from("南"),
        pronunciation: String::from("ミナミ"),
        accent_type: Some(1),
        word_type: Some(String::from("PARTICLE")),
        priority: Some(1),
    }
    .convert();
    match bad_type {
        Err(VvError::UnknownWordType(v)) => {
            assert_eq!(v, String::from("PARTICLE"));
            assert_eq!(VvError::UnknownWordType(v).kind(), ErrorKind::Validation);
        },
        _ => panic!("expected UnknownWordType"),
    }

    let negative = UserDictWord {
        surface: String::from("南"),
        pronunciation: String::from("ミナミ"),
        accent_type: Some(-1),
        word_type: Some(String::from("VERB")),
        priority: None,
    }
    .convert();
    assert!(matches!(negative, Err(VvError::NegativeAccentType)));

    let proper = UserDictWord {
        surface: String::from("南"),
        pronunciation: String::from("ミナミ"),
        accent_type: Some(1),
        word_type: Some(String::from("PROPER_NOUN")),
        priority: Some(10),
    }
    .convert()
    .unwrap();
    assert_eq!(proper.word_type, WordType::ProperNoun);
}

#[test]
fn input_of_word_round_trips_fields() {
    let w = word("南", "ミナミ", 1, 5);
    let input = vvcore::word::input_of_word(&w);
    assert_eq!(input.surface, String::from("南"));
    assert_eq!(input.pronunciation, String::from("ミナミ"));
    assert_eq!(input.accent_type, Some(1));
    assert_eq!(input.word_type, Some(String::from("COMMON_NOUN")));
    assert_eq!(input.priority, Some(5));
}

#[test]
fn add_word_generates_distinct_ids() {
    let mut d = UserDict::new();
    let a = d.add_word(word("南", "ミナミ", 1, 5)).unwrap();
    let b = d.add_word(word("北", "キタ", 0, 2)).unwrap();
    assert_ne!(a, b);
    assert_eq!(d.len(), 2);
    assert!(matches!(
        d.add_word_with_id(a, word("東", "ヒガシ", 0, 1)),
        Err(VvError::IdCollision(_))
    ));
    assert_eq!(d.len(), 2);
}

#[test]
fn render_then_convert_is_the_identity() {
    let w = DictWord::new(chars("客"), chars("キャク"), 2, WordType::Verb, 7).unwrap();
    let rendered = vvcore::word::input_of_word(&w);
    let back = rendered.convert().unwrap();
    assert_eq!(back.surface, chars("客"));
    assert_eq!(back.pronunciation, chars("キャク"));
    assert_eq!(back.accent_type, 2);
    assert_eq!(back.word_type, WordType::Verb);
    assert_eq!(back.priority, 7);
}
