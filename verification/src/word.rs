//! Dictionary words: the validated form the engine stores, and the
//! string-facing input form that callers hand in.
use vstd::prelude::*;
use crate::error::VvError;
use crate::text::{all_kana, check_all_kana, clone_chars, count_moras, mora_count, string_to_chars,
    chars_to_string};

verus! {

/// The grammatical class of a dictionary word.
#[derive(Clone, Copy, PartialEq, Eq, Structural, Debug)]
pub enum WordType {
    ProperNoun,
    CommonNoun,
    Verb,
    Adjective,
    Suffix,
}

/// The mathematical value of a validated dictionary word.
#[verifier::ext_equal]
pub struct DictWordV {
    pub surface: Seq<char>,
    pub pronunciation: Seq<char>,
    pub accent_type: u64,
    pub word_type: WordType,
    pub priority: u32,
}

/// A dictionary word in the engine's form. A well-formed word
/// ([`word_wf`]) has a non-empty surface, a kana pronunciation, and an
/// accent type at most the pronunciation's mora count;
/// [`DictWord::new`] validates and builds one.
pub struct DictWord {
    pub surface: Vec<char>,
    pub pronunciation: Vec<char>,
    pub accent_type: u64,
    pub word_type: WordType,
    pub priority: u32,
}

impl View for DictWord {
    type V = DictWordV;

    open spec fn view(&self) -> DictWordV {
        DictWordV {
            surface: self.surface@,
            pronunciation: self.pronunciation@,
            accent_type: self.accent_type,
            word_type: self.word_type,
            priority: self.priority,
        }
    }
}

/// The validity invariant of a dictionary word.
pub open spec fn word_wf(w: DictWordV) -> bool {
    &&& w.surface.len() > 0
    &&& all_kana(w.pronunciation)
    &&& w.accent_type <= mora_count(w.pronunciation)
}

impl DictWord {
    /// Validate the fields and build a word. Fails with the first failing
    /// check: an empty surface, a non-kana pronunciation, or an accent
    /// type above the pronunciation's mora count.
    pub fn new(
        surface: Vec<char>,
        pronunciation: Vec<char>,
        accent_type: u64,
        word_type: WordType,
        priority: u32,
    ) -> (r: Result<DictWord, VvError>)
        ensures
            match r {
                Ok(w) => {
                    &&& w@ == (DictWordV {
                        surface: surface@,
                        pronunciation: pronunciation@,
                        accent_type,
                        word_type,
                        priority,
                    })
                    &&& word_wf(w@)
                },
                Err(e) => match e {
                    VvError::EmptySurface => surface@.len() == 0,
                    VvError::PronunciationNotKana => surface@.len() > 0 && !all_kana(
                        pronunciation@,
                    ),
                    VvError::AccentTypeOutOfRange(got, bound) => {
                        &&& surface@.len() > 0
                        &&& all_kana(pronunciation@)
                        &&& accent_type > mora_count(pronunciation@)
                        &&& got == accent_type
                        &&& bound == mora_count(pronunciation@)
                    },
                    _ => false,
                },
            },
            r is Ok <==> word_wf(
                DictWordV {
                    surface: surface@,
                    pronunciation: pronunciation@,
                    accent_type,
                    word_type,
                    priority,
                },
            ),
    {
        if surface.len() == 0 {
            return Err(VvError::EmptySurface);
        }
        if !check_all_kana(&pronunciation) {
            return Err(VvError::PronunciationNotKana);
        }
        let bound = count_moras(&pronunciation);
        if accent_type > bound as u64 {
            return Err(VvError::AccentTypeOutOfRange(accent_type, bound as u64));
        }
        Ok(DictWord { surface, pronunciation, accent_type, word_type, priority })
    }

    pub fn surface(&self) -> (r: &Vec<char>)
        ensures
            r@ == self@.surface,
    {
        &self.surface
    }

    pub fn pronunciation(&self) -> (r: &Vec<char>)
        ensures
            r@ == self@.pronunciation,
    {
        &self.pronunciation
    }

    pub fn accent_type(&self) -> (r: u64)
        ensures
            r == self@.accent_type,
    {
        self.accent_type
    }

    pub fn word_type(&self) -> (r: WordType)
        ensures
            r == self@.word_type,
    {
        self.word_type
    }

    pub fn priority(&self) -> (r: u32)
        ensures
            r == self@.priority,
    {
        self.priority
    }

    /// A deep copy.
    pub fn duplicate(&self) -> (r: DictWord)
        ensures
            r@ == self@,
    {
        let r = DictWord {
            surface: clone_chars(&self.surface),
            pronunciation: clone_chars(&self.pronunciation),
            accent_type: self.accent_type,
            word_type: self.word_type,
            priority: self.priority,
        };
        assert(r@ =~= self@);
        r
    }
}

/// The recognized word-type strings, in the order they are tried.
pub open spec fn spec_word_type_of(s: Seq<char>) -> Option<WordType> {
    if s == "PROPER_NOUN"@ {
        Some(WordType::ProperNoun)
    } else if s == "COMMON_NOUN"@ {
        Some(WordType::CommonNoun)
    } else if s == "VERB"@ {
        Some(WordType::Verb)
    } else if s == "ADJECTIVE"@ {
        Some(WordType::Adjective)
    } else if s == "SUFFIX"@ {
        Some(WordType::Suffix)
    } else {
        None
    }
}

/// Parse a word-type string; an unrecognized string is a validation
/// error carrying the received value.
pub fn parse_word_type(s: &String) -> (r: Result<WordType, VvError>)
    ensures
        match spec_word_type_of(s@) {
            Some(t) => r == Ok::<WordType, VvError>(t),
            None => r matches Err(VvError::UnknownWordType(v)) && v@ == s@,
        },
{
    if *s == String::from_str("PROPER_NOUN") {
        Ok(WordType::ProperNoun)
    } else if *s == String::from_str("COMMON_NOUN") {
        Ok(WordType::CommonNoun)
    } else if *s == String::from_str("VERB") {
        Ok(WordType::Verb)
    } else if *s == String::from_str("ADJECTIVE") {
        Ok(WordType::Adjective)
    } else if *s == String::from_str("SUFFIX") {
        Ok(WordType::Suffix)
    } else {
        Err(VvError::UnknownWordType(s.clone()))
    }
}

/// The word-type string of a word type, the inverse of
/// [`spec_word_type_of`] on the recognized strings.
pub open spec fn spec_word_type_name(t: WordType) -> Seq<char> {
    match t {
        WordType::ProperNoun => "PROPER_NOUN"@,
        WordType::CommonNoun => "COMMON_NOUN"@,
        WordType::Verb => "VERB"@,
        WordType::Adjective => "ADJECTIVE"@,
        WordType::Suffix => "SUFFIX"@,
    }
}

pub fn word_type_name(t: WordType) -> (r: String)
    ensures
        r@ == spec_word_type_name(t),
{
    match t {
        WordType::ProperNoun => String::from_str("PROPER_NOUN"),
        WordType::CommonNoun => String::from_str("COMMON_NOUN"),
        WordType::Verb => String::from_str("VERB"),
        WordType::Adjective => String::from_str("ADJECTIVE"),
        WordType::Suffix => String::from_str("SUFFIX"),
    }
}

/// A dictionary word as a caller writes it: plain strings, with the
/// optional fields defaulted during conversion. An omitted accent type
/// is 0, an omitted word type is COMMON_NOUN, an omitted priority is 0.
pub struct UserDictWord {
    pub surface: String,
    pub pronunciation: String,
    pub accent_type: Option<i64>,
    pub word_type: Option<String>,
    pub priority: Option<u32>,
}

/// The input's word-type check passes: the string is recognized or the
/// field is absent.
pub open spec fn word_type_accepted(wt: Option<String>) -> bool {
    match wt {
        Some(s) => spec_word_type_of(s@) is Some,
        None => true,
    }
}

/// The input's accent-sign check passes: the accent is absent or not
/// negative.
pub open spec fn accent_sign_accepted(a: Option<i64>) -> bool {
    match a {
        Some(x) => x >= 0,
        None => true,
    }
}

/// The accent type the input stands for: an omitted field means 0.
/// Meaningful only once [`accent_sign_accepted`] holds.
pub open spec fn effective_accent(a: Option<i64>) -> u64 {
    match a {
        Some(x) => x as u64,
        None => 0,
    }
}

impl UserDictWord {
    /// Validate this input into an engine word. The word-type string is
    /// checked first, then a negative accent type is rejected, then the
    /// field checks of [`DictWord::new`] run in their order; conversion
    /// succeeds exactly when every check passes.
    pub fn convert(self) -> (r: Result<DictWord, VvError>)
        ensures
            match r {
                Ok(w) => {
                    &&& (match self.word_type {
                        Some(s) => spec_word_type_of(s@) == Some(w@.word_type),
                        None => w@.word_type == WordType::CommonNoun,
                    })
                    &&& w@.accent_type == effective_accent(self.accent_type)
                    &&& accent_sign_accepted(self.accent_type)
                    &&& w@.surface == self.surface@
                    &&& w@.pronunciation == self.pronunciation@
                    &&& w@.priority == (match self.priority {
                        Some(p) => p,
                        None => 0u32,
                    })
                    &&& word_wf(w@)
                },
                Err(e) => match e {
                    VvError::UnknownWordType(v) => {
                        &&& self.word_type matches Some(s) && v@ == s@
                        &&& spec_word_type_of(v@) is None
                    },
                    VvError::NegativeAccentType => {
                        &&& word_type_accepted(self.word_type)
                        &&& self.accent_type matches Some(a) && a < 0
                    },
                    VvError::EmptySurface => {
                        &&& word_type_accepted(self.word_type)
                        &&& accent_sign_accepted(self.accent_type)
                        &&& self.surface@.len() == 0
                    },
                    VvError::PronunciationNotKana => {
                        &&& word_type_accepted(self.word_type)
                        &&& accent_sign_accepted(self.accent_type)
                        &&& self.surface@.len() > 0
                        &&& !all_kana(self.pronunciation@)
                    },
                    VvError::AccentTypeOutOfRange(got, bound) => {
                        &&& word_type_accepted(self.word_type)
                        &&& accent_sign_accepted(self.accent_type)
                        &&& self.surface@.len() > 0
                        &&& all_kana(self.pronunciation@)
                        &&& got == effective_accent(self.accent_type)
                        &&& bound == mora_count(self.pronunciation@)
                        &&& got > bound
                    },
                    _ => false,
                },
            },
            r is Ok <==> {
                &&& word_type_accepted(self.word_type)
                &&& accent_sign_accepted(self.accent_type)
                &&& self.surface@.len() > 0
                &&& all_kana(self.pronunciation@)
                &&& effective_accent(self.accent_type) <= mora_count(self.pronunciation@)
            },
    {
        let word_type = match &self.word_type {
            Some(s) => parse_word_type(s)?,
            None => WordType::CommonNoun,
        };
        let accent_type: u64 = match self.accent_type {
            Some(a) => {
                if a < 0 {
                    return Err(VvError::NegativeAccentType);
                }
                a as u64
            },
            None => 0,
        };
        let priority = match self.priority {
            Some(p) => p,
            None => 0,
        };
        DictWord::new(
            string_to_chars(self.surface.as_str()),
            string_to_chars(self.pronunciation.as_str()),
            accent_type,
            word_type,
            priority,
        )
    }
}

/// Parsing a word type's own name gives the word type back, so
/// rendering a word to its string-facing form and converting it again
/// restores the word-type field exactly.
pub proof fn lemma_word_type_name_round_trip(t: WordType)
    ensures
        spec_word_type_of(spec_word_type_name(t)) == Some(t),
{
    reveal_strlit("PROPER_NOUN");
    reveal_strlit("COMMON_NOUN");
    reveal_strlit("VERB");
    reveal_strlit("ADJECTIVE");
    reveal_strlit("SUFFIX");
    // The five names differ pairwise: most by length, the two eleven-
    // letter ones by their first letter.
    assert("PROPER_NOUN"@[0] == 'P');
    assert("COMMON_NOUN"@[0] == 'C');
    assert("VERB"@.len() == 4);
    assert("ADJECTIVE"@.len() == 9);
    assert("SUFFIX"@.len() == 6);
}

/// Render an engine word back into the string-facing input form, with
/// every optional field present.
pub fn input_of_word(w: &DictWord) -> (r: UserDictWord)
    requires
        w@.accent_type <= i64::MAX,
    ensures
        r.surface@ == w@.surface,
        r.pronunciation@ == w@.pronunciation,
        r.accent_type matches Some(a) && a == w@.accent_type,
        r.word_type matches Some(s) && s@ == spec_word_type_name(w@.word_type),
        r.priority == Some(w@.priority),
{
    UserDictWord {
        surface: chars_to_string(&w.surface),
        pronunciation: chars_to_string(&w.pronunciation),
        accent_type: Some(w.accent_type as i64),
        word_type: Some(word_type_name(w.word_type)),
        priority: Some(w.priority),
    }
}

} // verus!
