//! The text analyzer: turns raw text into morphemes with readings,
//! consulting a point-in-time snapshot of the user dictionary. The
//! snapshot is captured by `use_user_dict`; mutating the dictionary
//! afterwards does not change this analyzer until it is re-attached.
use vstd::prelude::*;
use crate::dict::{UserDict, DictEntryV};
use crate::text::{is_kana, kana_char, is_prefix_at, prefix_at, clone_chars};
use crate::word::{DictWord, DictWordV};

verus! {

/// The mathematical value of a morpheme.
#[verifier::ext_equal]
pub struct MorphemeV {
    pub surface: Seq<char>,
    pub reading: Seq<char>,
    pub accent: u64,
}

/// One analyzed unit of text: its surface, its kana reading, and its
/// accent type.
pub struct Morpheme {
    pub surface: Vec<char>,
    pub reading: Vec<char>,
    pub accent: u64,
}

impl View for Morpheme {
    type V = MorphemeV;

    open spec fn view(&self) -> MorphemeV {
        MorphemeV { surface: self.surface@, reading: self.reading@, accent: self.accent }
    }
}

pub open spec fn morphemes_view(v: Seq<Morpheme>) -> Seq<MorphemeV> {
    v.map_values(|m: Morpheme| m@)
}

/// The reading an unknown character falls back to: a kana character
/// reads as itself; anything else maps to one of the five plain vowel
/// letters by its code point.
pub open spec fn fallback_reading(c: char) -> char {
    if is_kana(c) {
        c
    } else if c as u32 % 5 == 0 {
        'ア'
    } else if c as u32 % 5 == 1 {
        'イ'
    } else if c as u32 % 5 == 2 {
        'ウ'
    } else if c as u32 % 5 == 3 {
        'エ'
    } else {
        'オ'
    }
}

fn fallback_reading_exec(c: char) -> (r: char)
    ensures
        r == fallback_reading(c),
{
    if kana_char(c) {
        c
    } else {
        let k = (c as u32) % 5;
        if k == 0 {
            'ア'
        } else if k == 1 {
            'イ'
        } else if k == 2 {
            'ウ'
        } else if k == 3 {
            'エ'
        } else {
            'オ'
        }
    }
}

/// The index of the first snapshot word whose (non-empty) surface occurs
/// in `text` at `pos`, or the snapshot's length.
pub open spec fn first_match(words: Seq<DictWordV>, text: Seq<char>, pos: int) -> int
    decreases words.len(),
{
    if words.len() == 0 {
        0
    } else if words[0].surface.len() > 0 && is_prefix_at(text, pos, words[0].surface) {
        0
    } else {
        1 + first_match(words.skip(1), text, pos)
    }
}

pub proof fn lemma_first_match(words: Seq<DictWordV>, text: Seq<char>, pos: int)
    ensures
        0 <= first_match(words, text, pos) <= words.len(),
        first_match(words, text, pos) < words.len() ==> {
            let w = words[first_match(words, text, pos)];
            w.surface.len() > 0 && is_prefix_at(text, pos, w.surface)
        },
        forall|j: int|
            0 <= j < first_match(words, text, pos) ==> !(#[trigger] words[j].surface.len() > 0
                && is_prefix_at(text, pos, words[j].surface)),
    decreases words.len(),
{
    if words.len() == 0 {
    } else if words[0].surface.len() > 0 && is_prefix_at(text, pos, words[0].surface) {
    } else {
        lemma_first_match(words.skip(1), text, pos);
        assert(forall|j: int| 1 <= j < words.len() ==> words[j] == words.skip(1)[j - 1]);
    }
}

/// Deterministic analysis: at each position, the first snapshot word
/// whose surface matches is taken whole; otherwise one character is
/// consumed with its fallback reading and a flat accent.
pub open spec fn spec_analyze(words: Seq<DictWordV>, text: Seq<char>, pos: int) -> Seq<MorphemeV>
    decreases text.len() - pos,
{
    if pos < 0 || pos >= text.len() {
        Seq::empty()
    } else {
        let k = first_match(words, text, pos);
        if k < words.len() && words[k].surface.len() > 0 && pos + words[k].surface.len()
            <= text.len() {
            let w = words[k];
            seq![
                MorphemeV { surface: w.surface, reading: w.pronunciation, accent: w.accent_type },
            ] + spec_analyze(words, text, pos + w.surface.len())
        } else {
            seq![
                MorphemeV {
                    surface: seq![text[pos]],
                    reading: seq![fallback_reading(text[pos])],
                    accent: 0,
                },
            ] + spec_analyze(words, text, pos + 1)
        }
    }
}

/// With no snapshot word matching, analysis reads one character at a
/// time with the fallback reading and a flat accent.
pub proof fn lemma_empty_snapshot_falls_back(text: Seq<char>, pos: int)
    requires
        0 <= pos <= text.len(),
    ensures
        ({
            let r = spec_analyze(Seq::<DictWordV>::empty(), text, pos);
            &&& r.len() == text.len() - pos
            &&& forall|i: int|
                0 <= i < r.len() ==> #[trigger] r[i] == (MorphemeV {
                    surface: seq![text[pos + i]],
                    reading: seq![fallback_reading(text[pos + i])],
                    accent: 0,
                })
        }),
    decreases text.len() - pos,
{
    let words = Seq::<DictWordV>::empty();
    let r = spec_analyze(words, text, pos);
    if pos == text.len() {
    } else {
        lemma_empty_snapshot_falls_back(text, pos + 1);
        let rest = spec_analyze(words, text, pos + 1);
        let m0 = MorphemeV {
            surface: seq![text[pos]],
            reading: seq![fallback_reading(text[pos])],
            accent: 0,
        };
        assert(first_match(words, text, pos) == 0);
        assert(r == seq![m0] + rest);
        assert forall|i: int|
            0 <= i < r.len() implies #[trigger] r[i] == (MorphemeV {
            surface: seq![text[pos + i]],
            reading: seq![fallback_reading(text[pos + i])],
            accent: 0,
        }) by {
            if i > 0 {
                assert(r[i] == rest[i - 1]);
            }
        }
    }
}

/// A snapshot word whose surface covers the text is read whole, with
/// its pronunciation and accent.
pub proof fn lemma_matching_word_is_read(w: DictWordV, text: Seq<char>)
    requires
        w.surface == text,
        text.len() > 0,
    ensures
        spec_analyze(seq![w], text, 0) == seq![
            MorphemeV { surface: w.surface, reading: w.pronunciation, accent: w.accent_type },
        ],
{
    let words = seq![w];
    assert(is_prefix_at(text, 0, w.surface)) by {
        assert(text.subrange(0, w.surface.len() as int) =~= w.surface);
    }
    assert(first_match(words, text, 0) == 0);
    let m0 = MorphemeV { surface: w.surface, reading: w.pronunciation, accent: w.accent_type };
    assert(spec_analyze(words, text, text.len() as int) =~= Seq::<MorphemeV>::empty());
    assert(spec_analyze(words, text, 0) =~= seq![m0] + Seq::<MorphemeV>::empty());
    assert(seq![m0] + Seq::<MorphemeV>::empty() =~= seq![m0]);
}

/// Attaching a dictionary changes the reading: a snapshot word whose
/// surface covers the text is read with its own pronunciation and
/// accent, while the analysis without the word reads per-character
/// fallbacks; whenever the word's pronunciation is not that fallback,
/// the two analyses disagree on the first reading. (A word whose
/// pronunciation equals its fallback reading — for instance a
/// single-kana word reading as itself — leaves analysis unchanged, so
/// such inputs are excluded.)
pub proof fn lemma_attached_word_changes_reading(w: DictWordV, text: Seq<char>)
    requires
        w.surface == text,
        text.len() > 0,
        w.pronunciation != seq![fallback_reading(text[0])],
    ensures
        ({
            let with_word = spec_analyze(seq![w], text, 0);
            let without = spec_analyze(Seq::<DictWordV>::empty(), text, 0);
            &&& with_word.len() == 1
            &&& with_word[0].reading == w.pronunciation
            &&& with_word[0].accent == w.accent_type
            &&& without.len() == text.len()
            &&& without[0].reading == seq![fallback_reading(text[0])]
            &&& with_word[0].reading != without[0].reading
        }),
{
    lemma_matching_word_is_read(w, text);
    lemma_empty_snapshot_falls_back(text, 0);
}

/// A morphological analyzer holding a dictionary snapshot. A fresh
/// analyzer has an empty snapshot and relies on the fallback alone:
/// the external system lexicon that a full morphological analyzer would
/// load from a resource directory is modeled here by the documented
/// per-character fallback, so only the attached user-dictionary
/// snapshot contributes words.
pub struct TextAnalyzer {
    pub words: Vec<DictWord>,
}

impl View for TextAnalyzer {
    type V = Seq<DictWordV>;

    open spec fn view(&self) -> Seq<DictWordV> {
        self.words@.map_values(|w: DictWord| w@)
    }
}

impl TextAnalyzer {
    /// An analyzer with no dictionary attached.
    pub fn new() -> (r: TextAnalyzer)
        ensures
            r@ =~= Seq::<DictWordV>::empty(),
    {
        TextAnalyzer { words: Vec::new() }
    }

    /// Capture a snapshot of the dictionary's words, in order, replacing
    /// any earlier snapshot in one step. Later mutation of the
    /// dictionary does not affect this analyzer until re-attached.
    pub fn use_user_dict(&mut self, dict: &UserDict)
        ensures
            final(self)@ == dict@.map_values(|e: DictEntryV| e.word),
    {
        let mut words: Vec<DictWord> = Vec::new();
        let entries = dict.words();
        let mut i: usize = 0;
        proof {
            let f = |w: DictWord| w@;
            assert(words@.map_values(f) =~= dict@.map_values(|e: DictEntryV| e.word).take(0));
        }
        while i < entries.len()
            invariant
                0 <= i <= entries@.len(),
                entries@.map_values(|e: crate::dict::DictEntry| e@) == dict@,
                words@.map_values(|w: DictWord| w@) == dict@.map_values(
                    |e: DictEntryV| e.word,
                ).take(i as int),
            decreases entries@.len() - i,
        {
            let ghost prev = words@;
            let w0 = entries[i].word.duplicate();
            let ghost w0v = w0@;
            words.push(w0);
            proof {
                let f = |w: DictWord| w@;
                let g = |e: crate::dict::DictEntry| e@;
                let h = |e: DictEntryV| e.word;
                assert(entries@.map_values(g)[i as int] == entries@[i as int]@);
                assert(w0v == dict@[i as int].word);
                assert(w0v == dict@.map_values(h)[i as int]);
                assert(words@ =~= prev.push(w0));
                assert(words@.map_values(f) =~= prev.map_values(f).push(w0v));
                assert(words@.map_values(f) =~= dict@.map_values(h).take(i as int + 1));
            }
            i = i + 1;
        }
        proof {
            let h = |e: DictEntryV| e.word;
            assert(dict@.map_values(h).take(dict@.len() as int) =~= dict@.map_values(h));
            assert(dict@.len() == entries@.len());
        }
        self.words = words;
    }

    /// The index of the first snapshot word matching at `pos`.
    fn find_match(&self, text: &Vec<char>, pos: usize) -> (r: usize)
        requires
            pos <= text@.len(),
        ensures
            r == first_match(self@, text@, pos as int),
    {
        proof {
            lemma_first_match(self@, text@, pos as int);
        }
        let mut i: usize = 0;
        while i < self.words.len()
            invariant
                0 <= i <= self@.len(),
                pos <= text@.len(),
                self@.len() == self.words@.len(),
                forall|j: int| 0 <= j < self@.len() ==> self@[j] == self.words@[j]@,
                forall|j: int|
                    0 <= j < i ==> !(#[trigger] self@[j].surface.len() > 0 && is_prefix_at(
                        text@,
                        pos as int,
                        self@[j].surface,
                    )),
                0 <= first_match(self@, text@, pos as int) <= self@.len(),
                first_match(self@, text@, pos as int) < self@.len() ==> {
                    let w = self@[first_match(self@, text@, pos as int)];
                    w.surface.len() > 0 && is_prefix_at(text@, pos as int, w.surface)
                },
                forall|j: int|
                    0 <= j < first_match(self@, text@, pos as int) ==> !(
                    #[trigger] self@[j].surface.len() > 0 && is_prefix_at(
                        text@,
                        pos as int,
                        self@[j].surface,
                    )),
            decreases self@.len() - i,
        {
            let w = &self.words[i];
            if w.surface.len() > 0 && prefix_at(text, pos, &w.surface) {
                assert(self@[i as int].surface.len() > 0 && is_prefix_at(
                    text@,
                    pos as int,
                    self@[i as int].surface,
                ));
                assert(i as int == first_match(self@, text@, pos as int)) by {
                    let k = first_match(self@, text@, pos as int);
                    if k < i {
                        assert(!(self@[k].surface.len() > 0 && is_prefix_at(
                            text@,
                            pos as int,
                            self@[k].surface,
                        )));
                    }
                }
                return i;
            }
            assert(!(self@[i as int].surface.len() > 0 && is_prefix_at(
                text@,
                pos as int,
                self@[i as int].surface,
            )));
            i = i + 1;
        }
        assert(i as int == first_match(self@, text@, pos as int)) by {
            let k = first_match(self@, text@, pos as int);
            if k < i {
                assert(!(self@[k].surface.len() > 0 && is_prefix_at(
                    text@,
                    pos as int,
                    self@[k].surface,
                )));
            }
        }
        i
    }

    fn analyze_from(&self, text: &Vec<char>, pos: usize) -> (r: Vec<Morpheme>)
        requires
            pos <= text@.len(),
        ensures
            morphemes_view(r@) == spec_analyze(self@, text@, pos as int),
        decreases text@.len() - pos,
    {
        if pos >= text.len() {
            let v: Vec<Morpheme> = Vec::new();
            assert(morphemes_view(v@) =~= Seq::<MorphemeV>::empty());
            return v;
        }
        let k = self.find_match(text, pos);
        proof {
            lemma_first_match(self@, text@, pos as int);
        }
        if k < self.words.len() && self.words[k].surface.len() > 0 && text.len()
            - self.words[k].surface.len() >= pos {
            let w = &self.words[k];
            assert(w@ == self@[k as int]);
            assert(is_prefix_at(text@, pos as int, w@.surface));
            let m0 = Morpheme {
                surface: clone_chars(&w.surface),
                reading: clone_chars(&w.pronunciation),
                accent: w.accent_type,
            };
            let ghost m0v = m0@;
            let mut rest = self.analyze_from(text, pos + w.surface.len());
            let ghost restv = rest@;
            rest.insert(0, m0);
            proof {
                let f = |m: Morpheme| m@;
                assert(rest@ =~= seq![m0] + restv);
                assert(rest@.map_values(f) =~= seq![m0v] + restv.map_values(f));
            }
            rest
        } else {
            let c = text[pos];
            let m0 = Morpheme {
                surface: vec![c],
                reading: vec![fallback_reading_exec(c)],
                accent: 0,
            };
            let ghost m0v = m0@;
            assert(m0v =~= MorphemeV {
                surface: seq![text@[pos as int]],
                reading: seq![fallback_reading(text@[pos as int])],
                accent: 0,
            });
            let mut rest = self.analyze_from(text, pos + 1);
            let ghost restv = rest@;
            rest.insert(0, m0);
            proof {
                let f = |m: Morpheme| m@;
                assert(rest@ =~= seq![m0] + restv);
                assert(rest@.map_values(f) =~= seq![m0v] + restv.map_values(f));
            }
            rest
        }
    }

    /// Analyze text deterministically against the attached snapshot:
    /// dictionary words are read as the snapshot says; unknown
    /// characters fall back to a default reading rather than failing.
    pub fn analyze(&self, text: &Vec<char>) -> (r: Vec<Morpheme>)
        ensures
            morphemes_view(r@) == spec_analyze(self@, text@, 0),
    {
        self.analyze_from(text, 0)
    }

    /// A deep copy of this analyzer and its snapshot.
    pub fn duplicate(&self) -> (r: TextAnalyzer)
        ensures
            r@ == self@,
    {
        let mut words: Vec<DictWord> = Vec::new();
        let mut i: usize = 0;
        while i < self.words.len()
            invariant
                0 <= i <= self.words@.len(),
                words@.map_values(|w: DictWord| w@) =~= self.words@.map_values(
                    |w: DictWord| w@,
                ).take(i as int),
            decreases self.words@.len() - i,
        {
            let ghost prev = words@;
            let w0 = self.words[i].duplicate();
            let ghost w0v = w0@;
            words.push(w0);
            proof {
                let f = |w: DictWord| w@;
                assert(words@ =~= prev.push(w0));
                assert(words@.map_values(f) =~= prev.map_values(f).push(w0v));
                assert(w0v == self.words@.map_values(f)[i as int]);
                assert(words@.map_values(f) =~= self.words@.map_values(f).take(i as int + 1));
            }
            i = i + 1;
        }
        proof {
            let f = |w: DictWord| w@;
            assert(self.words@.map_values(f).take(self.words@.len() as int) =~= self.words@
                .map_values(f));
        }
        TextAnalyzer { words }
    }
}

} // verus!
