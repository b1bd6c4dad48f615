//! The user dictionary: an insertion-ordered mapping from entry id to
//! word. Iteration order is insertion order, imports append, and the
//! persisted form round-trips keys, values and order exactly.
use vstd::prelude::*;
use vstd::arithmetic::div_mod::lemma_fundamental_div_mod;
use crate::error::VvError;
use crate::word::{DictWord, DictWordV, WordType, word_wf};
use crate::text::{check_all_kana, count_moras, char_from_u32};

verus! {

broadcast use vstd::utf8::char_is_scalar, vstd::utf8::char_u32_cast;

/// One dictionary entry: the id that identifies it and the word it maps to.
pub struct DictEntry {
    pub id: u128,
    pub word: DictWord,
}

/// The mathematical value of an entry.
#[verifier::ext_equal]
pub struct DictEntryV {
    pub id: u128,
    pub word: DictWordV,
}

impl View for DictEntry {
    type V = DictEntryV;

    open spec fn view(&self) -> DictEntryV {
        DictEntryV { id: self.id, word: self.word@ }
    }
}

/// Some entry of `s` carries `id`.
pub open spec fn has_id(s: Seq<DictEntryV>, id: u128) -> bool {
    exists|i: int| 0 <= i < s.len() && s[i].id == id
}

/// The index of the first entry carrying `id`, or `s.len()` if none does.
pub open spec fn find_id(s: Seq<DictEntryV>, id: u128) -> int
    decreases s.len(),
{
    if s.len() == 0 {
        0
    } else if s[0].id == id {
        0
    } else {
        1 + find_id(s.skip(1), id)
    }
}

/// `find_id` names the first index carrying `id`, or the length.
pub proof fn lemma_find_id(s: Seq<DictEntryV>, id: u128)
    ensures
        0 <= find_id(s, id) <= s.len(),
        find_id(s, id) < s.len() ==> s[find_id(s, id)].id == id,
        forall|j: int| 0 <= j < find_id(s, id) ==> s[j].id != id,
        (find_id(s, id) < s.len()) == has_id(s, id),
    decreases s.len(),
{
    if s.len() == 0 {
    } else if s[0].id == id {
    } else {
        lemma_find_id(s.skip(1), id);
        assert(forall|j: int| 1 <= j < s.len() ==> s[j] == s.skip(1)[j - 1]);
        if has_id(s, id) {
            let w = choose|i: int| 0 <= i < s.len() && s[i].id == id;
            assert(s.skip(1)[w - 1].id == id);
        }
    }
}

/// The dictionary invariant: ids are unique and every word is well formed.
pub open spec fn dict_wf(s: Seq<DictEntryV>) -> bool {
    &&& forall|i: int, j: int| 0 <= i < j < s.len() ==> s[i].id != s[j].id
    &&& forall|i: int| 0 <= i < s.len() ==> word_wf(#[trigger] s[i].word)
}

// ---------------------------------------------------------------------
// The persisted form: a flat stream of unsigned words. The byte-level
// packing of that stream into a file is the storage layer's concern;
// the stream itself fixes the entries, their fields and their order.
// ---------------------------------------------------------------------

pub open spec fn char_to_u64(c: char) -> u64 {
    (c as u32) as u64
}

/// A stream token that denotes a character.
pub open spec fn scalar_token(x: u64) -> bool {
    x <= u32::MAX && vstd::utf8::is_scalar(x as u32)
}

pub open spec fn char_of_token(x: u64) -> char {
    (x as u32) as char
}

pub open spec fn wt_code(t: WordType) -> u64 {
    match t {
        WordType::ProperNoun => 0,
        WordType::CommonNoun => 1,
        WordType::Verb => 2,
        WordType::Adjective => 3,
        WordType::Suffix => 4,
    }
}

pub open spec fn wt_of_code(x: u64) -> Option<WordType> {
    if x == 0 {
        Some(WordType::ProperNoun)
    } else if x == 1 {
        Some(WordType::CommonNoun)
    } else if x == 2 {
        Some(WordType::Verb)
    } else if x == 3 {
        Some(WordType::Adjective)
    } else if x == 4 {
        Some(WordType::Suffix)
    } else {
        None
    }
}

/// A length-prefixed character sequence.
pub open spec fn enc_chars(s: Seq<char>) -> Seq<u64> {
    seq![s.len() as u64] + s.map_values(|c: char| char_to_u64(c))
}

/// A word: its two strings, then accent type, word type and priority.
pub open spec fn enc_word(w: DictWordV) -> Seq<u64> {
    enc_chars(w.surface) + enc_chars(w.pronunciation) + seq![
        w.accent_type,
        wt_code(w.word_type),
        w.priority as u64,
    ]
}

/// An entry: the id split into two tokens, then the word.
pub open spec fn enc_entry(e: DictEntryV) -> Seq<u64> {
    seq![(e.id / 0x1_0000_0000_0000_0000) as u64, (e.id % 0x1_0000_0000_0000_0000) as u64]
        + enc_word(e.word)
}

pub open spec fn enc_entries(s: Seq<DictEntryV>) -> Seq<u64>
    decreases s.len(),
{
    if s.len() == 0 {
        Seq::empty()
    } else {
        enc_entries(s.drop_last()) + enc_entry(s.last())
    }
}

/// The whole dictionary: the entry count, then the entries in order.
pub open spec fn enc_dict(s: Seq<DictEntryV>) -> Seq<u64> {
    seq![s.len() as u64] + enc_entries(s)
}

/// Read `n` characters at `pos`; `None` on a token that is no character.
pub open spec fn dec_chars(t: Seq<u64>, pos: int, n: nat) -> Option<(Seq<char>, int)>
    decreases n,
{
    if n == 0 {
        Some((Seq::empty(), pos))
    } else if 0 <= pos < t.len() && scalar_token(t[pos]) {
        match dec_chars(t, pos + 1, (n - 1) as nat) {
            Some((s, e)) => Some((seq![char_of_token(t[pos])] + s, e)),
            None => None,
        }
    } else {
        None
    }
}

pub open spec fn dec_word(t: Seq<u64>, pos: int) -> Option<(DictWordV, int)> {
    if 0 <= pos < t.len() {
        match dec_chars(t, pos + 1, t[pos] as nat) {
            Some((surface, p2)) => if 0 <= p2 < t.len() {
                match dec_chars(t, p2 + 1, t[p2] as nat) {
                    Some((pronunciation, p3)) => if p3 + 3 <= t.len() {
                        match wt_of_code(t[p3 + 1]) {
                            Some(word_type) => if t[p3 + 2] <= u32::MAX {
                                Some(
                                    (
                                        DictWordV {
                                            surface,
                                            pronunciation,
                                            accent_type: t[p3],
                                            word_type,
                                            priority: t[p3 + 2] as u32,
                                        },
                                        p3 + 3,
                                    ),
                                )
                            } else {
                                None
                            },
                            None => None,
                        }
                    } else {
                        None
                    },
                    None => None,
                }
            } else {
                None
            },
            None => None,
        }
    } else {
        None
    }
}

pub open spec fn dec_entry(t: Seq<u64>, pos: int) -> Option<(DictEntryV, int)> {
    if 0 <= pos && pos + 2 <= t.len() {
        match dec_word(t, pos + 2) {
            Some((word, e)) => Some(
                (
                    DictEntryV {
                        id: (t[pos] * 0x1_0000_0000_0000_0000 + t[pos + 1]) as u128,
                        word,
                    },
                    e,
                ),
            ),
            None => None,
        }
    } else {
        None
    }
}

pub open spec fn dec_entries(t: Seq<u64>, pos: int, n: nat) -> Option<(Seq<DictEntryV>, int)>
    decreases n,
{
    if n == 0 {
        Some((Seq::empty(), pos))
    } else {
        match dec_entry(t, pos) {
            Some((e, p2)) => match dec_entries(t, p2, (n - 1) as nat) {
                Some((s, e2)) => Some((seq![e] + s, e2)),
                None => None,
            },
            None => None,
        }
    }
}

/// Decode a whole stream; `None` unless every token is consumed.
pub open spec fn dec_dict(t: Seq<u64>) -> Option<Seq<DictEntryV>> {
    if t.len() >= 1 {
        match dec_entries(t, 1, t[0] as nat) {
            Some((s, e)) => if e == t.len() {
                Some(s)
            } else {
                None
            },
            None => None,
        }
    } else {
        None
    }
}

/// Lengths small enough for the length-prefixed encoding.
pub open spec fn word_encodable(w: DictWordV) -> bool {
    w.surface.len() <= u64::MAX && w.pronunciation.len() <= u64::MAX
}

pub open spec fn entries_encodable(s: Seq<DictEntryV>) -> bool {
    s.len() <= u64::MAX && forall|i: int| 0 <= i < s.len() ==> word_encodable(#[trigger] s[i].word)
}

// ---------------------------------------------------------------------
// Round trip: decoding an encoded dictionary gives the dictionary back.
// ---------------------------------------------------------------------

proof fn lemma_enc_entries_first(s: Seq<DictEntryV>)
    requires
        s.len() > 0,
    ensures
        enc_entries(s) == enc_entry(s[0]) + enc_entries(s.skip(1)),
    decreases s.len(),
{
    if s.len() == 1 {
        assert(s.drop_last() =~= Seq::<DictEntryV>::empty());
        assert(s.skip(1) =~= Seq::<DictEntryV>::empty());
        assert(enc_entries(s) =~= enc_entry(s[0]) + enc_entries(s.skip(1)));
    } else {
        lemma_enc_entries_first(s.drop_last());
        assert(s.drop_last()[0] == s[0]);
        assert(s.drop_last().skip(1) =~= s.skip(1).drop_last());
        assert(s.skip(1).last() == s.last());
        assert(enc_entries(s.skip(1)) == enc_entries(s.skip(1).drop_last()) + enc_entry(
            s.skip(1).last(),
        ));
        assert(enc_entries(s) =~= enc_entry(s[0]) + enc_entries(s.skip(1)));
    }
}

proof fn lemma_dec_chars_of_enc(s: Seq<char>, t: Seq<u64>, pos: int)
    requires
        0 <= pos,
        pos + s.len() <= t.len(),
        forall|i: int| 0 <= i < s.len() ==> t[pos + i] == char_to_u64(#[trigger] s[i]),
    ensures
        dec_chars(t, pos, s.len() as nat) == Some((s, pos + s.len())),
    decreases s.len(),
{
    if s.len() == 0 {
        assert(s =~= Seq::<char>::empty());
    } else {
        let c = s[0];
        assert(t[pos + 0] == char_to_u64(s[0]));
        assert(t[pos] == (c as u32) as u64);
        vstd::utf8::char_is_scalar(c);
        assert(t[pos] as u32 == c as u32);
        assert(scalar_token(t[pos]));
        vstd::utf8::char_u32_cast(c, t[pos] as u32);
        assert(char_of_token(t[pos]) == c);
        assert forall|i: int|
            0 <= i < s.skip(1).len() implies t[pos + 1 + i] == char_to_u64(
            #[trigger] s.skip(1)[i],
        ) by {
            assert(s.skip(1)[i] == s[i + 1]);
            assert(t[pos + (i + 1)] == char_to_u64(s[i + 1]));
        }
        lemma_dec_chars_of_enc(s.skip(1), t, pos + 1);
        assert(seq![c] + s.skip(1) =~= s);
    }
}

proof fn lemma_dec_word_of_enc(w: DictWordV, t: Seq<u64>, pos: int)
    requires
        word_encodable(w),
        0 <= pos,
        pos + enc_word(w).len() <= t.len(),
        t.subrange(pos, pos + enc_word(w).len() as int) == enc_word(w),
    ensures
        dec_word(t, pos) == Some((w, pos + enc_word(w).len())),
{
    let ew = enc_word(w);
    let ns = w.surface.len() as int;
    let np = w.pronunciation.len() as int;
    assert(ew.len() == ns + np + 5);
    assert forall|k: int| 0 <= k < ew.len() implies t[pos + k] == #[trigger] ew[k] by {
        assert(t.subrange(pos, pos + ew.len() as int)[k] == ew[k]);
    }
    assert(ew[0] == w.surface.len() as u64);
    assert(t[pos + 0] == ew[0]);
    assert forall|i: int| 0 <= i < ns implies t[pos + 1 + i] == char_to_u64(
        #[trigger] w.surface[i],
    ) by {
        assert(ew[1 + i] == w.surface.map_values(|c: char| char_to_u64(c))[i]);
        assert(t[pos + (1 + i)] == ew[1 + i]);
    }
    lemma_dec_chars_of_enc(w.surface, t, pos + 1);
    let p2 = pos + 1 + ns;
    assert(ew[1 + ns] == w.pronunciation.len() as u64);
    assert(t[pos + (1 + ns)] == ew[1 + ns]);
    assert forall|i: int| 0 <= i < np implies t[p2 + 1 + i] == char_to_u64(
        #[trigger] w.pronunciation[i],
    ) by {
        assert(ew[ns + 2 + i] == w.pronunciation.map_values(|c: char| char_to_u64(c))[i]);
        assert(t[pos + (ns + 2 + i)] == ew[ns + 2 + i]);
    }
    lemma_dec_chars_of_enc(w.pronunciation, t, p2 + 1);
    let p3 = p2 + 1 + np;
    assert(ew[ns + np + 2] == w.accent_type);
    assert(t[pos + (ns + np + 2)] == ew[ns + np + 2]);
    assert(ew[ns + np + 3] == wt_code(w.word_type));
    assert(t[pos + (ns + np + 3)] == ew[ns + np + 3]);
    assert(ew[ns + np + 4] == w.priority as u64);
    assert(t[pos + (ns + np + 4)] == ew[ns + np + 4]);
    assert(t[p3] == w.accent_type);
    assert(t[p3 + 1] == wt_code(w.word_type));
    assert(t[p3 + 2] == w.priority as u64);
    assert(wt_of_code(wt_code(w.word_type)) == Some(w.word_type));
}

proof fn lemma_dec_entry_of_enc(e: DictEntryV, t: Seq<u64>, pos: int)
    requires
        word_encodable(e.word),
        0 <= pos,
        pos + enc_entry(e).len() <= t.len(),
        t.subrange(pos, pos + enc_entry(e).len() as int) == enc_entry(e),
    ensures
        dec_entry(t, pos) == Some((e, pos + enc_entry(e).len())),
{
    let ee = enc_entry(e);
    let ew = enc_word(e.word);
    assert(ee.len() == ew.len() + 2);
    assert forall|k: int| 0 <= k < ee.len() implies t[pos + k] == #[trigger] ee[k] by {
        assert(t.subrange(pos, pos + ee.len() as int)[k] == ee[k]);
    }
    let d = 0x1_0000_0000_0000_0000;
    assert(ee[0] == (e.id / d) as u64);
    assert(t[pos + 0] == ee[0]);
    assert(ee[1] == (e.id % d) as u64);
    assert(t[pos + 1] == ee[1]);
    assert forall|i: int|
        0 <= i < ew.len() implies #[trigger] t.subrange(pos + 2, pos + 2 + ew.len() as int)[i]
        == ew[i] by {
        assert(ee[2 + i] == ew[i]);
        assert(t[pos + (2 + i)] == ee[2 + i]);
    }
    assert(t.subrange(pos + 2, pos + 2 + ew.len() as int) =~= ew);
    lemma_dec_word_of_enc(e.word, t, pos + 2);
    lemma_fundamental_div_mod(e.id as int, d as int);
    assert((t[pos] * d + t[pos + 1]) as u128 == e.id);
}

proof fn lemma_dec_entries_of_enc(s: Seq<DictEntryV>, t: Seq<u64>, pos: int)
    requires
        entries_encodable(s),
        0 <= pos,
        pos + enc_entries(s).len() <= t.len(),
        t.subrange(pos, pos + enc_entries(s).len() as int) == enc_entries(s),
    ensures
        dec_entries(t, pos, s.len() as nat) == Some((s, pos + enc_entries(s).len())),
    decreases s.len(),
{
    if s.len() == 0 {
        assert(s =~= Seq::<DictEntryV>::empty());
    } else {
        lemma_enc_entries_first(s);
        let e0 = s[0];
        let ee = enc_entry(e0);
        let rest = enc_entries(s.skip(1));
        let es = enc_entries(s);
        assert(es.len() == ee.len() + rest.len());
        assert forall|k: int| 0 <= k < es.len() implies t[pos + k] == #[trigger] es[k] by {
            assert(t.subrange(pos, pos + es.len() as int)[k] == es[k]);
        }
        assert forall|i: int|
            0 <= i < ee.len() implies #[trigger] t.subrange(pos, pos + ee.len() as int)[i]
            == ee[i] by {
            assert(es[i] == ee[i]);
            assert(t[pos + i] == es[i]);
        }
        assert(t.subrange(pos, pos + ee.len() as int) =~= ee);
        assert(word_encodable(s[0].word));
        lemma_dec_entry_of_enc(e0, t, pos);
        let p2 = pos + ee.len() as int;
        assert forall|i: int|
            0 <= i < rest.len() implies #[trigger] t.subrange(p2, p2 + rest.len() as int)[i]
            == rest[i] by {
            assert(es[ee.len() + i] == rest[i]);
            assert(t[pos + (ee.len() + i)] == es[ee.len() + i]);
        }
        assert(t.subrange(p2, p2 + rest.len() as int) =~= rest);
        assert(entries_encodable(s.skip(1))) by {
            assert(forall|i: int|
                0 <= i < s.skip(1).len() ==> #[trigger] s.skip(1)[i] == s[i + 1]);
        }
        lemma_dec_entries_of_enc(s.skip(1), t, p2);
        assert(seq![e0] + s.skip(1) =~= s);
    }
}

/// The round-trip law of persistence: decoding an encoded dictionary
/// yields the same entries — same ids, same words, same order.
pub proof fn lemma_dict_round_trip(s: Seq<DictEntryV>)
    requires
        entries_encodable(s),
    ensures
        dec_dict(enc_dict(s)) == Some(s),
{
    let t = enc_dict(s);
    assert(t[0] == s.len() as u64);
    assert(t.subrange(1, 1 + enc_entries(s).len() as int) =~= enc_entries(s)) by {
        assert(forall|i: int| 0 <= i < enc_entries(s).len() ==> t[1 + i] == enc_entries(s)[i]);
    }
    lemma_dec_entries_of_enc(s, t, 1);
}

// ---------------------------------------------------------------------
// The dictionary itself.
// ---------------------------------------------------------------------

/// Relies on `uuid::Uuid::new_v4` (as `as_u128`): a randomly drawn
/// identifier; nothing is assumed about its value. If the operating
/// system's randomness source fails, `new_v4` aborts the process — an
/// environmental failure of the same kind as running out of memory.
#[verifier::external_body]
fn fresh_uuid() -> u128 {
    uuid::Uuid::new_v4().as_u128()
}

/// An insertion-ordered mapping from entry id to word.
pub struct UserDict {
    pub entries: Vec<DictEntry>,
}

impl View for UserDict {
    type V = Seq<DictEntryV>;

    open spec fn view(&self) -> Seq<DictEntryV> {
        self.entries@.map_values(|e: DictEntry| e@)
    }
}

impl UserDict {
    /// An empty dictionary.
    pub fn new() -> (r: UserDict)
        ensures
            r@ =~= Seq::<DictEntryV>::empty(),
            dict_wf(r@),
    {
        UserDict { entries: Vec::new() }
    }

    pub fn len(&self) -> (r: usize)
        ensures
            r == self@.len(),
    {
        self.entries.len()
    }

    /// The entries, in insertion order.
    pub fn words(&self) -> (r: &Vec<DictEntry>)
        ensures
            r@.map_values(|e: DictEntry| e@) == self@,
    {
        &self.entries
    }

    /// The index of the entry carrying `id`, or the length if none does.
    fn find_index(&self, id: u128) -> (r: usize)
        ensures
            r == find_id(self@, id),
    {
        proof {
            lemma_find_id(self@, id);
        }
        let mut i: usize = 0;
        while i < self.entries.len()
            invariant
                0 <= i <= self@.len(),
                self@.len() == self.entries@.len(),
                forall|j: int| 0 <= j < i ==> self@[j].id != id,
                0 <= find_id(self@, id) <= self@.len(),
                find_id(self@, id) < self@.len() ==> self@[find_id(self@, id)].id == id,
                forall|j: int| 0 <= j < find_id(self@, id) ==> self@[j].id != id,
                (find_id(self@, id) < self@.len()) == has_id(self@, id),
            decreases self@.len() - i,
        {
            if self.entries[i].id == id {
                assert(has_id(self@, id)) by {
                    assert(self@[i as int].id == id);
                }
                assert(i as int == find_id(self@, id)) by {
                    if find_id(self@, id) < i {
                        assert(self@[find_id(self@, id)].id != id);
                    }
                }
                return i;
            }
            i = i + 1;
        }
        assert(!has_id(self@, id));
        i
    }

    /// Is an entry with this id present?
    pub fn contains_word(&self, id: u128) -> (r: bool)
        ensures
            r == has_id(self@, id),
    {
        proof {
            lemma_find_id(self@, id);
        }
        self.find_index(id) < self.entries.len()
    }

    /// Add a word under a freshly drawn id; the entry is appended, so
    /// iteration order stays insertion order. In the (vanishingly rare)
    /// case that the drawn id is already present, nothing changes and
    /// the collision is reported.
    pub fn add_word(&mut self, word: DictWord) -> (r: Result<u128, VvError>)
        requires
            dict_wf(old(self)@),
            word_wf(word@),
        ensures
            match r {
                Ok(id) => {
                    &&& !has_id(old(self)@, id)
                    &&& final(self)@ == old(self)@.push(DictEntryV { id, word: word@ })
                    &&& dict_wf(final(self)@)
                },
                Err(e) => {
                    &&& e matches VvError::IdCollision(id) && has_id(old(self)@, id)
                    &&& final(self)@ == old(self)@
                },
            },
    {
        let id = fresh_uuid();
        match self.add_word_with_id(id, word) {
            Ok(_) => Ok(id),
            Err(e) => Err(e),
        }
    }

    /// Add a word under a caller-supplied id, failing on a collision.
    pub fn add_word_with_id(&mut self, id: u128, word: DictWord) -> (r: Result<(), VvError>)
        requires
            dict_wf(old(self)@),
            word_wf(word@),
        ensures
            match r {
                Ok(()) => {
                    &&& !has_id(old(self)@, id)
                    &&& final(self)@ == old(self)@.push(DictEntryV { id, word: word@ })
                    &&& dict_wf(final(self)@)
                },
                Err(e) => {
                    &&& e matches VvError::IdCollision(i) && i == id
                    &&& has_id(old(self)@, id)
                    &&& final(self)@ == old(self)@
                },
            },
    {
        if self.contains_word(id) {
            return Err(VvError::IdCollision(id));
        }
        let ghost prev = self@;
        self.entries.push(DictEntry { id, word });
        assert(self@ =~= prev.push(DictEntryV { id, word: word@ }));
        assert(dict_wf(self@)) by {
            assert(forall|i: int| 0 <= i < prev.len() ==> self@[i] == prev[i]);
        }
        Ok(())
    }

    /// Replace the word under `id`, keeping its place in the order.
    pub fn update_word(&mut self, id: u128, word: DictWord) -> (r: Result<(), VvError>)
        requires
            dict_wf(old(self)@),
            word_wf(word@),
        ensures
            match r {
                Ok(()) => {
                    &&& has_id(old(self)@, id)
                    &&& final(self)@ == old(self)@.update(
                        find_id(old(self)@, id),
                        DictEntryV { id, word: word@ },
                    )
                    &&& dict_wf(final(self)@)
                },
                Err(e) => {
                    &&& e matches VvError::WordNotFound(i) && i == id
                    &&& !has_id(old(self)@, id)
                    &&& final(self)@ == old(self)@
                },
            },
    {
        proof {
            lemma_find_id(self@, id);
        }
        let i = self.find_index(id);
        if i == self.entries.len() {
            return Err(VvError::WordNotFound(id));
        }
        let ghost prev = self@;
        self.entries.remove(i);
        self.entries.insert(i, DictEntry { id, word });
        assert(self@ =~= prev.update(i as int, DictEntryV { id, word: word@ }));
        assert(dict_wf(self@)) by {
            assert(forall|j: int| 0 <= j < prev.len() && j != i ==> self@[j] == prev[j]);
        }
        Ok(())
    }

    /// Remove the entry under `id` and hand its word back; a missing id
    /// is reported and the dictionary is left exactly as it was.
    pub fn remove_word(&mut self, id: u128) -> (r: Result<DictWord, VvError>)
        requires
            dict_wf(old(self)@),
        ensures
            match r {
                Ok(w) => {
                    &&& has_id(old(self)@, id)
                    &&& w@ == old(self)@[find_id(old(self)@, id)].word
                    &&& final(self)@ == old(self)@.remove(find_id(old(self)@, id))
                    &&& dict_wf(final(self)@)
                },
                Err(e) => {
                    &&& e matches VvError::WordNotFound(i) && i == id
                    &&& !has_id(old(self)@, id)
                    &&& final(self)@ == old(self)@
                },
            },
    {
        proof {
            lemma_find_id(self@, id);
        }
        let i = self.find_index(id);
        if i == self.entries.len() {
            return Err(VvError::WordNotFound(id));
        }
        let ghost prev = self@;
        let e = self.entries.remove(i);
        assert(self@ =~= prev.remove(i as int));
        assert(dict_wf(self@)) by {
            assert(forall|j: int|
                0 <= j < self@.len() ==> self@[j] == (if j < i {
                    prev[j]
                } else {
                    prev[j + 1]
                }));
        }
        Ok(e.word)
    }

    /// Merge another dictionary into this one: entries whose id is
    /// already present are skipped (the present entry wins); the rest
    /// are appended after the existing entries, in the source's order.
    pub fn import(&mut self, other: &UserDict)
        requires
            dict_wf(old(self)@),
            dict_wf(other@),
        ensures
            final(self)@ == old(self)@ + other@.filter(
                |e: DictEntryV| !has_id(old(self)@, e.id),
            ),
            dict_wf(final(self)@),
    {
        let ghost base = self@;
        let ghost pred = |e: DictEntryV| !has_id(base, e.id);
        let mut i: usize = 0;
        proof {
            assert(other@.take(0) =~= Seq::<DictEntryV>::empty());
            assert(Seq::<DictEntryV>::empty().filter(pred) =~= Seq::<DictEntryV>::empty()) by {
                reveal(Seq::filter);
            }
            assert(self@ =~= base + other@.take(0).filter(pred));
        }
        while i < other.entries.len()
            invariant
                0 <= i <= other@.len(),
                other@.len() == other.entries@.len(),
                dict_wf(base),
                dict_wf(other@),
                dict_wf(self@),
                pred == (|e: DictEntryV| !has_id(base, e.id)),
                self@ == base + other@.take(i as int).filter(pred),
                base.len() <= self@.len(),
                forall|k: int|
                    base.len() <= k < self@.len() ==> exists|j: int|
                        0 <= j < i && other@[j] == #[trigger] self@[k],
            decreases other@.len() - i,
        {
            let ghost prev = self@;
            let e = &other.entries[i];
            let ghost ev = e@;
            assert(ev == other@[i as int]);
            let present = self.contains_word(e.id);
            proof {
                // Present now means present at the start: the appended
                // entries come from earlier source positions, whose ids
                // differ from this one by the source's uniqueness.
                assert(has_id(prev, ev.id) == has_id(base, ev.id)) by {
                    if has_id(prev, ev.id) {
                        let w = choose|w: int| 0 <= w < prev.len() && prev[w].id == ev.id;
                        if w >= base.len() {
                            let j = choose|j: int| 0 <= j < i && other@[j] == prev[w];
                            assert(other@[j].id == other@[i as int].id);
                            assert(false);
                        } else {
                            assert(base[w].id == ev.id);
                        }
                    }
                    if has_id(base, ev.id) {
                        let w = choose|w: int| 0 <= w < base.len() && base[w].id == ev.id;
                        assert(prev[w].id == ev.id);
                    }
                }
            }
            if !present {
                let copy = DictEntry { id: e.id, word: e.word.duplicate() };
                assert(copy@ == ev);
                self.entries.push(copy);
                assert(self@ =~= prev.push(ev));
                assert(dict_wf(self@)) by {
                    assert(forall|j: int| 0 <= j < prev.len() ==> self@[j] == prev[j]);
                }
                assert forall|k: int|
                    base.len() <= k < self@.len() implies exists|j: int|
                        0 <= j < i + 1 && other@[j] == #[trigger] self@[k] by {
                    if k < prev.len() {
                        let j = choose|j: int| 0 <= j < i && other@[j] == prev[k];
                        assert(other@[j] == self@[k]);
                    } else {
                        assert(other@[i as int] == self@[k]);
                    }
                }
            }
            proof {
                let t1 = other@.take(i as int);
                let t2 = other@.take(i as int + 1);
                assert(t2.drop_last() =~= t1);
                assert(t2.last() == ev);
                assert(t2.filter(pred) == t1.filter(pred) + (if pred(ev) {
                    seq![ev]
                } else {
                    Seq::<DictEntryV>::empty()
                })) by {
                    reveal(Seq::filter);
                }
                if pred(ev) {
                    assert(self@ =~= base + t2.filter(pred));
                } else {
                    assert(self@ =~= base + t2.filter(pred));
                }
            }
            i = i + 1;
        }
        proof {
            assert(other@.take(other@.len() as int) =~= other@);
        }
    }

    /// Encode the dictionary into its persisted stream.
    pub fn save(&self) -> (r: Vec<u64>)
        ensures
            r@ == enc_dict(self@),
    {
        let mut out: Vec<u64> = Vec::new();
        out.push(self.entries.len() as u64);
        assert(out@ =~= seq![self@.len() as u64]);
        let mut i: usize = 0;
        proof {
            assert(self@.take(0) =~= Seq::<DictEntryV>::empty());
        }
        while i < self.entries.len()
            invariant
                0 <= i <= self@.len(),
                self@.len() == self.entries@.len(),
                forall|j: int| 0 <= j < self@.len() ==> self@[j] == self.entries@[j]@,
                out@ == seq![self@.len() as u64] + enc_entries(self@.take(i as int)),
            decreases self@.len() - i,
        {
            let ghost prevout = out@;
            let e = &self.entries[i];
            let d: u128 = 0x1_0000_0000_0000_0000;
            assert(e.id / d < d) by {
                lemma_fundamental_div_mod(e.id as int, d as int);
            }
            out.push((e.id / d) as u64);
            out.push((e.id % d) as u64);
            push_word(&mut out, &e.word);
            proof {
                assert(out@ =~= prevout + enc_entry(e@));
                let t2 = self@.take(i as int + 1);
                assert(t2.drop_last() =~= self@.take(i as int));
                assert(t2.last() == self@[i as int]);
                assert(e@ == self@[i as int]);
                assert(out@ =~= seq![self@.len() as u64] + enc_entries(t2));
            }
            i = i + 1;
        }
        proof {
            assert(self@.take(self@.len() as int) =~= self@);
        }
        out
    }

    /// Decode a persisted stream and replace the dictionary's contents
    /// with it, atomically: a malformed stream, an ill-formed word or a
    /// duplicated id leaves the dictionary exactly as it was.
    pub fn load(&mut self, data: &Vec<u64>) -> (r: Result<(), VvError>)
        ensures
            match dec_dict(data@) {
                Some(s) => if dict_wf(s) {
                    r is Ok && final(self)@ == s
                } else {
                    r matches Err(VvError::InvalidData) && final(self)@ == old(self)@
                },
                None => r matches Err(VvError::InvalidData) && final(self)@ == old(self)@,
            },
    {
        let decoded = match read_dict(data) {
            Some(v) => v,
            None => {
                return Err(VvError::InvalidData);
            },
        };
        let ghost s = dec_dict(data@).unwrap();
        // Re-check the dictionary invariant on what was read.
        let mut i: usize = 0;
        while i < decoded.len()
            invariant
                0 <= i <= decoded@.len(),
                dec_dict(data@) == Some(s),
                decoded@.map_values(|e: DictEntry| e@) == s,
                forall|j: int| 0 <= j < i ==> word_wf(#[trigger] s[j].word),
                forall|j: int, k: int| 0 <= j < k <= i - 1 ==> s[j].id != s[k].id,
            decreases decoded@.len() - i,
        {
            let e = &decoded[i];
            assert(decoded@.map_values(|x: DictEntry| x@)[i as int] == e@);
            assert(e@ == s[i as int]);
            let w = &e.word;
            if w.surface.len() == 0 || !check_all_kana(&w.pronunciation) {
                assert(!word_wf(s[i as int].word));
                assert(!dict_wf(s));
                return Err(VvError::InvalidData);
            }
            let bound = count_moras(&w.pronunciation);
            if w.accent_type > bound as u64 {
                assert(!word_wf(s[i as int].word));
                assert(!dict_wf(s));
                return Err(VvError::InvalidData);
            }
            assert(word_wf(s[i as int].word));
            let mut j: usize = 0;
            while j < i
                invariant
                    0 <= j <= i < decoded@.len(),
                    dec_dict(data@) == Some(s),
                    decoded@.map_values(|e: DictEntry| e@) == s,
                    forall|k: int| 0 <= k < j ==> s[k].id != s[i as int].id,
                decreases i - j,
            {
                if decoded[j].id == decoded[i].id {
                    assert(decoded@.map_values(|x: DictEntry| x@)[j as int] == decoded@[j as int]@);
                    assert(decoded@.map_values(|x: DictEntry| x@)[i as int] == decoded@[i as int]@);
                    assert(s[j as int].id == s[i as int].id);
                    assert(!dict_wf(s));
                    return Err(VvError::InvalidData);
                }
                assert(s[j as int].id != s[i as int].id);
                j = j + 1;
            }
            i = i + 1;
        }
        assert(s.len() == decoded@.len());
        assert(dict_wf(s));
        self.entries = decoded;
        Ok(())
    }
}

/// Append the encoding of one word to the stream.
fn push_word(out: &mut Vec<u64>, w: &DictWord)
    ensures
        final(out)@ == old(out)@ + enc_word(w@),
{
    out.push(w.surface.len() as u64);
    push_chars(out, &w.surface);
    out.push(w.pronunciation.len() as u64);
    push_chars(out, &w.pronunciation);
    out.push(w.accent_type);
    let code: u64 = match w.word_type {
        WordType::ProperNoun => 0,
        WordType::CommonNoun => 1,
        WordType::Verb => 2,
        WordType::Adjective => 3,
        WordType::Suffix => 4,
    };
    assert(code == wt_code(w@.word_type));
    out.push(code);
    out.push(w.priority as u64);
    assert(final(out)@ =~= old(out)@ + enc_word(w@));
}

fn push_chars(out: &mut Vec<u64>, v: &Vec<char>)
    ensures
        final(out)@ == old(out)@ + v@.map_values(|c: char| char_to_u64(c)),
{
    let mut i: usize = 0;
    proof {
        assert(out@ =~= old(out)@ + v@.take(0).map_values(|c: char| char_to_u64(c)));
    }
    while i < v.len()
        invariant
            0 <= i <= v@.len(),
            out@ == old(out)@ + v@.take(i as int).map_values(|c: char| char_to_u64(c)),
        decreases v@.len() - i,
    {
        out.push(v[i] as u32 as u64);
        assert(out@ =~= old(out)@ + v@.take(i as int + 1).map_values(|c: char| char_to_u64(c)));
        i = i + 1;
    }
    assert(v@.take(v@.len() as int) =~= v@);
}

/// Read `n` characters at `pos`, mirroring [`dec_chars`].
pub(crate) fn read_chars(t: &Vec<u64>, pos: usize, n: u64) -> (r: Option<(Vec<char>, usize)>)
    requires
        pos <= t@.len(),
    ensures
        match dec_chars(t@, pos as int, n as nat) {
            Some((s, e)) => r matches Some((v, p)) && v@ == s && p == e && p <= t@.len(),
            None => r is None,
        },
    decreases n,
{
    if n == 0 {
        return Some((Vec::new(), pos));
    }
    if pos >= t.len() {
        return None;
    }
    let x = t[pos];
    if x > u32::MAX as u64 {
        return None;
    }
    let c = match char_from_u32(x as u32) {
        Some(c) => c,
        None => {
            assert(!scalar_token(t@[pos as int]));
            return None;
        },
    };
    assert(scalar_token(t@[pos as int]));
    proof {
        vstd::utf8::char_u32_cast(c, x as u32);
    }
    assert(c == char_of_token(t@[pos as int]));
    match read_chars(t, pos + 1, n - 1) {
        Some((mut v, p)) => {
            let ghost rest = v@;
            v.insert(0, c);
            assert(v@ =~= seq![c] + rest);
            Some((v, p))
        },
        None => None,
    }
}

/// Read one word at `pos`, mirroring [`dec_word`].
fn read_word(t: &Vec<u64>, pos: usize) -> (r: Option<(DictWord, usize)>)
    requires
        pos <= t@.len(),
    ensures
        match dec_word(t@, pos as int) {
            Some((w, e)) => r matches Some((v, p)) && v@ == w && p == e && p <= t@.len(),
            None => r is None,
        },
{
    if pos >= t.len() {
        return None;
    }
    let (surface, p2) = match read_chars(t, pos + 1, t[pos]) {
        Some(v) => v,
        None => {
            return None;
        },
    };
    if p2 >= t.len() {
        return None;
    }
    let (pronunciation, p3) = match read_chars(t, p2 + 1, t[p2]) {
        Some(v) => v,
        None => {
            return None;
        },
    };
    if t.len() - p3 < 3 {
        return None;
    }
    let accent_type = t[p3];
    let word_type = match wt_decode(t[p3 + 1]) {
        Some(v) => v,
        None => {
            return None;
        },
    };
    if t[p3 + 2] > u32::MAX as u64 {
        return None;
    }
    let priority = t[p3 + 2] as u32;
    Some((DictWord { surface, pronunciation, accent_type, word_type, priority }, p3 + 3))
}

fn wt_decode(x: u64) -> (r: Option<WordType>)
    ensures
        r == wt_of_code(x),
{
    if x == 0 {
        Some(WordType::ProperNoun)
    } else if x == 1 {
        Some(WordType::CommonNoun)
    } else if x == 2 {
        Some(WordType::Verb)
    } else if x == 3 {
        Some(WordType::Adjective)
    } else if x == 4 {
        Some(WordType::Suffix)
    } else {
        None
    }
}

/// Read `n` entries at `pos`, mirroring [`dec_entries`].
fn read_entries(t: &Vec<u64>, pos: usize, n: u64) -> (r: Option<(Vec<DictEntry>, usize)>)
    requires
        pos <= t@.len(),
    ensures
        match dec_entries(t@, pos as int, n as nat) {
            Some((s, e)) => r matches Some((v, p)) && v@.map_values(|x: DictEntry| x@) == s && p
                == e && p <= t@.len(),
            None => r is None,
        },
    decreases n,
{
    if n == 0 {
        let v: Vec<DictEntry> = Vec::new();
        assert(v@.map_values(|x: DictEntry| x@) =~= Seq::<DictEntryV>::empty());
        return Some((v, pos));
    }
    if t.len() - pos < 2 {
        return None;
    }
    let hi = t[pos];
    let lo = t[pos + 1];
    let id: u128 = (hi as u128) * 0x1_0000_0000_0000_0000u128 + (lo as u128);
    let (word, p2) = match read_word(t, pos + 2) {
        Some(v) => v,
        None => {
            return None;
        },
    };
    match read_entries(t, p2, n - 1) {
        Some((mut v, p)) => {
            let ghost rest = v@;
            v.insert(0, DictEntry { id, word });
            proof {
                let f = |x: DictEntry| x@;
                assert(v@ =~= seq![DictEntry { id, word }] + rest);
                assert(v@.map_values(f) =~= seq![DictEntryV { id, word: word@ }] + rest.map_values(
                    f,
                ));
            }
            Some((v, p))
        },
        None => None,
    }
}

/// Read a whole stream, mirroring [`dec_dict`].
fn read_dict(t: &Vec<u64>) -> (r: Option<Vec<DictEntry>>)
    ensures
        match dec_dict(t@) {
            Some(s) => r matches Some(v) && v@.map_values(|x: DictEntry| x@) == s,
            None => r is None,
        },
{
    if t.len() < 1 {
        return None;
    }
    match read_entries(t, 1, t[0]) {
        Some((v, p)) => {
            if p == t.len() {
                Some(v)
            } else {
                None
            }
        },
        None => None,
    }
}

} // verus!
