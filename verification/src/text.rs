//! Character-level utilities shared by the dictionary, the notation parser
//! and the text analyzer: the katakana alphabet, mora counting, and
//! conversions between `String` and `Vec<char>`.
use vstd::prelude::*;

verus! {

/// The katakana letters, `ァ` (0x30A1) through `ヺ` (0x30FA), plus the
/// long-vowel mark `ー` (0x30FC). This is the phonetic alphabet that
/// pronunciations and notation are written in.
pub open spec fn is_kana(c: char) -> bool {
    (0x30A1 <= c as u32 && c as u32 <= 0x30FA) || c as u32 == 0x30FC
}

/// The small katakana (ァィゥェォ, ッ excluded, ャュョ, ヮ): a small letter
/// joins the preceding letter into a single mora instead of starting one.
pub open spec fn is_small_kana(c: char) -> bool {
    c as u32 == 0x30A1 || c as u32 == 0x30A3 || c as u32 == 0x30A5 || c as u32 == 0x30A7
        || c as u32 == 0x30A9 || c as u32 == 0x30E3 || c as u32 == 0x30E5 || c as u32 == 0x30E7
        || c as u32 == 0x30EE
}

pub fn kana_char(c: char) -> (r: bool)
    ensures
        r == is_kana(c),
{
    let u = c as u32;
    (0x30A1 <= u && u <= 0x30FA) || u == 0x30FC
}

pub fn small_kana_char(c: char) -> (r: bool)
    ensures
        r == is_small_kana(c),
{
    let u = c as u32;
    u == 0x30A1 || u == 0x30A3 || u == 0x30A5 || u == 0x30A7 || u == 0x30A9 || u == 0x30E3
        || u == 0x30E5 || u == 0x30E7 || u == 0x30EE
}

/// Every character of `s` is a katakana letter.
pub open spec fn all_kana(s: Seq<char>) -> bool {
    forall|i: int| 0 <= i < s.len() ==> is_kana(#[trigger] s[i])
}

pub fn check_all_kana(s: &Vec<char>) -> (r: bool)
    ensures
        r == all_kana(s@),
{
    let mut i: usize = 0;
    while i < s.len()
        invariant
            0 <= i <= s@.len(),
            forall|j: int| 0 <= j < i ==> is_kana(#[trigger] s@[j]),
        decreases s@.len() - i,
    {
        if !kana_char(s[i]) {
            return false;
        }
        i = i + 1;
    }
    true
}

/// The number of moras in a kana string: a letter followed by a small
/// letter forms one mora with it; every other letter is one mora on its
/// own (a leading small letter therefore counts as its own mora).
pub open spec fn mora_count(s: Seq<char>) -> nat
    decreases s.len(),
{
    if s.len() == 0 {
        0
    } else if s.len() >= 2 && !is_small_kana(s[0]) && is_small_kana(s[1]) {
        1 + mora_count(s.skip(2))
    } else {
        1 + mora_count(s.skip(1))
    }
}

pub fn count_moras(s: &Vec<char>) -> (r: usize)
    ensures
        r == mora_count(s@),
{
    let mut pos: usize = 0;
    let mut count: usize = 0;
    assert(s@.skip(0) =~= s@);
    while pos < s.len()
        invariant
            0 <= pos <= s@.len(),
            count <= pos,
            count + mora_count(s@.skip(pos as int)) == mora_count(s@),
        decreases s@.len() - pos,
    {
        assert(s@.skip(pos as int)[0] == s@[pos as int]);
        if pos + 1 < s.len() && !small_kana_char(s[pos]) && small_kana_char(s[pos + 1]) {
            assert(s@.skip(pos as int).len() >= 2);
            assert(s@.skip(pos as int)[1] == s@[pos as int + 1]);
            assert(s@.skip(pos as int).skip(2) =~= s@.skip(pos as int + 2));
            pos = pos + 2;
        } else {
            assert(s@.skip(pos as int).skip(1) =~= s@.skip(pos as int + 1));
            pos = pos + 1;
        }
        count = count + 1;
    }
    assert(s@.skip(pos as int) =~= Seq::<char>::empty());
    count
}

/// Collect the characters of a string slice into a vector.
pub fn string_to_chars(s: &str) -> (r: Vec<char>)
    ensures
        r@ == s@,
{
    let n = s.unicode_len();
    let mut out: Vec<char> = Vec::new();
    let mut i: usize = 0;
    while i < n
        invariant
            0 <= i <= n,
            n == s@.len(),
            out@ =~= s@.take(i as int),
        decreases n - i,
    {
        out.push(s.get_char(i));
        assert(out@ =~= s@.take(i as int + 1));
        i = i + 1;
    }
    assert(out@ =~= s@);
    out
}

/// Relies on `String`'s `FromIterator` impl (via `Iterator::collect`):
/// the collected string holds exactly the characters of the vector, in order.
#[verifier::external_body]
pub fn chars_to_string(v: &Vec<char>) -> (r: String)
    ensures
        r@ == v@,
{
    v.iter().collect()
}

/// Relies on `core::char::from_u32`: returns `Some` exactly for Unicode
/// scalar values, and the returned character casts back to the argument.
#[verifier::external_body]
pub fn char_from_u32(u: u32) -> (r: Option<char>)
    ensures
        r is Some <==> vstd::utf8::is_scalar(u),
        r matches Some(c) ==> c as u32 == u,
{
    char::from_u32(u)
}

/// Copy a character vector.
pub fn clone_chars(v: &Vec<char>) -> (r: Vec<char>)
    ensures
        r@ == v@,
{
    let mut out: Vec<char> = Vec::new();
    let mut i: usize = 0;
    while i < v.len()
        invariant
            0 <= i <= v@.len(),
            out@ =~= v@.take(i as int),
        decreases v@.len() - i,
    {
        out.push(v[i]);
        assert(out@ =~= v@.take(i as int + 1));
        i = i + 1;
    }
    assert(out@ =~= v@);
    out
}

/// Compare two character vectors for equality of their contents.
pub fn chars_eq(a: &Vec<char>, b: &Vec<char>) -> (r: bool)
    ensures
        r == (a@ == b@),
{
    if a.len() != b.len() {
        assert(a@ != b@) by {
            assert(a@.len() != b@.len());
        }
        return false;
    }
    let mut i: usize = 0;
    while i < a.len()
        invariant
            0 <= i <= a@.len(),
            a@.len() == b@.len(),
            forall|j: int| 0 <= j < i ==> a@[j] == b@[j],
        decreases a@.len() - i,
    {
        if a[i] != b[i] {
            return false;
        }
        i = i + 1;
    }
    assert(a@ =~= b@);
    true
}

/// Does `pat` occur in `text` starting at `pos`?
pub open spec fn is_prefix_at(text: Seq<char>, pos: int, pat: Seq<char>) -> bool {
    &&& 0 <= pos
    &&& pos + pat.len() <= text.len()
    &&& text.subrange(pos, pos + pat.len() as int) == pat
}

pub fn prefix_at(text: &Vec<char>, pos: usize, pat: &Vec<char>) -> (r: bool)
    requires
        pos <= text@.len(),
    ensures
        r == is_prefix_at(text@, pos as int, pat@),
{
    if text.len() - pos < pat.len() {
        return false;
    }
    let n = text.len();
    let mut i: usize = 0;
    while i < pat.len()
        invariant
            0 <= i <= pat@.len(),
            pos + pat@.len() <= text@.len(),
            n == text@.len(),
            forall|j: int| 0 <= j < i ==> text@[pos + j] == pat@[j],
        decreases pat@.len() - i,
    {
        if text[pos + i] != pat[i] {
            assert(text@.subrange(pos as int, pos + pat@.len() as int)[i as int] != pat@[i as int]);
            return false;
        }
        i = i + 1;
    }
    assert(text@.subrange(pos as int, pos + pat@.len() as int) =~= pat@);
    true
}

} // verus!
