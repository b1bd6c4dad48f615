//! The phonetic notation: accent phrases written directly in kana,
//! separated by `/`, with `'` marking the accent nucleus after its mora.
//! The accent index records the marked mora's distance from the phrase
//! end (the final mora has index 1); an unmarked phrase is flat (0).
use vstd::prelude::*;
use crate::error::VvError;
use crate::query::{Mora, MoraV, AccentPhrase, AccentPhraseV, phrases_view};
use crate::text::{is_kana, is_small_kana, kana_char, small_kana_char};

verus! {

/// A mora with placeholder duration and pitch, as text analysis and
/// notation parsing produce it.
pub open spec fn placeholder_mora(text: Seq<char>, consonant: Option<char>, vowel: char) -> MoraV {
    MoraV {
        text,
        consonant,
        consonant_length: match consonant {
            Some(_) => Some(0u32),
            None => None,
        },
        vowel,
        vowel_length: 0,
        pitch: 0,
    }
}

/// A single-letter mora.
pub open spec fn mora_single(c: char) -> MoraV {
    placeholder_mora(seq![c], None, c)
}

/// A letter joined by a small letter: the pair forms one mora whose
/// leading letter acts as the consonant part.
pub open spec fn mora_pair(c: char, d: char) -> MoraV {
    placeholder_mora(seq![c, d], Some(c), d)
}

/// The outcome of scanning one phrase's notation: its moras, whether an
/// accent marker was seen, and the accent index it determined.
pub struct KanaScan {
    pub moras: Seq<MoraV>,
    pub marker: bool,
    pub accent: int,
}

/// Scan a phrase's notation. `no_marker` forbids an accent marker at
/// the current position (at the phrase start and right after another
/// marker). A second marker, a misplaced marker or a non-kana letter
/// fails the scan.
pub open spec fn scan_moras(t: Seq<char>, no_marker: bool) -> Option<KanaScan>
    decreases t.len(),
{
    if t.len() == 0 {
        Some(KanaScan { moras: Seq::empty(), marker: false, accent: 0 })
    } else if t[0] == '\'' {
        if no_marker {
            None
        } else {
            match scan_moras(t.skip(1), true) {
                Some(p) => if p.marker {
                    None
                } else {
                    Some(KanaScan { moras: p.moras, marker: true, accent: p.moras.len() + 1 as int })
                },
                None => None,
            }
        }
    } else if is_kana(t[0]) {
        if !is_small_kana(t[0]) && t.len() >= 2 && is_small_kana(t[1]) {
            match scan_moras(t.skip(2), false) {
                Some(p) => Some(
                    KanaScan {
                        moras: seq![mora_pair(t[0], t[1])] + p.moras,
                        marker: p.marker,
                        accent: p.accent,
                    },
                ),
                None => None,
            }
        } else {
            match scan_moras(t.skip(1), false) {
                Some(p) => Some(
                    KanaScan {
                        moras: seq![mora_single(t[0])] + p.moras,
                        marker: p.marker,
                        accent: p.accent,
                    },
                ),
                None => None,
            }
        }
    } else {
        None
    }
}

/// Parse one phrase's notation; an empty phrase fails.
pub open spec fn spec_parse_phrase(t: Seq<char>) -> Option<AccentPhraseV> {
    match scan_moras(t, true) {
        Some(p) => if p.moras.len() == 0 {
            None
        } else {
            Some(AccentPhraseV { moras: p.moras, accent: p.accent as u64, pause_mora: None })
        },
        None => None,
    }
}

/// The index of the first `/` in `t`, or `t.len()` if there is none.
pub open spec fn find_slash(t: Seq<char>) -> int
    decreases t.len(),
{
    if t.len() == 0 {
        0
    } else if t[0] == '/' {
        0
    } else {
        1 + find_slash(t.skip(1))
    }
}

pub proof fn lemma_find_slash(t: Seq<char>)
    ensures
        0 <= find_slash(t) <= t.len(),
        find_slash(t) < t.len() ==> t[find_slash(t)] == '/',
        forall|j: int| 0 <= j < find_slash(t) ==> t[j] != '/',
    decreases t.len(),
{
    if t.len() == 0 {
    } else if t[0] == '/' {
    } else {
        lemma_find_slash(t.skip(1));
        assert(forall|j: int| 1 <= j < t.len() ==> t[j] == t.skip(1)[j - 1]);
    }
}

/// Parse a whole notation: phrases separated by `/`, each parsed by
/// [`spec_parse_phrase`].
pub open spec fn spec_parse_kana(t: Seq<char>) -> Option<Seq<AccentPhraseV>>
    decreases t.len(),
{
    let k = find_slash(t);
    if 0 <= k < t.len() {
        match spec_parse_phrase(t.take(k)) {
            Some(p) => match spec_parse_kana(t.skip(k + 1)) {
                Some(rest) => Some(seq![p] + rest),
                None => None,
            },
            None => None,
        }
    } else {
        match spec_parse_phrase(t) {
            Some(p) => Some(seq![p]),
            None => None,
        }
    }
}

fn build_single(c: char) -> (r: Mora)
    ensures
        r@ == mora_single(c),
{
    let r = Mora {
        text: vec![c],
        consonant: None,
        consonant_length: None,
        vowel: c,
        vowel_length: 0,
        pitch: 0,
    };
    assert(r@ =~= mora_single(c));
    r
}

fn build_pair(c: char, d: char) -> (r: Mora)
    ensures
        r@ == mora_pair(c, d),
{
    let r = Mora {
        text: vec![c, d],
        consonant: Some(c),
        consonant_length: Some(0),
        vowel: d,
        vowel_length: 0,
        pitch: 0,
    };
    assert(r@ =~= mora_pair(c, d));
    r
}

/// Scan the notation slice `t[start..end]`, mirroring [`scan_moras`].
fn scan_moras_exec(t: &Vec<char>, start: usize, end: usize, no_marker: bool) -> (r: Option<
    (Vec<Mora>, bool, u64),
>)
    requires
        start <= end <= t@.len(),
    ensures
        match scan_moras(t@.subrange(start as int, end as int), no_marker) {
            Some(p) => {
                &&& r matches Some((v, m, a))
                &&& v@.map_values(|x: Mora| x@) == p.moras
                &&& m == p.marker
                &&& a == p.accent
                &&& v@.len() <= end - start
            },
            None => r is None,
        },
    decreases end - start,
{
    let ghost sub = t@.subrange(start as int, end as int);
    if start == end {
        let v: Vec<Mora> = Vec::new();
        assert(v@.map_values(|x: Mora| x@) =~= Seq::<MoraV>::empty());
        return Some((v, false, 0));
    }
    let c = t[start];
    assert(sub[0] == c);
    if c == '\'' {
        if no_marker {
            return None;
        }
        assert(sub.skip(1) =~= t@.subrange(start as int + 1, end as int));
        match scan_moras_exec(t, start + 1, end, true) {
            Some((v, m, _a)) => {
                if m {
                    None
                } else {
                    let n = v.len() as u64;
                    assert(v@.map_values(|x: Mora| x@).len() == v@.len());
                    Some((v, true, n + 1))
                }
            },
            None => None,
        }
    } else if kana_char(c) {
        if !small_kana_char(c) && start + 1 < end && small_kana_char(t[start + 1]) {
            let d = t[start + 1];
            assert(sub.len() >= 2 && sub[1] == d);
            assert(sub.skip(2) =~= t@.subrange(start as int + 2, end as int));
            match scan_moras_exec(t, start + 2, end, false) {
                Some((mut v, m, a)) => {
                    let ghost rest = v@;
                    let m0 = build_pair(c, d);
                    v.insert(0, m0);
                    proof {
                        let f = |x: Mora| x@;
                        assert(v@ =~= seq![m0] + rest);
                        assert(v@.map_values(f) =~= seq![mora_pair(c, d)] + rest.map_values(f));
                    }
                    Some((v, m, a))
                },
                None => None,
            }
        } else {
            assert(sub.skip(1) =~= t@.subrange(start as int + 1, end as int));
            match scan_moras_exec(t, start + 1, end, false) {
                Some((mut v, m, a)) => {
                    let ghost rest = v@;
                    let m0 = build_single(c);
                    v.insert(0, m0);
                    proof {
                        let f = |x: Mora| x@;
                        assert(v@ =~= seq![m0] + rest);
                        assert(v@.map_values(f) =~= seq![mora_single(c)] + rest.map_values(f));
                    }
                    Some((v, m, a))
                },
                None => None,
            }
        }
    } else {
        None
    }
}

/// Parse one phrase from `t[start..end]`, mirroring [`spec_parse_phrase`].
fn parse_phrase_exec(t: &Vec<char>, start: usize, end: usize) -> (r: Option<AccentPhrase>)
    requires
        start <= end <= t@.len(),
    ensures
        match spec_parse_phrase(t@.subrange(start as int, end as int)) {
            Some(p) => r matches Some(v) && v@ == p,
            None => r is None,
        },
{
    match scan_moras_exec(t, start, end, true) {
        Some((v, _m, a)) => {
            if v.len() == 0 {
                assert(v@.map_values(|x: Mora| x@).len() == 0);
                None
            } else {
                let p = AccentPhrase { moras: v, accent: a, pause_mora: None };
                assert(p@ =~= spec_parse_phrase(
                    t@.subrange(start as int, end as int),
                ).unwrap());
                Some(p)
            }
        },
        None => None,
    }
}

/// The position of the first `/` at or after `start`.
fn find_slash_exec(t: &Vec<char>, start: usize) -> (r: usize)
    requires
        start <= t@.len(),
    ensures
        r == start + find_slash(t@.subrange(start as int, t@.len() as int)),
        start <= r <= t@.len(),
{
    let ghost sub = t@.subrange(start as int, t@.len() as int);
    proof {
        lemma_find_slash(sub);
    }
    let mut i: usize = start;
    while i < t.len()
        invariant
            start <= i <= t@.len(),
            sub == t@.subrange(start as int, t@.len() as int),
            forall|j: int| 0 <= j < i - start ==> sub[j] != '/',
            0 <= find_slash(sub) <= sub.len(),
            find_slash(sub) < sub.len() ==> sub[find_slash(sub)] == '/',
            forall|j: int| 0 <= j < find_slash(sub) ==> sub[j] != '/',
        decreases t@.len() - i,
    {
        if t[i] == '/' {
            assert(sub[i - start] == '/');
            assert(i - start == find_slash(sub)) by {
                if find_slash(sub) < i - start {
                    assert(sub[find_slash(sub)] != '/');
                }
            }
            return i;
        }
        assert(sub[i - start] != '/');
        i = i + 1;
    }
    assert(find_slash(sub) == sub.len()) by {
        if find_slash(sub) < sub.len() {
            assert(sub[find_slash(sub)] != '/');
        }
    }
    i
}

/// Parse the notation suffix `t[start..]`, mirroring [`spec_parse_kana`].
fn parse_kana_from(t: &Vec<char>, start: usize) -> (r: Option<Vec<AccentPhrase>>)
    requires
        start <= t@.len(),
    ensures
        match spec_parse_kana(t@.subrange(start as int, t@.len() as int)) {
            Some(ps) => r matches Some(v) && phrases_view(v@) == ps,
            None => r is None,
        },
    decreases t@.len() - start,
{
    let ghost sub = t@.subrange(start as int, t@.len() as int);
    let k = find_slash_exec(t, start);
    assert(k - start == find_slash(sub));
    if k == t.len() {
        assert(sub =~= t@.subrange(start as int, t@.len() as int));
        match parse_phrase_exec(t, start, t.len()) {
            Some(p) => {
                let ghost pv = p@;
                let mut v: Vec<AccentPhrase> = Vec::new();
                v.push(p);
                assert(phrases_view(v@) =~= seq![pv]);
                Some(v)
            },
            None => None,
        }
    } else {
        assert(sub.take(k - start) =~= t@.subrange(start as int, k as int));
        let p = match parse_phrase_exec(t, start, k) {
            Some(p) => p,
            None => {
                return None;
            },
        };
        assert(sub.skip(k - start + 1) =~= t@.subrange(k as int + 1, t@.len() as int));
        match parse_kana_from(t, k + 1) {
            Some(mut v) => {
                let ghost pv = p@;
                let ghost rest = v@;
                v.insert(0, p);
                proof {
                    assert(v@ =~= seq![p] + rest);
                    assert(phrases_view(v@) =~= seq![pv] + phrases_view(rest));
                }
                Some(v)
            },
            None => None,
        }
    }
}

/// Parse a phonetic notation into accent phrases with placeholder
/// duration and pitch; malformed notation is a parse error.
pub fn parse_kana(t: &Vec<char>) -> (r: Result<Vec<AccentPhrase>, VvError>)
    ensures
        match spec_parse_kana(t@) {
            Some(ps) => r matches Ok(v) && phrases_view(v@) == ps,
            None => r matches Err(VvError::InvalidNotation),
        },
{
    assert(t@.subrange(0, t@.len() as int) =~= t@);
    match parse_kana_from(t, 0) {
        Some(v) => Ok(v),
        None => Err(VvError::InvalidNotation),
    }
}

/// Group an analyzed reading into placeholder moras: the same grouping
/// the notation uses, with no markers involved. Total: any character
/// sequence yields a mora sequence.
pub open spec fn moras_of_reading(t: Seq<char>) -> Seq<MoraV>
    decreases t.len(),
{
    if t.len() == 0 {
        Seq::empty()
    } else if t.len() >= 2 && !is_small_kana(t[0]) && is_small_kana(t[1]) {
        seq![mora_pair(t[0], t[1])] + moras_of_reading(t.skip(2))
    } else {
        seq![mora_single(t[0])] + moras_of_reading(t.skip(1))
    }
}

/// Build the placeholder moras of a reading.
pub fn build_reading_moras(t: &Vec<char>, start: usize) -> (r: Vec<Mora>)
    requires
        start <= t@.len(),
    ensures
        r@.map_values(|x: Mora| x@) == moras_of_reading(
            t@.subrange(start as int, t@.len() as int),
        ),
    decreases t@.len() - start,
{
    let ghost sub = t@.subrange(start as int, t@.len() as int);
    if start == t.len() {
        let v: Vec<Mora> = Vec::new();
        assert(v@.map_values(|x: Mora| x@) =~= Seq::<MoraV>::empty());
        return v;
    }
    let c = t[start];
    assert(sub[0] == c);
    if start + 1 < t.len() && !small_kana_char(c) && small_kana_char(t[start + 1]) {
        let d = t[start + 1];
        assert(sub.len() >= 2 && sub[1] == d);
        assert(sub.skip(2) =~= t@.subrange(start as int + 2, t@.len() as int));
        let mut v = build_reading_moras(t, start + 2);
        let ghost rest = v@;
        let m0 = build_pair(c, d);
        v.insert(0, m0);
        proof {
            let f = |x: Mora| x@;
            assert(v@ =~= seq![m0] + rest);
            assert(v@.map_values(f) =~= seq![mora_pair(c, d)] + rest.map_values(f));
        }
        v
    } else {
        assert(sub.skip(1) =~= t@.subrange(start as int + 1, t@.len() as int));
        let mut v = build_reading_moras(t, start + 1);
        let ghost rest = v@;
        let m0 = build_single(c);
        v.insert(0, m0);
        proof {
            let f = |x: Mora| x@;
            assert(v@ =~= seq![m0] + rest);
            assert(v@.map_values(f) =~= seq![mora_single(c)] + rest.map_values(f));
        }
        v
    }
}

} // verus!
