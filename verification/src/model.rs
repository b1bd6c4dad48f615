//! Voice models: an immutable bundle of opaque acoustic weights plus the
//! style metadata needed to route requests to it. A model is built by
//! decoding a bundle stream; a structurally inconsistent bundle is a
//! format error.
use vstd::prelude::*;
use crate::error::VvError;
use crate::text::{clone_chars, chars_to_string};
use crate::dict::{dec_chars, read_chars};

verus! {

/// The mathematical value of one style's metadata.
#[verifier::ext_equal]
pub struct StyleMetaV {
    pub style_id: u32,
    pub name: Seq<char>,
    pub speaker_name: Seq<char>,
}

/// Read-only descriptive data for one selectable voice style.
pub struct StyleMeta {
    pub style_id: u32,
    pub name: Vec<char>,
    pub speaker_name: Vec<char>,
}

impl View for StyleMeta {
    type V = StyleMetaV;

    open spec fn view(&self) -> StyleMetaV {
        StyleMetaV { style_id: self.style_id, name: self.name@, speaker_name: self.speaker_name@ }
    }
}

impl StyleMeta {
    /// A deep copy.
    pub fn duplicate(&self) -> (r: StyleMeta)
        ensures
            r@ == self@,
    {
        let r = StyleMeta {
            style_id: self.style_id,
            name: clone_chars(&self.name),
            speaker_name: clone_chars(&self.speaker_name),
        };
        assert(r@ =~= self@);
        r
    }
}

/// The mathematical value of a voice model.
#[verifier::ext_equal]
pub struct VoiceModelV {
    pub id: Seq<char>,
    pub styles: Seq<StyleMetaV>,
    pub weights: Seq<u64>,
}

/// An immutable, loaded bundle of acoustic weights and the styles it
/// offers. The identifier is authored into the bundle, stable across
/// runs; it is never generated at load time.
pub struct VoiceModel {
    pub id: Vec<char>,
    pub styles: Vec<StyleMeta>,
    pub weights: Vec<u64>,
}

impl View for VoiceModel {
    type V = VoiceModelV;

    open spec fn view(&self) -> VoiceModelV {
        VoiceModelV {
            id: self.id@,
            styles: self.styles@.map_values(|m: StyleMeta| m@),
            weights: self.weights@,
        }
    }
}

/// The model declares `sid` among its styles.
pub open spec fn has_style(m: VoiceModelV, sid: u32) -> bool {
    exists|a: int| 0 <= a < m.styles.len() && m.styles[a].style_id == sid
}

/// A structurally consistent model: a non-empty identifier, at least one
/// style, and no style id declared twice.
pub open spec fn model_wf(m: VoiceModelV) -> bool {
    &&& m.id.len() > 0
    &&& m.styles.len() >= 1
    &&& forall|a: int, b: int|
        0 <= a < b < m.styles.len() ==> m.styles[a].style_id != m.styles[b].style_id
}

/// Read `n` styles at `pos` of a bundle stream.
pub open spec fn dec_styles(t: Seq<u64>, pos: int, n: nat) -> Option<(Seq<StyleMetaV>, int)>
    decreases n,
{
    if n == 0 {
        Some((Seq::empty(), pos))
    } else if 0 <= pos < t.len() && t[pos] <= u32::MAX {
        let sid = t[pos] as u32;
        match {
            if pos + 1 < t.len() {
                dec_chars(t, pos + 2, t[pos + 1] as nat)
            } else {
                None
            }
        } {
            Some((name, p2)) => match {
                if p2 < t.len() {
                    dec_chars(t, p2 + 1, t[p2] as nat)
                } else {
                    None
                }
            } {
                Some((speaker_name, p3)) => match dec_styles(t, p3, (n - 1) as nat) {
                    Some((rest, e)) => Some(
                        (seq![StyleMetaV { style_id: sid, name, speaker_name }] + rest, e),
                    ),
                    None => None,
                },
                None => None,
            },
            None => None,
        }
    } else {
        None
    }
}

/// Decode a whole bundle stream: the identifier, the styles, then the
/// opaque weights; `None` unless every token is consumed.
pub open spec fn dec_model(t: Seq<u64>) -> Option<VoiceModelV> {
    if t.len() >= 1 {
        match dec_chars(t, 1, t[0] as nat) {
            Some((id, p1)) => if p1 < t.len() {
                match dec_styles(t, p1 + 1, t[p1] as nat) {
                    Some((styles, p2)) => if p2 < t.len() && t[p2] + p2 + 1 == t.len() {
                        Some(
                            VoiceModelV {
                                id,
                                styles,
                                weights: t.subrange(p2 + 1, t.len() as int),
                            },
                        )
                    } else {
                        None
                    },
                    None => None,
                }
            } else {
                None
            },
            None => None,
        }
    } else {
        None
    }
}

fn read_styles(t: &Vec<u64>, pos: usize, n: u64) -> (r: Option<(Vec<StyleMeta>, usize)>)
    requires
        pos <= t@.len(),
    ensures
        match dec_styles(t@, pos as int, n as nat) {
            Some((s, e)) => r matches Some((v, p)) && v@.map_values(|x: StyleMeta| x@) == s && p
                == e && p <= t@.len(),
            None => r is None,
        },
    decreases n,
{
    if n == 0 {
        let v: Vec<StyleMeta> = Vec::new();
        assert(v@.map_values(|x: StyleMeta| x@) =~= Seq::<StyleMetaV>::empty());
        return Some((v, pos));
    }
    if pos >= t.len() || t[pos] > u32::MAX as u64 {
        return None;
    }
    let sid = t[pos] as u32;
    if pos + 1 >= t.len() {
        return None;
    }
    let (name, p2) = match read_chars(t, pos + 2, t[pos + 1]) {
        Some(v) => v,
        None => {
            return None;
        },
    };
    if p2 >= t.len() {
        return None;
    }
    let (speaker_name, p3) = match read_chars(t, p2 + 1, t[p2]) {
        Some(v) => v,
        None => {
            return None;
        },
    };
    match read_styles(t, p3, n - 1) {
        Some((mut v, p)) => {
            let ghost rest = v@;
            let m0 = StyleMeta { style_id: sid, name, speaker_name };
            let ghost m0v = m0@;
            v.insert(0, m0);
            proof {
                let f = |x: StyleMeta| x@;
                assert(v@ =~= seq![m0] + rest);
                assert(v@.map_values(f) =~= seq![m0v] + rest.map_values(f));
            }
            Some((v, p))
        },
        None => None,
    }
}

impl VoiceModel {
    /// Decode a bundle stream and validate the result: a failure of
    /// either is a format error. The identifier must be non-empty, at
    /// least one style must be declared, and no style id twice.
    pub fn from_data(data: &Vec<u64>) -> (r: Result<VoiceModel, VvError>)
        ensures
            match dec_model(data@) {
                Some(m) => if model_wf(m) {
                    r matches Ok(v) && v@ == m
                } else {
                    r matches Err(VvError::InvalidData)
                },
                None => r matches Err(VvError::InvalidData),
            },
    {
        if data.len() < 1 {
            return Err(VvError::InvalidData);
        }
        let (id, p1) = match read_chars(data, 1, data[0]) {
            Some(v) => v,
            None => {
                return Err(VvError::InvalidData);
            },
        };
        if p1 >= data.len() {
            return Err(VvError::InvalidData);
        }
        let (styles, p2) = match read_styles(data, p1 + 1, data[p1]) {
            Some(v) => v,
            None => {
                return Err(VvError::InvalidData);
            },
        };
        if p2 >= data.len() {
            return Err(VvError::InvalidData);
        }
        if (p2 as u128) + (data[p2] as u128) + 1 != data.len() as u128 {
            return Err(VvError::InvalidData);
        }
        let ghost m = dec_model(data@).unwrap();
        let mut weights: Vec<u64> = Vec::new();
        let mut k: usize = p2 + 1;
        while k < data.len()
            invariant
                p2 + 1 <= k <= data@.len(),
                weights@ =~= data@.subrange(p2 + 1, k as int),
            decreases data@.len() - k,
        {
            weights.push(data[k]);
            assert(weights@ =~= data@.subrange(p2 + 1, k as int + 1));
            k = k + 1;
        }
        assert(weights@ =~= data@.subrange(p2 + 1, data@.len() as int));
        // Validate the decoded structure.
        if id.len() == 0 || styles.len() == 0 {
            assert(!model_wf(m));
            return Err(VvError::InvalidData);
        }
        let mut i: usize = 0;
        while i < styles.len()
            invariant
                0 <= i <= styles@.len(),
                dec_model(data@) == Some(m),
                styles@.map_values(|x: StyleMeta| x@) == m.styles,
                forall|a: int, b: int| 0 <= a < b <= i - 1 ==> m.styles[a].style_id
                    != m.styles[b].style_id,
            decreases styles@.len() - i,
        {
            let mut j: usize = 0;
            while j < i
                invariant
                    0 <= j <= i < styles@.len(),
                    dec_model(data@) == Some(m),
                    styles@.map_values(|x: StyleMeta| x@) == m.styles,
                    forall|a: int| 0 <= a < j ==> m.styles[a].style_id != m.styles[i as int].style_id,
                decreases i - j,
            {
                if styles[j].style_id == styles[i].style_id {
                    assert(styles@.map_values(|x: StyleMeta| x@)[j as int] == styles@[j as int]@);
                    assert(styles@.map_values(|x: StyleMeta| x@)[i as int] == styles@[i as int]@);
                    assert(m.styles[j as int].style_id == m.styles[i as int].style_id);
                    assert(!model_wf(m));
                    return Err(VvError::InvalidData);
                }
                assert(styles@.map_values(|x: StyleMeta| x@)[j as int] == styles@[j as int]@);
                assert(styles@.map_values(|x: StyleMeta| x@)[i as int] == styles@[i as int]@);
                assert(m.styles[j as int].style_id != m.styles[i as int].style_id);
                j = j + 1;
            }
            i = i + 1;
        }
        assert(m.styles.len() == styles@.len());
        assert(model_wf(m));
        let v = VoiceModel { id, styles, weights };
        assert(v@ =~= m);
        Ok(v)
    }

    /// The model's identifier, as a string.
    pub fn id(&self) -> (r: String)
        ensures
            r@ == self@.id,
    {
        chars_to_string(&self.id)
    }

    /// The model's identifier characters.
    pub fn id_chars(&self) -> (r: &Vec<char>)
        ensures
            r@ == self@.id,
    {
        &self.id
    }

    /// The styles this model offers.
    pub fn metas(&self) -> (r: &Vec<StyleMeta>)
        ensures
            r@.map_values(|m: StyleMeta| m@) == self@.styles,
    {
        &self.styles
    }

    /// A deep copy.
    pub fn duplicate(&self) -> (r: VoiceModel)
        ensures
            r@ == self@,
    {
        let mut styles: Vec<StyleMeta> = Vec::new();
        let mut i: usize = 0;
        while i < self.styles.len()
            invariant
                0 <= i <= self.styles@.len(),
                styles@.map_values(|m: StyleMeta| m@) =~= self.styles@.map_values(
                    |m: StyleMeta| m@,
                ).take(i as int),
            decreases self.styles@.len() - i,
        {
            let ghost prev = styles@;
            let s0 = self.styles[i].duplicate();
            let ghost s0v = s0@;
            styles.push(s0);
            proof {
                let f = |m: StyleMeta| m@;
                assert(styles@ =~= prev.push(s0));
                assert(styles@.map_values(f) =~= prev.map_values(f).push(s0v));
                assert(s0v == self.styles@.map_values(f)[i as int]);
                assert(styles@.map_values(f) =~= self.styles@.map_values(f).take(i as int + 1));
            }
            i = i + 1;
        }
        let mut weights: Vec<u64> = Vec::new();
        let mut k: usize = 0;
        while k < self.weights.len()
            invariant
                0 <= k <= self.weights@.len(),
                weights@ =~= self.weights@.take(k as int),
            decreases self.weights@.len() - k,
        {
            weights.push(self.weights[k]);
            assert(weights@ =~= self.weights@.take(k as int + 1));
            k = k + 1;
        }
        let r = VoiceModel { id: clone_chars(&self.id), styles, weights };
        proof {
            let f = |m: StyleMeta| m@;
            assert(self.styles@.map_values(f).take(self.styles@.len() as int) =~= self.styles@
                .map_values(f));
            assert(self.weights@.take(self.weights@.len() as int) =~= self.weights@);
            assert(r@ =~= self@);
        }
        r
    }
}

} // verus!
