//! The model registry: which models are loaded, and which loaded model
//! serves each style id. Loading is all-or-nothing — an id or style
//! collision rolls the whole load back — and unloading removes the model
//! together with every style route it owned.
use vstd::prelude::*;
use crate::error::VvError;
use crate::model::{VoiceModel, VoiceModelV, StyleMeta, StyleMetaV, has_style, model_wf};
use crate::text::chars_eq;

verus! {

/// Some loaded model carries `id`.
pub open spec fn is_loaded(s: Seq<VoiceModelV>, id: Seq<char>) -> bool {
    exists|i: int| 0 <= i < s.len() && s[i].id == id
}

/// The index of the first model carrying `id`, or `s.len()`.
pub open spec fn find_model(s: Seq<VoiceModelV>, id: Seq<char>) -> int
    decreases s.len(),
{
    if s.len() == 0 {
        0
    } else if s[0].id == id {
        0
    } else {
        1 + find_model(s.skip(1), id)
    }
}

pub proof fn lemma_find_model(s: Seq<VoiceModelV>, id: Seq<char>)
    ensures
        0 <= find_model(s, id) <= s.len(),
        find_model(s, id) < s.len() ==> s[find_model(s, id)].id == id,
        forall|j: int| 0 <= j < find_model(s, id) ==> s[j].id != id,
        (find_model(s, id) < s.len()) == is_loaded(s, id),
    decreases s.len(),
{
    if s.len() == 0 {
    } else if s[0].id == id {
    } else {
        lemma_find_model(s.skip(1), id);
        assert(forall|j: int| 1 <= j < s.len() ==> s[j] == s.skip(1)[j - 1]);
        if is_loaded(s, id) {
            let w = choose|i: int| 0 <= i < s.len() && s[i].id == id;
            assert(s.skip(1)[w - 1].id == id);
        }
    }
}

/// The index of the first model declaring style `sid`, or `s.len()`.
pub open spec fn find_style(s: Seq<VoiceModelV>, sid: u32) -> int
    decreases s.len(),
{
    if s.len() == 0 {
        0
    } else if has_style(s[0], sid) {
        0
    } else {
        1 + find_style(s.skip(1), sid)
    }
}

/// Style `sid` is routed to some loaded model.
pub open spec fn routes(s: Seq<VoiceModelV>, sid: u32) -> bool {
    exists|i: int| 0 <= i < s.len() && has_style(#[trigger] s[i], sid)
}

/// The id of the model that serves `sid`, if any model does.
pub open spec fn resolve(s: Seq<VoiceModelV>, sid: u32) -> Option<Seq<char>> {
    if routes(s, sid) {
        Some(s[find_style(s, sid)].id)
    } else {
        None
    }
}

pub proof fn lemma_find_style(s: Seq<VoiceModelV>, sid: u32)
    ensures
        0 <= find_style(s, sid) <= s.len(),
        find_style(s, sid) < s.len() ==> has_style(s[find_style(s, sid)], sid),
        forall|j: int| 0 <= j < find_style(s, sid) ==> !has_style(#[trigger] s[j], sid),
        (find_style(s, sid) < s.len()) == routes(s, sid),
    decreases s.len(),
{
    if s.len() == 0 {
    } else if has_style(s[0], sid) {
    } else {
        lemma_find_style(s.skip(1), sid);
        assert(forall|j: int| 1 <= j < s.len() ==> s[j] == s.skip(1)[j - 1]);
        if routes(s, sid) {
            let w = choose|i: int| 0 <= i < s.len() && has_style(#[trigger] s[i], sid);
            assert(has_style(s.skip(1)[w - 1], sid));
        }
    }
}

/// The registry invariant: every model is consistent, no model id is
/// loaded twice, and no style id is declared by two loaded models.
pub open spec fn registry_wf(s: Seq<VoiceModelV>) -> bool {
    &&& forall|i: int| 0 <= i < s.len() ==> model_wf(#[trigger] s[i])
    &&& forall|i: int, j: int| 0 <= i < j < s.len() ==> s[i].id != s[j].id
    &&& forall|i: int, j: int, sid: u32|
        #![trigger has_style(s[i], sid), has_style(s[j], sid)]
        0 <= i < s.len() && 0 <= j < s.len() && i != j && has_style(s[i], sid) ==> !has_style(
            s[j],
            sid,
        )
}

/// A new model's styles collide with nothing already loaded.
pub open spec fn no_style_overlap(s: Seq<VoiceModelV>, m: VoiceModelV) -> bool {
    forall|sid: u32| #[trigger] has_style(m, sid) ==> !routes(s, sid)
}

/// The mapping from model id to loaded model and from style id to the
/// model that serves it.
pub struct ModelRegistry {
    pub models: Vec<VoiceModel>,
}

impl View for ModelRegistry {
    type V = Seq<VoiceModelV>;

    open spec fn view(&self) -> Seq<VoiceModelV> {
        self.models@.map_values(|m: VoiceModel| m@)
    }
}

impl ModelRegistry {
    /// An empty registry.
    pub fn new() -> (r: ModelRegistry)
        ensures
            r@ =~= Seq::<VoiceModelV>::empty(),
            registry_wf(r@),
    {
        ModelRegistry { models: Vec::new() }
    }

    /// Is a model with this id loaded? A pure lookup; never fails.
    pub fn is_loaded_model(&self, id: &Vec<char>) -> (r: bool)
        ensures
            r == is_loaded(self@, id@),
    {
        proof {
            lemma_find_model(self@, id@);
        }
        let mut i: usize = 0;
        while i < self.models.len()
            invariant
                0 <= i <= self@.len(),
                self@.len() == self.models@.len(),
                forall|j: int| 0 <= j < self@.len() ==> self@[j] == self.models@[j]@,
                forall|j: int| 0 <= j < i ==> self@[j].id != id@,
            decreases self@.len() - i,
        {
            if chars_eq(&self.models[i].id, id) {
                assert(self@[i as int].id == id@);
                return true;
            }
            assert(self@[i as int].id != id@);
            i = i + 1;
        }
        assert(!is_loaded(self@, id@));
        false
    }

    /// The index of the first model declaring `sid`, or the model count.
    fn find_style_index(&self, sid: u32) -> (r: usize)
        ensures
            r == find_style(self@, sid),
    {
        proof {
            lemma_find_style(self@, sid);
        }
        let mut i: usize = 0;
        while i < self.models.len()
            invariant
                0 <= i <= self@.len(),
                self@.len() == self.models@.len(),
                forall|j: int| 0 <= j < self@.len() ==> self@[j] == self.models@[j]@,
                forall|j: int| 0 <= j < i ==> !has_style(#[trigger] self@[j], sid),
                0 <= find_style(self@, sid) <= self@.len(),
                find_style(self@, sid) < self@.len() ==> has_style(
                    self@[find_style(self@, sid)],
                    sid,
                ),
                forall|j: int|
                    0 <= j < find_style(self@, sid) ==> !has_style(#[trigger] self@[j], sid),
                (find_style(self@, sid) < self@.len()) == routes(self@, sid),
            decreases self@.len() - i,
        {
            if model_declares(&self.models[i], sid) {
                assert(has_style(self@[i as int], sid));
                assert(routes(self@, sid));
                assert(i as int == find_style(self@, sid)) by {
                    if find_style(self@, sid) < i {
                        assert(!has_style(self@[find_style(self@, sid)], sid));
                    }
                }
                return i;
            }
            assert(!has_style(self@[i as int], sid));
            i = i + 1;
        }
        assert(!routes(self@, sid));
        i
    }

    /// The id of the model that serves `sid`; an unrouted style is a
    /// not-found error.
    pub fn resolve_style(&self, sid: u32) -> (r: Result<&VoiceModel, VvError>)
        ensures
            match r {
                Ok(m) => routes(self@, sid) && resolve(self@, sid) == Some(m@.id) && m@
                    == self@[find_style(self@, sid)],
                Err(e) => e matches VvError::StyleNotFound(x) && x == sid && !routes(self@, sid),
            },
    {
        let i = self.find_style_index(sid);
        proof {
            lemma_find_style(self@, sid);
        }
        if i == self.models.len() {
            return Err(VvError::StyleNotFound(sid));
        }
        assert(self.models@[i as int]@ == self@[i as int]);
        Ok(&self.models[i])
    }

    /// Load a model: all-or-nothing. Fails if the id is already loaded,
    /// or if any style the model declares is already routed to a loaded
    /// model; on failure the registry is exactly as it was.
    pub fn load(&mut self, model: &VoiceModel) -> (r: Result<(), VvError>)
        requires
            registry_wf(old(self)@),
            model_wf(model@),
        ensures
            match r {
                Ok(()) => {
                    &&& !is_loaded(old(self)@, model@.id)
                    &&& no_style_overlap(old(self)@, model@)
                    &&& final(self)@ == old(self)@.push(model@)
                    &&& registry_wf(final(self)@)
                },
                Err(e) => {
                    &&& final(self)@ == old(self)@
                    &&& match e {
                        VvError::ModelAlreadyLoaded => is_loaded(old(self)@, model@.id),
                        VvError::StyleConflict(sid) => {
                            &&& !is_loaded(old(self)@, model@.id)
                            &&& has_style(model@, sid)
                            &&& routes(old(self)@, sid)
                        },
                        _ => false,
                    }
                },
            },
    {
        if self.is_loaded_model(&model.id) {
            return Err(VvError::ModelAlreadyLoaded);
        }
        let ghost mv = model@;
        let mut a: usize = 0;
        while a < model.styles.len()
            invariant
                0 <= a <= model.styles@.len(),
                mv == model@,
                self@ == old(self)@,
                registry_wf(self@),
                !is_loaded(self@, mv.id),
                forall|b: int| 0 <= b < a ==> !routes(self@, mv.styles[b].style_id),
                mv.styles.len() == model.styles@.len(),
                forall|b: int| 0 <= b < mv.styles.len() ==> mv.styles[b] == model.styles@[b]@,
            decreases model.styles@.len() - a,
        {
            let sid = model.styles[a].style_id;
            assert(sid == mv.styles[a as int].style_id);
            let k = self.find_style_index(sid);
            proof {
                lemma_find_style(self@, sid);
            }
            if k < self.models.len() {
                assert(routes(self@, sid));
                assert(has_style(mv, sid)) by {
                    assert(mv.styles[a as int].style_id == sid);
                }
                return Err(VvError::StyleConflict(sid));
            }
            assert(!routes(self@, sid));
            a = a + 1;
        }
        assert(no_style_overlap(self@, mv)) by {
            assert forall|sid: u32| #[trigger] has_style(mv, sid) implies !routes(self@, sid) by {
                let b = choose|b: int| 0 <= b < mv.styles.len() && mv.styles[b].style_id == sid;
                assert(!routes(self@, mv.styles[b].style_id));
            }
        }
        let ghost prev = self@;
        let copy = model.duplicate();
        self.models.push(copy);
        assert(self@ =~= prev.push(mv));
        assert(registry_wf(self@)) by {
            assert(forall|j: int| 0 <= j < prev.len() ==> self@[j] == prev[j]);
            assert(self@[prev.len() as int] == mv);
            assert forall|i: int, j: int, sid: u32|
                #![trigger has_style(self@[i], sid), has_style(self@[j], sid)]
                0 <= i < self@.len() && 0 <= j < self@.len() && i != j && has_style(
                    self@[i],
                    sid,
                ) implies !has_style(self@[j], sid) by {
                if i < prev.len() && j < prev.len() {
                } else if i == prev.len() {
                    // the new model's styles route nowhere in prev
                    assert(has_style(mv, sid));
                    assert(!routes(prev, sid));
                    if has_style(prev[j], sid) {
                        assert(routes(prev, sid));
                    }
                } else {
                    assert(has_style(prev[i], sid));
                    if has_style(mv, sid) {
                        assert(!routes(prev, sid));
                        assert(routes(prev, sid));
                    }
                }
            }
        }
        Ok(())
    }

    /// Unload the model with this id, removing every style route it
    /// owned; an unknown id is a not-found error and changes nothing.
    pub fn unload(&mut self, id: &Vec<char>) -> (r: Result<(), VvError>)
        requires
            registry_wf(old(self)@),
        ensures
            match r {
                Ok(()) => {
                    &&& is_loaded(old(self)@, id@)
                    &&& final(self)@ == old(self)@.remove(find_model(old(self)@, id@))
                    &&& registry_wf(final(self)@)
                },
                Err(e) => {
                    &&& e matches VvError::ModelNotFound
                    &&& !is_loaded(old(self)@, id@)
                    &&& final(self)@ == old(self)@
                },
            },
    {
        proof {
            lemma_find_model(self@, id@);
        }
        let mut i: usize = 0;
        let n = self.models.len();
        while i < n
            invariant
                0 <= i <= self@.len(),
                n == self@.len(),
                self@ == old(self)@,
                registry_wf(self@),
                self@.len() == self.models@.len(),
                forall|j: int| 0 <= j < self@.len() ==> self@[j] == self.models@[j]@,
                forall|j: int| 0 <= j < i ==> self@[j].id != id@,
            decreases self@.len() - i,
        {
            if chars_eq(&self.models[i].id, id) {
                assert(self@[i as int].id == id@);
                assert(i as int == find_model(self@, id@)) by {
                    lemma_find_model(self@, id@);
                    if find_model(self@, id@) < i {
                        assert(self@[find_model(self@, id@)].id != id@);
                    }
                }
                let ghost prev = self@;
                self.models.remove(i);
                assert(self@ =~= prev.remove(i as int));
                assert(registry_wf(self@)) by {
                    assert(forall|x: int|
                        0 <= x < self@.len() ==> self@[x] == (if x < i {
                            prev[x]
                        } else {
                            prev[x + 1]
                        }));
                    assert forall|x: int, y: int, sid: u32|
                        #![trigger has_style(self@[x], sid), has_style(self@[y], sid)]
                        0 <= x < self@.len() && 0 <= y < self@.len() && x != y && has_style(
                            self@[x],
                            sid,
                        ) implies !has_style(self@[y], sid) by {
                        let x0: int = if x < i {
                            x
                        } else {
                            x + 1
                        };
                        let y0: int = if y < i {
                            y
                        } else {
                            y + 1
                        };
                        assert(has_style(prev[x0], sid));
                        assert(x0 != y0);
                        assert(!has_style(prev[y0], sid));
                    }
                }
                return Ok(());
            }
            assert(self@[i as int].id != id@);
            i = i + 1;
        }
        assert(!is_loaded(self@, id@));
        Err(VvError::ModelNotFound)
    }

    /// The styles of every loaded model, in load order.
    pub fn metas(&self) -> (r: Vec<StyleMeta>)
        ensures
            r@.map_values(|m: StyleMeta| m@) == all_styles(self@),
    {
        let mut out: Vec<StyleMeta> = Vec::new();
        let mut i: usize = 0;
        proof {
            assert(out@.map_values(|m: StyleMeta| m@) =~= all_styles(self@.take(0)));
        }
        while i < self.models.len()
            invariant
                0 <= i <= self@.len(),
                self@.len() == self.models@.len(),
                forall|j: int| 0 <= j < self@.len() ==> self@[j] == self.models@[j]@,
                out@.map_values(|m: StyleMeta| m@) == all_styles(self@.take(i as int)),
            decreases self@.len() - i,
        {
            let m = &self.models[i];
            let mut a: usize = 0;
            let ghost base = out@;
            while a < m.styles.len()
                invariant
                    0 <= a <= m.styles@.len(),
                    out@.map_values(|x: StyleMeta| x@) =~= base.map_values(|x: StyleMeta| x@)
                        + m@.styles.subrange(0, a as int),
                    m@.styles.len() == m.styles@.len(),
                    forall|b: int| 0 <= b < m@.styles.len() ==> m@.styles[b] == m.styles@[b]@,
                decreases m.styles@.len() - a,
            {
                let s0 = m.styles[a].duplicate();
                let ghost s0v = s0@;
                let ghost prevout = out@;
                out.push(s0);
                proof {
                    let f = |x: StyleMeta| x@;
                    assert(out@ =~= prevout.push(s0));
                    assert(out@.map_values(f) =~= prevout.map_values(f).push(s0v));
                    assert(s0v == m@.styles[a as int]);
                    assert(out@.map_values(f) =~= base.map_values(f) + m@.styles.subrange(
                        0,
                        a as int + 1,
                    ));
                }
                a = a + 1;
            }
            proof {
                let f = |x: StyleMeta| x@;
                assert(m@.styles.subrange(0, m@.styles.len() as int) =~= m@.styles);
                assert(self@.take(i as int + 1).drop_last() =~= self@.take(i as int));
                assert(self@.take(i as int + 1).last() == self@[i as int]);
                assert(out@.map_values(f) =~= all_styles(self@.take(i as int + 1)));
            }
            i = i + 1;
        }
        proof {
            assert(self@.take(self@.len() as int) =~= self@);
        }
        out
    }
}

/// The styles of a model sequence, concatenated in order.
pub open spec fn all_styles(s: Seq<VoiceModelV>) -> Seq<StyleMetaV>
    decreases s.len(),
{
    if s.len() == 0 {
        Seq::empty()
    } else {
        all_styles(s.drop_last()) + s.last().styles
    }
}

/// Does the model declare this style id?
fn model_declares(m: &VoiceModel, sid: u32) -> (r: bool)
    ensures
        r == has_style(m@, sid),
{
    let mut a: usize = 0;
    while a < m.styles.len()
        invariant
            0 <= a <= m.styles@.len(),
            m@.styles.len() == m.styles@.len(),
            forall|b: int| 0 <= b < m@.styles.len() ==> m@.styles[b] == m.styles@[b]@,
            forall|b: int| 0 <= b < a ==> m@.styles[b].style_id != sid,
        decreases m.styles@.len() - a,
    {
        if m.styles[a].style_id == sid {
            assert(m@.styles[a as int].style_id == sid);
            return true;
        }
        assert(m@.styles[a as int].style_id != sid);
        a = a + 1;
    }
    assert(!has_style(m@, sid));
    false
}

/// Unloading a freshly loaded model reverts the registry exactly: the
/// registry equals its state before the load, every style the model
/// declared is unrouted again, and the model's id is no longer loaded.
pub proof fn lemma_unload_reverts_load(s: Seq<VoiceModelV>, m: VoiceModelV)
    requires
        registry_wf(s),
        model_wf(m),
        !is_loaded(s, m.id),
        no_style_overlap(s, m),
    ensures
        find_model(s.push(m), m.id) == s.len(),
        s.push(m).remove(find_model(s.push(m), m.id)) == s,
        forall|sid: u32| #[trigger] has_style(m, sid) ==> resolve(s, sid) is None,
        !is_loaded(s, m.id),
{
    let s2 = s.push(m);
    lemma_find_model(s2, m.id);
    assert(forall|j: int| 0 <= j < s.len() ==> s2[j] == s[j]);
    assert(s2[s.len() as int].id == m.id);
    assert(find_model(s2, m.id) == s.len()) by {
        if find_model(s2, m.id) < s.len() {
            assert(s2[find_model(s2, m.id)].id == m.id);
            assert(is_loaded(s, m.id));
        }
    }
    assert(s2.remove(s.len() as int) =~= s);
}

} // verus!
