use vstd::prelude::*;
use crate::error::Error;
use crate::metadata::Metadata;
use crate::metadata::MetaValue;
use crate::paths::spec_join;
use crate::State;
use crate::StateV;

verus! {

broadcast use {
    vstd::std_specs::vec::axiom_vec_index_decreases,
    vstd::std_specs::vec::axiom_vec_decreases_to_view,
    vstd::seq::axiom_seq_index_decreases,
    vstd::seq::axiom_seq_subrange_decreases,
};

#[verifier::external_type_specification]
#[verifier::external_body]
pub struct ExEnvironment<'a>(minijinja::Environment<'a>);

#[verifier::external_type_specification]
#[verifier::external_body]
pub struct ExValue(minijinja::Value);

/// Relies on minijinja's `Value` conversions: turns one metadata value into a
/// template-engine value of the same shape.
#[verifier::external_body]
fn meta_to_value(v: &MetaValue) -> minijinja::Value {
    match v {
        MetaValue::Null => minijinja::Value::from(()),
        MetaValue::Bool(b) => minijinja::Value::from(*b),
        MetaValue::Int(i) => minijinja::Value::from(*i),
        MetaValue::Str(s) => minijinja::Value::from(s.as_str()),
        MetaValue::Arr(items) => items.iter().map(meta_to_value).collect::<minijinja::Value>(),
        MetaValue::Obj(entries) => entries.iter().map(
            |e| (e.0.clone(), meta_to_value(&e.1)),
        ).collect::<minijinja::Value>(),
    }
}

/// Relies on minijinja's `Environment::get_template` and `Template::render`:
/// renders the named template against the metadata context and reports the
/// backend's message on failure. The result depends on the template sources
/// the environment was loaded with, so nothing is promised about it.
#[verifier::external_body]
pub(crate) fn render_template(
    env: &minijinja::Environment<'static>,
    name: &str,
    context: &Metadata,
) -> Result<String, String> {
    let mut i: usize = 0;
    let mut pairs: Vec<(String, minijinja::Value)> = Vec::new();
    while i < context.len() {
        let e = context.entry_at(i);
        pairs.push((e.0.clone(), meta_to_value(&e.1)));
        i = i + 1;
    }
    let tmpl = env.get_template(name).map_err(|e| e.to_string())?;
    tmpl.render(pairs.into_iter().collect::<minijinja::Value>()).map_err(|e| e.to_string())
}

/// A custom render step: the capability interface behind
/// [`Renderer::Custom`]. A step maps a context to rendered text; implementors
/// beyond [`crate::rules::BodyRenderer`] are the embedding program's own.
pub trait BFn {
    /// Render the context to a string. A step sees only the context, never
    /// the build state: a method of this trait that mentioned `State` in any
    /// form would close the definition cycle renderer, step, state, action,
    /// renderer, which the verifier refuses. Custom steps therefore work
    /// from what the compile step put into the context, and can never
    /// enqueue new actions.
    fn call(&self, context: &mut Metadata) -> (r: Result<String, Error>)
        requires
            old(context).wf(),
        ensures
            final(context).wf(),
    ;
}

/// The shape of a renderer, with custom steps opaque.
pub ghost enum RendererV {
    Template(Seq<char>),
    Pipeline(Seq<RendererV>),
    Custom,
    Verbatim,
}

/// A template rendering pipeline.
pub enum Renderer {
    /// Render with the named template from the templates directory.
    LoadAndApplyTemplate(&'static str),
    /// Chain several stages; each stage's output becomes the `body` of the
    /// next stage's context, and the last stage's output is the result.
    Pipeline(Vec<Renderer>),
    /// A custom render step.
    Custom(Box<dyn BFn>),
    /// No rendering: the artifact's bytes are copied verbatim.
    Verbatim,
}

/// The shape of a renderer.
pub open spec fn renderer_view(r: Renderer) -> RendererV
    decreases r,
{
    match r {
        Renderer::LoadAndApplyTemplate(t) => RendererV::Template(t@),
        Renderer::Pipeline(list) => RendererV::Pipeline(pipeline_view(list@)),
        Renderer::Custom(_) => RendererV::Custom,
        Renderer::Verbatim => RendererV::Verbatim,
    }
}

/// The shapes of a pipeline's stages, in order.
pub open spec fn pipeline_view(list: Seq<Renderer>) -> Seq<RendererV>
    decreases list,
{
    if list.len() == 0 {
        Seq::<RendererV>::empty()
    } else {
        seq![renderer_view(list.first())] + pipeline_view(list.drop_first())
    }
}

/// `pipeline_view` maps each stage to its shape.
pub proof fn lemma_pipeline_view(list: Seq<Renderer>)
    ensures
        pipeline_view(list).len() == list.len(),
        forall|i: int|
            0 <= i < list.len() ==> pipeline_view(list)[i] == renderer_view(#[trigger] list[i]),
    decreases list.len(),
{
    if list.len() > 0 {
        lemma_pipeline_view(list.drop_first());
        assert(forall|i: int| 0 <= i < list.drop_first().len() ==> list.drop_first()[i] == list[i
            + 1]);
        assert forall|i: int| 0 <= i < list.len() implies pipeline_view(list)[i] == renderer_view(
            #[trigger] list[i],
        ) by {
            if i > 0 {
                assert(pipeline_view(list)[i] == pipeline_view(list.drop_first())[i - 1]);
                assert(list.drop_first()[i - 1] == list[i]);
            }
        }
    }
}

impl View for Renderer {
    type V = RendererV;

    open spec fn view(&self) -> RendererV {
        renderer_view(*self)
    }
}

/// Whether the renderer holds a custom step anywhere; a custom step cannot be
/// duplicated, since only the embedding program knows how to copy it.
pub open spec fn spec_has_custom(v: RendererV) -> bool
    decreases v,
{
    match v {
        RendererV::Template(_) => false,
        RendererV::Pipeline(list) => exists|i: int|
            0 <= i < list.len() && spec_has_custom(#[trigger] list[i]),
        RendererV::Custom => true,
        RendererV::Verbatim => false,
    }
}

/// Whether this renderer makes the destination stale: a templated page must
/// be rebuilt when its template changed, a pipeline when any stage did, and a
/// custom or absent renderer always leaves the decision to the source check.
pub open spec fn spec_renderer_stale(v: StateV, r: RendererV, dest: Seq<char>) -> bool
    decreases r,
{
    match r {
        RendererV::Template(t) => crate::spec_is_stale(v, dest, spec_join(v.templates_dir, t)),
        RendererV::Pipeline(list) => exists|i: int|
            0 <= i < list.len() && spec_renderer_stale(v, #[trigger] list[i], dest),
        RendererV::Custom => true,
        RendererV::Verbatim => true,
    }
}

impl Renderer {
    /// Whether the destination must be rebuilt on this renderer's account,
    /// comparing the destination's recorded modification time against each
    /// template stage's.
    pub fn check_mtime(&self, state: &State, dest_path: &str) -> (r: bool)
        ensures
            r == spec_renderer_stale(state@, self@, dest_path@),
        decreases self,
    {
        match self {
            Renderer::LoadAndApplyTemplate(path) => {
                let resource = crate::paths::join_path(state.templates_dir(), path);
                state.check_mtime(dest_path, resource.as_str())
            },
            Renderer::Pipeline(list) => {
                let ghost lv = self@->Pipeline_0;
                proof {
                    lemma_pipeline_view(list@);
                }
                let mut i: usize = 0;
                while i < list.len()
                    invariant
                        self is Pipeline && self->Pipeline_0 == *list,
                        self@ is Pipeline && self@->Pipeline_0 == lv,
                        lv.len() == list@.len(),
                        forall|j: int| 0 <= j < list@.len() ==> lv[j] == (#[trigger] list@[j])@,
                        i <= list@.len(),
                        forall|j: int|
                            0 <= j < i ==> !spec_renderer_stale(state@, #[trigger] lv[j], dest_path@),
                    decreases list@.len() - i,
                {
                    proof {
                        assert(decreases_to!(*self => *list));
                        assert(decreases_to!(*list => list@[i as int]));
                    }
                    if list[i].check_mtime(state, dest_path) {
                        proof {
                            assert(spec_renderer_stale(state@, lv[i as int], dest_path@));
                        }
                        return true;
                    }
                    i = i + 1;
                }
                false
            },
            Renderer::Custom(_) => true,
            Renderer::Verbatim => true,
        }
    }

    /// A structural copy of this renderer, when it holds no custom step.
    pub fn duplicate(&self) -> (r: Option<Renderer>)
        ensures
            r is Some <==> !spec_has_custom(self@),
            r is Some ==> r->0@ == self@,
        decreases self,
    {
        match self {
            Renderer::LoadAndApplyTemplate(t) => Some(Renderer::LoadAndApplyTemplate(t)),
            Renderer::Pipeline(list) => {
                let ghost lv = self@->Pipeline_0;
                proof {
                    lemma_pipeline_view(list@);
                }
                let mut v: Vec<Renderer> = Vec::new();
                let mut i: usize = 0;
                while i < list.len()
                    invariant
                        self is Pipeline && self->Pipeline_0 == *list,
                        self@ is Pipeline && self@->Pipeline_0 == lv,
                        lv.len() == list@.len(),
                        forall|j: int| 0 <= j < list@.len() ==> lv[j] == (#[trigger] list@[j])@,
                        i <= list@.len(),
                        v@.len() == i,
                        forall|j: int| 0 <= j < i ==> !spec_has_custom(#[trigger] lv[j]),
                        forall|j: int| 0 <= j < i ==> (#[trigger] v@[j])@ == lv[j],
                    decreases list@.len() - i,
                {
                    proof {
                        assert(decreases_to!(*self => *list));
                        assert(decreases_to!(*list => list@[i as int]));
                    }
                    match list[i].duplicate() {
                        Some(copy) => {
                            v.push(copy);
                        },
                        None => {
                            proof {
                                assert(spec_has_custom(lv[i as int]));
                            }
                            return None;
                        },
                    }
                    i = i + 1;
                }
                let r = Renderer::Pipeline(v);
                proof {
                    lemma_pipeline_view(v@);
                    assert forall|j: int| 0 <= j < lv.len() implies pipeline_view(v@)[j]
                        == lv[j] by {
                        assert(pipeline_view(v@)[j] == renderer_view(v@[j]));
                        assert(v@[j]@ == lv[j]);
                    }
                    assert(r@->Pipeline_0 =~= lv);
                }
                Some(r)
            },
            Renderer::Custom(_) => None,
            Renderer::Verbatim => Some(Renderer::Verbatim),
        }
    }

    /// Render a context: apply the named template, chain the stages of a
    /// pipeline through the `body` entry, run a custom step, or yield nothing
    /// for a verbatim renderer. A verbatim renderer and an empty pipeline
    /// always succeed with the empty string and an untouched context; a
    /// template render leaves the context untouched and names the template
    /// on failure; and without a custom step, rendering changes the context
    /// at the `body` entry alone.
    pub fn render(&self, state: &State, context: &mut Metadata) -> (r: Result<String, Error>)
        requires
            old(context).wf(),
        ensures
            final(context).wf(),
            self@ is Verbatim ==> r is Ok && r->Ok_0@ == Seq::<char>::empty() && *final(context)
                == *old(context),
            self@ is Template ==> *final(context) == *old(context),
            self@ is Template && r is Err ==> (r->Err_0 matches Error::Template {
                template,
                message,
            } && template@ == self@->Template_0),
            self@ is Pipeline && self@->Pipeline_0.len() == 0 ==> r is Ok && r->Ok_0@
                == Seq::<char>::empty() && *final(context) == *old(context),
            !spec_has_custom(self@) ==> forall|k: Seq<char>|
                k != "body"@ ==> #[trigger] crate::metadata::spec_get(final(context)@, k)
                    == crate::metadata::spec_get(old(context)@, k),
        decreases self,
    {
        match self {
            Renderer::LoadAndApplyTemplate(path) => state.templates_render(path, context),
            Renderer::Pipeline(list) => {
                let ghost lv = self@->Pipeline_0;
                proof {
                    lemma_pipeline_view(list@);
                }
                let n = list.len();
                let mut i: usize = 0;
                while i < n
                    invariant
                        self is Pipeline && self->Pipeline_0 == *list,
                        self@ is Pipeline && self@->Pipeline_0 == lv,
                        lv.len() == list@.len(),
                        forall|j: int| 0 <= j < list@.len() ==> lv[j] == (#[trigger] list@[j])@,
                        n == list@.len(),
                        i <= n,
                        n > 0 ==> i < n,
                        n == 0 ==> *context == *old(context),
                        context.wf(),
                        !spec_has_custom(self@) ==> forall|k: Seq<char>|
                            k != "body"@ ==> #[trigger] crate::metadata::spec_get(context@, k)
                                == crate::metadata::spec_get(old(context)@, k),
                    decreases n - i,
                {
                    proof {
                        assert(decreases_to!(*self => *list));
                        assert(decreases_to!(*list => list@[i as int]));
                        if !spec_has_custom(self@) {
                            assert(!spec_has_custom(lv[i as int]));
                        }
                    }
                    let out = match list[i].render(state, context) {
                        Ok(o) => o,
                        Err(e) => {
                            return Err(e);
                        },
                    };
                    if i == n - 1 {
                        return Ok(out);
                    }
                    let ghost before = context@;
                    let key = String::from_str("body");
                    let ghost keyg = key;
                    context.insert(key, MetaValue::Str(out));
                    proof {
                        if !spec_has_custom(self@) {
                            assert forall|k: Seq<char>| k != "body"@ implies #[trigger] crate::metadata::spec_get(
                                context@,
                                k,
                            ) == crate::metadata::spec_get(old(context)@, k) by {
                                crate::metadata::lemma_spec_insert_other(
                                    before,
                                    keyg,
                                    MetaValue::Str(out),
                                    k,
                                );
                            }
                        }
                    }
                    i = i + 1;
                }
                Ok(String::new())
            },
            Renderer::Custom(c) => c.call(context),
            Renderer::Verbatim => Ok(String::new()),
        }
    }
}

} // verus!
