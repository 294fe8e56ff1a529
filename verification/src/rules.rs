use vstd::prelude::*;
use vstd::string::StringExecFns;
use crate::compilers::Compiler;
use crate::error::Error;
use crate::match_patterns::pattern_wf;
use crate::match_patterns::spec_matches;
use crate::match_patterns::MatchPattern;
use crate::metadata::Metadata;
use crate::metadata::MetaValue;
use crate::paths::str_eq;
use crate::renderers::BFn;
use crate::renderers::Renderer;
use crate::route::spec_route;
use crate::route::Route;
use crate::spec_copy_registered;
use crate::State;
use crate::StateV;

verus! {

/// A build rule: one generation step, run against the build state in program
/// order. Rules discover resources and register artifacts and actions; they
/// may alter the state however they like, but must leave it well-formed.
pub trait Rule {
    /// Run the rule.
    fn run(self, state: &mut State) -> (r: Result<(), Error>)
        requires
            old(state).inv(),
        ensures
            final(state).inv(),
    ;
}

/// One discovered resource, as the embedding program's directory walk hands
/// it to a rule: its project-root-relative path and its content timestamps
/// (typically read from version control and the filesystem).
pub struct ResourceEntry {
    /// Path relative to the project root.
    pub rel_path: String,
    /// Source modification time, when readable.
    pub modified_date: Option<i64>,
    /// Content timestamp for commit ordering.
    pub updated_date: i64,
}

/// The render step of a feed rule: yields the `body` entry of the context.
pub struct BodyRenderer;

/// The `body` entry of a context, as the feed's render step returns it: the
/// string stored under `body`, or a descriptive error when the entry is
/// missing or is not a string.
pub fn body_entry(context: &Metadata) -> (r: Result<String, Error>)
    ensures
        match crate::metadata::spec_get(context@, "body"@) {
            Option::Some(MetaValue::Str(s)) => r is Ok && r->Ok_0@ == s@,
            _ => r is Err && (r->Err_0 matches Error::Compiler(m) && m@
                == "internal error while building a feed: metadata does not contain `body`"@),
        },
{
    match context.get("body") {
        Some(MetaValue::Str(s)) => Ok(s.clone()),
        _ => Err(
            Error::Compiler(
                String::from_str(
                    "internal error while building a feed: metadata does not contain `body`",
                ),
            ),
        ),
    }
}

impl BFn for BodyRenderer {
    fn call(&self, context: &mut Metadata) -> (r: Result<String, Error>) {
        body_entry(context)
    }
}

/// The rule that compiles one resource into itself as destination, without a
/// template.
pub struct CreateRule<C: Compiler> {
    /// The resource, which is also the destination.
    pub path: String,
    /// The compile step.
    pub compiler: C,
    /// Source modification time, when readable.
    pub modified_date: Option<i64>,
    /// Content timestamp for commit ordering.
    pub updated_date: i64,
}

impl<C: Compiler> Rule for CreateRule<C> {
    fn run(self, state: &mut State) -> (r: Result<(), Error>) {
        let CreateRule { path, mut compiler, modified_date, updated_date } = self;
        match state.add_page(
            path.clone(),
            path,
            &mut compiler,
            Renderer::Verbatim,
            modified_date,
            updated_date,
        ) {
            Ok(_) => Ok(()),
            Err(e) => Err(e),
        }
    }
}

/// A rule that compiles `path` into itself.
pub fn create<C: Compiler>(
    path: String,
    compiler: C,
    modified_date: Option<i64>,
    updated_date: i64,
) -> (r: CreateRule<C>)
    ensures
        r.path == path,
        r.compiler == compiler,
        r.modified_date == modified_date,
        r.updated_date == updated_date,
{
    CreateRule { path, compiler, modified_date, updated_date }
}

/// The rule that copies every candidate resource matching a pattern to the
/// destination its route yields.
pub struct CopyRule {
    /// What to copy.
    pub pattern: MatchPattern,
    /// Every candidate the directory walk found.
    pub candidates: Vec<ResourceEntry>,
    /// Where each match goes.
    pub route: Route,
}

/// One copy registration as the copy rule performs it: the destination is
/// the routed source path (a custom route chooses its own), and the state
/// change is exactly `State::copy_page`'s.
pub open spec fn spec_copy_step(pre: StateV, post: StateV, e: ResourceEntry, route: Route) -> bool {
    exists|dest: String|
        {
            &&& (route is Custom || dest@ == spec_route(route, e.rel_path@))
            &&& #[trigger] spec_copy_registered(
                pre,
                post,
                e.rel_path@,
                dest,
                e.modified_date,
                e.updated_date,
            )
        }
}

/// What the copy rule does: for every candidate in order, a copy
/// registration at the routed destination when the pattern matches, and no
/// change for a candidate that does not match.
pub open spec fn spec_copies_registered(
    pre: StateV,
    post: StateV,
    candidates: Seq<ResourceEntry>,
    pattern: MatchPattern,
    route: Route,
) -> bool
    decreases candidates.len(),
{
    if candidates.len() == 0 {
        post == pre
    } else if spec_matches(pattern, candidates.first().rel_path@) {
        exists|mid: StateV|
            #[trigger] spec_copy_step(pre, mid, candidates.first(), route)
                && spec_copies_registered(mid, post, candidates.drop_first(), pattern, route)
    } else {
        spec_copies_registered(pre, post, candidates.drop_first(), pattern, route)
    }
}

/// Register the matching candidates as copies, in order.
fn run_copies(state: &mut State, pattern: &MatchPattern, candidates: Vec<ResourceEntry>, route: &Route)
    requires
        old(state).inv(),
    ensures
        final(state).inv(),
        pattern_wf(*pattern) ==> spec_copies_registered(
            old(state)@,
            final(state)@,
            candidates@,
            *pattern,
            *route,
        ),
    decreases candidates@.len(),
{
    let ghost pre = state@;
    let ghost full = candidates@;
    let mut candidates = candidates;
    if candidates.len() == 0 {
        return ;
    }
    let e = candidates.remove(0);
    let ghost eg = e;
    proof {
        assert(candidates@ =~= full.drop_first());
        assert(full.first() == eg);
    }
    if pattern.matches(e.rel_path.as_str()) {
        let dest = route.apply(e.rel_path.as_str());
        let ghost destg = dest;
        state.copy_page(e.rel_path, dest, e.modified_date, e.updated_date);
        proof {
            if pattern_wf(*pattern) {
                assert(route is Custom || destg@ == spec_route(*route, eg.rel_path@));
                assert(spec_copy_registered(
                    pre,
                    state@,
                    eg.rel_path@,
                    destg,
                    eg.modified_date,
                    eg.updated_date,
                ));
                assert(spec_copy_step(pre, state@, eg, *route));
            }
        }
    }
    let ghost mid = state@;
    run_copies(state, pattern, candidates, route);
    proof {
        if pattern_wf(*pattern) {
            if spec_matches(*pattern, eg.rel_path@) {
                assert(spec_copy_step(pre, mid, eg, *route) && spec_copies_registered(
                    mid,
                    state@,
                    full.drop_first(),
                    *pattern,
                    *route,
                ));
            } else {
                assert(mid == pre);
            }
        }
    }
}

impl Rule for CopyRule {
    fn run(self, state: &mut State) -> (r: Result<(), Error>) {
        let CopyRule { pattern, candidates, route } = self;
        run_copies(state, &pattern, candidates, &route);
        Ok(())
    }
}

/// A rule that copies everything matching `pattern` among the candidates to
/// destinations according to `route`.
pub fn copy(pattern: MatchPattern, candidates: Vec<ResourceEntry>, route: Route) -> (r: CopyRule)
    ensures
        r.pattern == pattern,
        r.candidates == candidates,
        r.route == route,
{
    CopyRule { pattern, candidates, route }
}

/// The rule that compiles every candidate matching a pattern whose extension
/// is `md` or `markdown`: each match is routed to its destination, compiled,
/// and registered for rendering through the pipeline.
pub struct MatchedPagesRule<C: Compiler> {
    /// What to build.
    pub pattern: MatchPattern,
    /// Every candidate the directory walk found.
    pub candidates: Vec<ResourceEntry>,
    /// Where each match goes.
    pub route: Route,
    /// How each match is rendered; duplicated per match, so it cannot hold a
    /// custom step.
    pub renderer: Renderer,
    /// The compile step for each match.
    pub compiler: C,
}

impl<C: Compiler> Rule for MatchedPagesRule<C> {
    fn run(self, state: &mut State) -> (r: Result<(), Error>) {
        let MatchedPagesRule { pattern, mut candidates, route, renderer, mut compiler } = self;
        while candidates.len() > 0
            invariant
                state.inv(),
            decreases candidates@.len(),
        {
            let e = candidates.remove(0);
            let is_page = match crate::paths::extension_of(e.rel_path.as_str()) {
                Some(ext) => str_eq(ext.as_str(), "md") || str_eq(ext.as_str(), "markdown"),
                None => false,
            };
            if is_page && pattern.matches(e.rel_path.as_str()) {
                let stage = match renderer.duplicate() {
                    Some(d) => d,
                    None => {
                        return Err(
                            Error::Configuration(
                                String::from_str(
                                    "a custom render step cannot be duplicated across matches",
                                ),
                            ),
                        );
                    },
                };
                let dest = route.apply(e.rel_path.as_str());
                match state.add_page(
                    dest,
                    e.rel_path,
                    &mut compiler,
                    stage,
                    e.modified_date,
                    e.updated_date,
                ) {
                    Ok(_) => {},
                    Err(err) => {
                        return Err(err);
                    },
                }
            }
        }
        Ok(())
    }
}

/// A rule that builds a page from every markdown candidate matching
/// `pattern`, with a route, a render pipeline and a compiler.
pub fn match_pattern<C: Compiler>(
    pattern: MatchPattern,
    candidates: Vec<ResourceEntry>,
    route: Route,
    renderer: Renderer,
    compiler: C,
) -> (r: MatchedPagesRule<C>)
    ensures
        r.pattern == pattern,
        r.candidates == candidates,
        r.route == route,
        r.renderer == renderer,
        r.compiler == compiler,
{
    MatchedPagesRule { pattern, candidates, route, renderer, compiler }
}

/// The rule that builds a feed page at `path`: the compiler (the embedding
/// program's feed builder) produces the feed body, and a custom render step
/// extracts it at commit time.
pub struct RssFeedRule<C: Compiler> {
    /// The feed's path: both resource and destination.
    pub path: String,
    /// The feed builder.
    pub compiler: C,
    /// Source modification time, when readable.
    pub modified_date: Option<i64>,
    /// Content timestamp for commit ordering.
    pub updated_date: i64,
}

impl<C: Compiler> Rule for RssFeedRule<C> {
    fn run(self, state: &mut State) -> (r: Result<(), Error>) {
        let RssFeedRule { path, mut compiler, modified_date, updated_date } = self;
        match state.add_page(
            path.clone(),
            path,
            &mut compiler,
            Renderer::Custom(Box::new(BodyRenderer)),
            modified_date,
            updated_date,
        ) {
            Ok(_) => Ok(()),
            Err(e) => Err(e),
        }
    }
}

/// A rule that builds a feed page at `path` with the given feed compiler.
pub fn build_rss_feed<C: Compiler>(
    path: String,
    compiler: C,
    modified_date: Option<i64>,
    updated_date: i64,
) -> (r: RssFeedRule<C>)
    ensures
        r.path == path,
        r.compiler == compiler,
        r.modified_date == modified_date,
        r.updated_date == updated_date,
{
    RssFeedRule { path, compiler, modified_date, updated_date }
}

} // verus!
