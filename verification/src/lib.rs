//! A verified build-state engine for static site generators.
//!
//! The engine tracks discovered resources as artifacts with deterministic,
//! path-derived identifiers, decides which outputs are stale by comparing
//! recorded modification times (with a force override), keeps named
//! snapshots of artifact identifiers for cross-rule aggregation (a feed rule
//! reading the posts built before it), and commits pending build actions in
//! ascending content-timestamp order — stably, draining the queue exactly
//! once, with at most one action per destination path.
//!
//! The embedding program supplies what only it can know: configuration read
//! from the environment, modification times probed from disk, content
//! timestamps from version control, the directory walk, and the execution of
//! the write plan that [`State::finish`] returns. Template rendering runs
//! through minijinja behind a small trusted boundary; everything the engine
//! decides — staleness, identity, ordering, snapshot contents — is stated in
//! contracts and proved.

use vstd::prelude::*;
use vstd::string::StringExecFns;

pub mod compilers;
pub mod error;
pub mod metadata;
pub mod paths;
pub mod match_patterns;
pub mod renderers;
pub mod route;
pub mod rules;
pub mod store;

verus! {

use crate::compilers::Compiler;
use crate::error::Error;
use crate::metadata::Metadata;
use crate::metadata::MetaValue;
use crate::paths::spec_resolve;
use crate::renderers::Renderer;
use crate::rules::Rule;
use crate::store::Actions;
use crate::store::Artifacts;
use crate::store::Mtimes;
use crate::store::Snapshots;
use crate::store::action_key;
use crate::store::artifact_key;
use crate::store::assoc_index;
use crate::store::assoc_lookup;
use crate::store::assoc_unique;
use crate::store::assoc_update;
use crate::store::artifact_order;
use crate::store::insert_sorted;
use crate::store::lemma_stable_sort;
use crate::store::mtime_key;
use crate::store::stable_sort;
use crate::store::snapshot_key;
use crate::store::spec_snapshot_append;

/// An artifact generated during the build process.
pub struct BuildArtifact {
    /// Deterministic identifier derived from the resource path.
    pub uuid: u128,
    /// Output path, relative to the output directory.
    pub path: String,
    /// Path of the originating resource, relative to the project root.
    pub resource: String,
    /// Metadata produced by the compile step; carries the `body` entry once
    /// compiled.
    pub metadata: Metadata,
    /// Source modification time, when it could be read.
    pub modified_date: Option<i64>,
    /// Content timestamp that orders artifacts and actions during commit.
    pub updated_date: i64,
}

/// A build action to be performed in the commit phase.
pub struct BuildAction {
    /// The artifact this action materializes.
    pub src: u128,
    /// How to produce the bytes: a renderer, or none for a verbatim copy.
    pub to: Renderer,
}

/// The configuration the engine is constructed with; the embedding program
/// reads it from the environment once at startup.
pub struct Config {
    /// Resolved templates directory.
    pub templates_dir: String,
    /// Resolved output directory.
    pub output_dir: String,
    /// The output directory as configured, for messages.
    pub output_dirname: String,
    /// Resolved working directory: the project root.
    pub current_dir: String,
    /// Rebuild everything, regardless of modification times.
    pub force_generate: bool,
    /// Message verbosity.
    pub verbosity: u8,
}

/// The mathematical model of a [`State`].
pub ghost struct StateV {
    pub snapshots: Seq<(Seq<char>, Seq<u128>)>,
    pub artifacts: Seq<BuildArtifact>,
    pub build_actions: Seq<(String, BuildAction)>,
    pub templates_dir: Seq<char>,
    pub output_dir: Seq<char>,
    pub output_dirname: Seq<char>,
    pub current_dir: Seq<char>,
    pub mtimes: Seq<(Seq<char>, i64)>,
    pub err: Option<Error>,
    pub force_generate: bool,
    pub verbosity: u8,
    pub url_root: Seq<char>,
}

/// The identifiers of the named snapshot, when it exists.
pub open spec fn spec_snapshot_ids(v: StateV, name: Seq<char>) -> Option<Seq<u128>> {
    match assoc_lookup(v.snapshots, snapshot_key(), name) {
        Option::Some(e) => Option::Some(e.1),
        Option::None => Option::None,
    }
}

/// The recorded modification time of a resolved path, when there is one.
pub open spec fn spec_mtime_of(v: StateV, path: Seq<char>) -> Option<i64> {
    match assoc_lookup(v.mtimes, mtime_key(), path) {
        Option::Some(e) => Option::Some(e.1),
        Option::None => Option::None,
    }
}

/// Whether a destination must be (re)built from a resource: always under the
/// force flag; otherwise when the destination's or the resource's
/// modification time is unknown, or the resource is strictly newer. A tie
/// favors the cache.
pub open spec fn spec_is_stale(v: StateV, dest: Seq<char>, resource: Seq<char>) -> bool {
    if v.force_generate {
        true
    } else {
        let dest_abs = spec_resolve(v.output_dir, dest);
        let res_abs = spec_resolve(v.current_dir, resource);
        match spec_mtime_of(v, dest_abs) {
            Option::None => true,
            Option::Some(dm) => match spec_mtime_of(v, res_abs) {
                Option::None => true,
                Option::Some(sm) => sm > dm,
            },
        }
    }
}

/// A resource path made relative to the project root: a leading working
/// directory prefix (as left behind by earlier pipeline stages) is stripped,
/// any other path is kept as it is.
pub open spec fn spec_normalize(v: StateV, resource: Seq<char>) -> Seq<char> {
    match crate::paths::spec_strip_prefix(resource, v.current_dir) {
        Option::Some(rest) => rest,
        Option::None => resource,
    }
}

/// Whether a compiled page must be rebuilt: when its destination is stale
/// against the resource, or against any stage of its render pipeline.
pub open spec fn spec_page_stale(
    v: StateV,
    dest: Seq<char>,
    resource: Seq<char>,
    renderer: crate::renderers::RendererV,
) -> bool {
    spec_is_stale(v, dest, resource) || crate::renderers::spec_renderer_stale(v, renderer, dest)
}

/// What registering a verbatim copy does to the state: exactly one artifact
/// entry is stored under the derived identifier (in place when re-registered,
/// appended when new), a copy action is enqueued for the destination exactly
/// when the destination is stale, and nothing else changes. In the cached
/// case the artifact's source is the destination itself.
pub open spec fn spec_copy_registered(
    pre: StateV,
    post: StateV,
    resource: Seq<char>,
    dest: String,
    modified_date: Option<i64>,
    updated_date: i64,
) -> bool {
    let norm = spec_normalize(pre, resource);
    let id = uuid_of(norm);
    let stale = spec_is_stale(pre, dest@, norm);
    let had = assoc_index(pre.artifacts, artifact_key(), id);
    let i = if had == -1 {
        pre.artifacts.len() as int
    } else {
        had
    };
    &&& post.artifacts.len() == (if had == -1 {
        pre.artifacts.len() + 1
    } else {
        pre.artifacts.len()
    })
    &&& forall|j: int|
        0 <= j < post.artifacts.len() && j != i ==> #[trigger] post.artifacts[j]
            == pre.artifacts[j]
    &&& 0 <= i < post.artifacts.len()
    &&& post.artifacts[i].uuid == id
    &&& post.artifacts[i].path == dest
    &&& post.artifacts[i].resource@ == (if stale {
        norm
    } else {
        dest@
    })
    &&& post.artifacts[i].metadata@ == Seq::<(String, crate::metadata::MetaValue)>::empty()
    &&& post.artifacts[i].modified_date == modified_date
    &&& post.artifacts[i].updated_date == updated_date
    &&& post.build_actions == (if stale {
        assoc_update(
            pre.build_actions,
            action_key(),
            dest@,
            (dest, BuildAction { src: id, to: Renderer::Verbatim }),
        )
    } else {
        pre.build_actions
    })
    &&& post == (StateV { artifacts: post.artifacts, build_actions: post.build_actions, ..pre })
}

/// Well-formedness of the build state: every store keyed uniquely, every
/// pending action backed by a registered artifact, and every artifact's
/// metadata a well-formed map.
pub open spec fn spec_inv(v: StateV) -> bool {
    &&& assoc_unique(v.artifacts, artifact_key())
    &&& assoc_unique(v.build_actions, action_key())
    &&& assoc_unique(v.snapshots, snapshot_key())
    &&& assoc_unique(v.mtimes, mtime_key())
    &&& forall|i: int|
        0 <= i < v.build_actions.len() ==> assoc_index(
            v.artifacts,
            artifact_key(),
            (#[trigger] v.build_actions[i]).1.src,
        ) >= 0
    &&& forall|i: int| 0 <= i < v.artifacts.len() ==> (#[trigger] v.artifacts[i]).metadata.wf()
}

/// The state of a site render: the build orchestrator that owns the artifact
/// store, the snapshot index and the action queue.
pub struct State {
    snapshots: Snapshots,
    artifacts: Artifacts,
    build_actions: Actions,
    templates: minijinja::Environment<'static>,
    templates_dir: String,
    output_dir: String,
    output_dirname: String,
    current_dir: String,
    mtimes: Mtimes,
    err: Option<Error>,
    force_generate: bool,
    verbosity: u8,
    url_root: String,
}

impl View for State {
    type V = StateV;

    closed spec fn view(&self) -> StateV {
        StateV {
            snapshots: self.snapshots@,
            artifacts: self.artifacts@,
            build_actions: self.build_actions@,
            templates_dir: self.templates_dir@,
            output_dir: self.output_dir@,
            output_dirname: self.output_dirname@,
            current_dir: self.current_dir@,
            mtimes: self.mtimes@,
            err: self.err,
            force_generate: self.force_generate,
            verbosity: self.verbosity,
            url_root: self.url_root@,
        }
    }
}

impl State {
    /// Well-formedness; established by the constructor and preserved by every
    /// method.
    pub open spec fn inv(&self) -> bool {
        spec_inv(self@)
    }

    /// A fresh state over the given configuration and template environment;
    /// no artifacts, snapshots, actions or recorded times, and no latched
    /// error.
    pub fn new(config: Config, templates: minijinja::Environment<'static>) -> (r: State)
        ensures
            r@.snapshots == Seq::<(Seq<char>, Seq<u128>)>::empty(),
            r@.artifacts == Seq::<BuildArtifact>::empty(),
            r@.build_actions == Seq::<(String, BuildAction)>::empty(),
            r@.mtimes == Seq::<(Seq<char>, i64)>::empty(),
            r@.templates_dir == config.templates_dir@,
            r@.output_dir == config.output_dir@,
            r@.output_dirname == config.output_dirname@,
            r@.current_dir == config.current_dir@,
            r@.err is None,
            r@.force_generate == config.force_generate,
            r@.verbosity == config.verbosity,
            r@.url_root == Seq::<char>::empty(),
            r.inv(),
    {
        let r = State {
            snapshots: Snapshots::new(),
            artifacts: Artifacts::new(),
            build_actions: Actions::new(),
            templates,
            templates_dir: config.templates_dir,
            output_dir: config.output_dir,
            output_dirname: config.output_dirname,
            current_dir: config.current_dir,
            mtimes: Mtimes::new(),
            err: None,
            force_generate: config.force_generate,
            verbosity: config.verbosity,
            url_root: String::new(),
        };
        r
    }

    /// The state with the given URL root, injected into every render context
    /// at commit time.
    pub fn url_root(self, url_root: String) -> (r: Self)
        ensures
            r@ == (StateV { url_root: url_root@, ..self@ }),
    {
        State { url_root, ..self }
    }

    /// Sets the force flag.
    pub fn set_force_generate(&mut self, force_generate: bool)
        ensures
            final(self)@ == (StateV { force_generate, ..old(self)@ }),
    {
        self.force_generate = force_generate;
    }

    /// Sets the verbosity level.
    pub fn set_verbosity(&mut self, verbosity: u8)
        ensures
            final(self)@ == (StateV { verbosity, ..old(self)@ }),
    {
        self.verbosity = verbosity;
    }

    /// The verbosity level.
    pub fn verbosity(&self) -> (r: u8)
        ensures
            r == self@.verbosity,
    {
        self.verbosity
    }

    /// The artifact store.
    pub fn artifacts(&self) -> (r: &Artifacts)
        ensures
            r@ == self@.artifacts,
    {
        &self.artifacts
    }

    /// The snapshot index.
    pub fn snapshots(&self) -> (r: &Snapshots)
        ensures
            r@ == self@.snapshots,
    {
        &self.snapshots
    }

    /// The resolved output directory.
    pub fn output_dir(&self) -> (r: &str)
        ensures
            r@ == self@.output_dir,
    {
        self.output_dir.as_str()
    }

    /// The resolved working directory.
    pub fn current_dir(&self) -> (r: &str)
        ensures
            r@ == self@.current_dir,
    {
        self.current_dir.as_str()
    }

    /// The resolved templates directory.
    pub fn templates_dir(&self) -> (r: &str)
        ensures
            r@ == self@.templates_dir,
    {
        self.templates_dir.as_str()
    }

    /// Initialize a snapshot: the named snapshot exists afterwards, empty
    /// unless it already had contents.
    pub fn add_snapshot(&mut self, key: &str)
        requires
            old(self).inv(),
        ensures
            final(self)@ == (StateV {
                snapshots: if assoc_index(old(self)@.snapshots, snapshot_key(), key@) == -1 {
                    old(self)@.snapshots.push((key@, Seq::<u128>::empty()))
                } else {
                    old(self)@.snapshots
                },
                ..old(self)@
            }),
            final(self).inv(),
    {
        let ghost pre = self@;
        self.snapshots.ensure_exists(key);
        proof {
            if assoc_index(pre.snapshots, snapshot_key(), key@) == -1 {
                crate::store::lemma_assoc_index(pre.snapshots, snapshot_key(), key@);
                crate::store::lemma_assoc_update_unique(
                    pre.snapshots,
                    snapshot_key(),
                    key@,
                    (key@, Seq::<u128>::empty()),
                );
                assert(self@.snapshots == assoc_update(
                    pre.snapshots,
                    snapshot_key(),
                    key@,
                    (key@, Seq::<u128>::empty()),
                ));
            }
        }
    }

    /// Append an artifact identifier to a snapshot, creating the snapshot
    /// when it does not exist yet. Order is preserved and duplicates are
    /// kept.
    pub fn add_to_snapshot(&mut self, key: String, artifact: u128)
        requires
            old(self).inv(),
        ensures
            final(self)@ == (StateV {
                snapshots: spec_snapshot_append(old(self)@.snapshots, key@, artifact),
                ..old(self)@
            }),
            final(self).inv(),
    {
        let ghost pre = self@;
        self.snapshots.append(key, artifact);
        proof {
            crate::store::lemma_assoc_index(pre.snapshots, snapshot_key(), key@);
            let i = assoc_index(pre.snapshots, snapshot_key(), key@);
            if i == -1 {
                crate::store::lemma_assoc_update_unique(
                    pre.snapshots,
                    snapshot_key(),
                    key@,
                    (key@, seq![artifact]),
                );
                assert(self@.snapshots == assoc_update(
                    pre.snapshots,
                    snapshot_key(),
                    key@,
                    (key@, seq![artifact]),
                ));
            } else {
                crate::store::lemma_assoc_update_unique(
                    pre.snapshots,
                    snapshot_key(),
                    pre.snapshots[i].0,
                    (pre.snapshots[i].0, pre.snapshots[i].1.push(artifact)),
                );
                assert(self@.snapshots == assoc_update(
                    pre.snapshots,
                    snapshot_key(),
                    pre.snapshots[i].0,
                    (pre.snapshots[i].0, pre.snapshots[i].1.push(artifact)),
                ));
            }
        }
    }

    /// The identifiers appended to the named snapshot, in insertion order,
    /// duplicates included. Reading a snapshot that was never appended to or
    /// initialized fails with a "no such snapshot" error: the name is either
    /// misspelled or its producing rule registered nothing.
    pub fn get_snapshot(&self, key: &str) -> (r: Result<&Vec<u128>, Error>)
        ensures
            r is Ok <==> spec_snapshot_ids(self@, key@) is Some,
            r is Ok ==> r->Ok_0@ == spec_snapshot_ids(self@, key@)->0,
            r is Err ==> (r->Err_0 matches Error::NoSuchSnapshot(name) && name@ == key@),
    {
        match self.snapshots.get(key) {
            Some(ids) => Ok(ids),
            None => Err(Error::NoSuchSnapshot(key.to_owned())),
        }
    }

    /// Record the modification time of a resolved path, as probed by the
    /// embedding program; the staleness oracle consults these records.
    pub fn record_mtime(&mut self, path: String, mtime: i64)
        requires
            old(self).inv(),
        ensures
            final(self)@ == (StateV {
                mtimes: assoc_update(old(self)@.mtimes, mtime_key(), path@, (path@, mtime)),
                ..old(self)@
            }),
            final(self).inv(),
    {
        let ghost pre = self@;
        let ghost p = path@;
        self.mtimes.record(path, mtime);
        proof {
            crate::store::lemma_assoc_update_unique(pre.mtimes, mtime_key(), p, (p, mtime));
        }
    }

    /// Check whether `dest` must be (re)built from `resource`: true under
    /// the force flag, or when either modification time is unknown, or when
    /// the resource is strictly newer than the destination. The paths are
    /// resolved against the output directory and the working directory.
    pub fn check_mtime(&self, dest: &str, resource: &str) -> (r: bool)
        ensures
            r == spec_is_stale(self@, dest@, resource@),
    {
        if self.force_generate {
            return true;
        }
        let dest_abs = crate::paths::resolve(self.output_dir.as_str(), dest);
        let res_abs = crate::paths::resolve(self.current_dir.as_str(), resource);
        match self.mtimes.lookup(dest_abs.as_str()) {
            None => true,
            Some(dm) => match self.mtimes.lookup(res_abs.as_str()) {
                None => true,
                Some(sm) => sm > dm,
            },
        }
    }

    /// A resource path made relative to the project root, as both
    /// registration functions normalize their input.
    pub fn normalize_resource(&self, resource: &str) -> (r: String)
        ensures
            r@ == spec_normalize(self@, resource@),
    {
        match crate::paths::strip_prefix(resource, self.current_dir.as_str()) {
            Some(rest) => rest,
            None => resource.to_owned(),
        }
    }

    /// Register a verbatim copy of a resource to a destination. The artifact
    /// identifier is derived from the normalized resource path. When the
    /// destination is stale a copy action is enqueued (replacing a pending
    /// action for the same destination); otherwise only the artifact is
    /// recorded, with its source set to the destination itself, signaling
    /// that nothing needs copying.
    pub fn copy_page(
        &mut self,
        resource: String,
        dest: String,
        modified_date: Option<i64>,
        updated_date: i64,
    ) -> (r: u128)
        requires
            old(self).inv(),
        ensures
            final(self).inv(),
            r == uuid_of(spec_normalize(old(self)@, resource@)),
            spec_copy_registered(old(self)@, final(self)@, resource@, dest, modified_date, updated_date),
    {
        let norm = self.normalize_resource(resource.as_str());
        let id = uuid_from_path(norm.as_str());
        let stale = self.check_mtime(dest.as_str(), norm.as_str());
        let ghost pre = self@;
        if stale {
            let artifact = BuildArtifact {
                uuid: id,
                path: dest.clone(),
                resource: norm,
                metadata: Metadata::new(),
                modified_date,
                updated_date,
            };
            let ghost av = artifact;
            self.artifacts.insert(artifact);
            proof {
                crate::store::lemma_assoc_index(pre.artifacts, artifact_key(), id);
                crate::store::lemma_assoc_update_unique(pre.artifacts, artifact_key(), id, av);
            }
            let ghost mid = self@;
            let action = BuildAction { src: id, to: Renderer::Verbatim };
            let ghost actv = (dest, action);
            self.build_actions.insert(dest, action);
            proof {
                crate::store::lemma_assoc_update_unique(
                    pre.build_actions,
                    action_key(),
                    actv.0@,
                    actv,
                );
                self.lemma_registration_inv(pre, av, Some(actv));
            }
        } else {
            let artifact = BuildArtifact {
                uuid: id,
                path: dest.clone(),
                resource: dest,
                metadata: Metadata::new(),
                modified_date,
                updated_date,
            };
            let ghost av = artifact;
            self.artifacts.insert(artifact);
            proof {
                crate::store::lemma_assoc_index(pre.artifacts, artifact_key(), id);
                crate::store::lemma_assoc_update_unique(pre.artifacts, artifact_key(), id, av);
                self.lemma_registration_inv(pre, av, None);
            }
        }
        id
    }

    /// Register a compiled page: store the artifact (its identifier derived
    /// from the already-normalized resource path) with the metadata the
    /// compile step produced, and enqueue a render action when the page is
    /// stale — on the resource's account or on any template stage's. The
    /// metadata is stored either way, so later rules see it even for cached
    /// pages.
    pub fn register_page(
        &mut self,
        dest: String,
        resource: String,
        metadata: Metadata,
        renderer: Renderer,
        modified_date: Option<i64>,
        updated_date: i64,
    ) -> (r: u128)
        requires
            old(self).inv(),
            metadata.wf(),
        ensures
            final(self).inv(),
            r == uuid_of(resource@),
            final(self)@.artifacts == assoc_update(
                old(self)@.artifacts,
                artifact_key(),
                uuid_of(resource@),
                BuildArtifact {
                    uuid: uuid_of(resource@),
                    path: dest,
                    resource,
                    metadata,
                    modified_date,
                    updated_date,
                },
            ),
            final(self)@.build_actions == (if spec_page_stale(
                old(self)@,
                dest@,
                resource@,
                renderer@,
            ) {
                assoc_update(
                    old(self)@.build_actions,
                    action_key(),
                    dest@,
                    (dest, BuildAction { src: uuid_of(resource@), to: renderer }),
                )
            } else {
                old(self)@.build_actions
            }),
            final(self)@ == (StateV {
                artifacts: final(self)@.artifacts,
                build_actions: final(self)@.build_actions,
                ..old(self)@
            }),
    {
        let id = uuid_from_path(resource.as_str());
        let stale = self.check_mtime(dest.as_str(), resource.as_str()) || renderer.check_mtime(
            self,
            dest.as_str(),
        );
        let ghost pre = self@;
        if stale {
            let artifact = BuildArtifact {
                uuid: id,
                path: dest.clone(),
                resource,
                metadata,
                modified_date,
                updated_date,
            };
            let ghost av = artifact;
            self.artifacts.insert(artifact);
            proof {
                crate::store::lemma_assoc_index(pre.artifacts, artifact_key(), id);
                crate::store::lemma_assoc_update_unique(pre.artifacts, artifact_key(), id, av);
            }
            let action = BuildAction { src: id, to: renderer };
            let ghost actv = (dest, action);
            self.build_actions.insert(dest, action);
            proof {
                crate::store::lemma_assoc_update_unique(
                    pre.build_actions,
                    action_key(),
                    actv.0@,
                    actv,
                );
                self.lemma_registration_inv(pre, av, Some(actv));
            }
        } else {
            let artifact = BuildArtifact {
                uuid: id,
                path: dest,
                resource,
                metadata,
                modified_date,
                updated_date,
            };
            let ghost av = artifact;
            self.artifacts.insert(artifact);
            proof {
                crate::store::lemma_assoc_index(pre.artifacts, artifact_key(), id);
                crate::store::lemma_assoc_update_unique(pre.artifacts, artifact_key(), id, av);
                self.lemma_registration_inv(pre, av, None);
            }
        }
        id
    }

    /// Register a compiled page from a resource: normalize the resource path,
    /// run the compiler on it (always — later rules may need the metadata
    /// even for a cached page), and store the result. A compiler failure is
    /// propagated and aborts the current rule; artifacts registered before it
    /// remain valid.
    pub fn add_page<C: Compiler>(
        &mut self,
        dest: String,
        resource: String,
        compiler: &mut C,
        renderer: Renderer,
        modified_date: Option<i64>,
        updated_date: i64,
    ) -> (r: Result<u128, Error>)
        requires
            old(self).inv(),
        ensures
            final(self).inv(),
            r is Ok ==> {
                let id = uuid_of(spec_normalize(old(self)@, resource@));
                &&& r->Ok_0 == id
                &&& assoc_index(final(self)@.artifacts, artifact_key(), id) >= 0
                &&& {
                    let a = assoc_lookup(final(self)@.artifacts, artifact_key(), id)->0;
                    &&& a.uuid == id
                    &&& a.path == dest
                    &&& a.resource@ == spec_normalize(old(self)@, resource@)
                    &&& a.modified_date == modified_date
                    &&& a.updated_date == updated_date
                }
            },
    {
        let norm = self.normalize_resource(resource.as_str());
        let ghost normv = norm@;
        let metadata = match compiler.compile(self, norm.as_str()) {
            Ok(m) => m,
            Err(e) => {
                return Err(e);
            },
        };
        let ghost mid = self@;
        let ghost destv = dest;
        let ghost normg = norm;
        let ghost metag = metadata;
        let id = self.register_page(dest, norm, metadata, renderer, modified_date, updated_date);
        proof {
            let av = BuildArtifact {
                uuid: id,
                path: destv,
                resource: normg,
                metadata: metag,
                modified_date,
                updated_date,
            };
            crate::store::lemma_assoc_update_unique(mid.artifacts, artifact_key(), id, av);
        }
        Ok(id)
    }

    /// Add a rule: run it now against the current state, unless an earlier
    /// rule's error is latched — then the rule is skipped and the first error
    /// kept (fail fast, first error wins). A failing rule latches its error.
    pub fn then<R: Rule>(&mut self, rule: R)
        requires
            old(self).inv(),
        ensures
            final(self).inv(),
            old(self)@.err is Some ==> final(self)@ == old(self)@,
    {
        if self.err.is_none() {
            let outcome = rule.run(self);
            self.latch(outcome);
        }
    }

    /// Latch a rule's outcome: the first error sticks, success and later
    /// errors leave an existing latch alone, and nothing else changes.
    fn latch(&mut self, outcome: Result<(), Error>)
        ensures
            final(self)@ == (StateV {
                err: if old(self)@.err is None && outcome is Err {
                    Option::Some(outcome->Err_0)
                } else {
                    old(self)@.err
                },
                ..old(self)@
            }),
    {
        if self.err.is_none() {
            match outcome {
                Ok(()) => {},
                Err(e) => {
                    self.err = Some(e);
                },
            }
        }
    }

    /// Perform the commit phase. A latched rule error is reported (once) and
    /// nothing is committed. With no pending actions, nothing is written and
    /// the empty plan signals a no-change run, which is not an error.
    /// Otherwise the artifacts are sorted by timestamp, the action queue is
    /// drained exactly once (actions a custom step might register during
    /// rendering are not re-admitted), the drained actions are ordered by
    /// their artifact's `updated_date` — ascending, stable in registration
    /// order — and each becomes one write: rendered contents (from a copy of
    /// the artifact's metadata with the URL root injected under
    /// `ROOT_PREFIX`), or a verbatim copy of the artifact's source. A copy
    /// whose resolved destination equals its resolved source fails loudly
    /// rather than truncating the source, and a render failure aborts the
    /// whole commit.
    pub fn finish(&mut self) -> (r: Result<Vec<WriteOp>, Error>)
        requires
            old(self).inv(),
        ensures
            final(self).inv(),
            old(self)@.err is Some ==> {
                &&& r is Err
                &&& r->Err_0 == old(self)@.err->0
                &&& final(self)@ == (StateV { err: Option::None, ..old(self)@ })
            },
            old(self)@.err is None && old(self)@.build_actions.len() == 0 ==> {
                &&& r is Ok
                &&& r->Ok_0@.len() == 0
                &&& final(self)@ == old(self)@
            },
            old(self)@.err is None && old(self)@.build_actions.len() > 0 ==> {
                let sorted = stable_sort(work_of(old(self)@), work_order());
                &&& final(self)@ == (StateV {
                    artifacts: stable_sort(old(self)@.artifacts, artifact_order()),
                    build_actions: Seq::<(String, BuildAction)>::empty(),
                    ..old(self)@
                })
                &&& (r is Ok ==> {
                    &&& r->Ok_0@.len() == old(self)@.build_actions.len()
                    &&& forall|i: int|
                        0 <= i < r->Ok_0@.len() ==> spec_write_op(
                            old(self)@,
                            sorted[i],
                            #[trigger] r->Ok_0@[i],
                        )
                    &&& forall|i: int, j: int|
                        0 <= i <= j < r->Ok_0@.len() ==> r->Ok_0@[i].updated_date
                            <= r->Ok_0@[j].updated_date
                })
                &&& (spec_all_plain_copies(old(self)@, sorted) ==> r is Ok)
            },
    {
        match self.err.take() {
            Some(e) => {
                return Err(e);
            },
            None => {},
        }
        if self.build_actions.is_empty() {
            return Ok(Vec::new());
        }
        let ghost pre = self@;
        let ghost workv = work_of(pre);
        let mut rest = self.build_actions.take_all();
        let mut items: Vec<WorkItem> = Vec::new();
        while rest.len() > 0
            invariant
                pre == (StateV { err: Option::None, ..old(self)@ }),
                spec_inv(pre),
                self@ == (StateV {
                    build_actions: Seq::<(String, BuildAction)>::empty(),
                    ..pre
                }),
                workv == work_of(pre),
                workv.len() == pre.build_actions.len(),
                rest@.len() <= pre.build_actions.len(),
                rest@ =~= pre.build_actions.skip(pre.build_actions.len() - rest@.len()),
                items@.len() + rest@.len() == pre.build_actions.len(),
                forall|j: int| 0 <= j < items@.len() ==> (#[trigger] items@[j])@ == workv[j],
                forall|j: int| 0 <= j < items@.len() ==> (#[trigger] items@[j]).metadata.wf(),
            decreases rest@.len(),
        {
            let ghost k = pre.build_actions.len() - rest@.len();
            let ghost restv = rest@;
            let (dest, action) = rest.remove(0);
            let src = action.src;
            proof {
                assert(restv[0] == pre.build_actions[k]);
                assert(rest@ =~= pre.build_actions.skip(k + 1));
                assert((#[trigger] pre.build_actions[k]).1.src == src);
                assert(assoc_index(pre.artifacts, artifact_key(), src) >= 0);
                crate::store::lemma_assoc_index(pre.artifacts, artifact_key(), src);
            }
            let artifact = match self.artifacts().get(src) {
                Some(a) => a,
                None => {
                    proof {
                        assert(false);
                    }
                    return Err(
                        Error::Io(
                            String::from_str("a pending action references an unregistered artifact"),
                        ),
                    );
                },
            };
            let item = WorkItem {
                dest,
                to: action.to,
                updated_date: artifact.updated_date,
                resource: artifact.resource.clone(),
                metadata: artifact.metadata.clone(),
            };
            proof {
                let idx = assoc_index(pre.artifacts, artifact_key(), src);
                assert(*artifact == pre.artifacts[idx]);
                assert(pre.artifacts[idx].metadata.wf());
                assert(item@ == workv[k]);
            }
            items.push(item);
        }
        self.artifacts.sort_by_updated();
        proof {
            lemma_stable_sort(pre.artifacts, artifact_order());
            assert forall|i: int| 0 <= i < self@.artifacts.len() implies (#[trigger] self@.artifacts[i]).metadata.wf() by {
                assert(pre.artifacts.contains(self@.artifacts[i]));
                let m = choose|m: int|
                    0 <= m < pre.artifacts.len() && pre.artifacts[m] == self@.artifacts[i];
                assert(pre.artifacts[m].metadata.wf());
            }
        }
        proof {
            assert(self@ == (StateV {
                artifacts: stable_sort(pre.artifacts, artifact_order()),
                build_actions: Seq::<(String, BuildAction)>::empty(),
                ..pre
            }));
            assert(spec_inv(self@));
        }
        let ghost midv = self@;
        let ghost itemsv = items@;
        proof {
            assert(work_views(itemsv) =~= workv);
        }
        let mut sorted_items: Vec<WorkItem> = Vec::new();
        proof {
            assert(itemsv.take(0) =~= Seq::<WorkItem>::empty());
            assert(work_views(Seq::<WorkItem>::empty()) =~= Seq::<WorkV>::empty());
        }
        while items.len() > 0
            invariant
                self@ == midv,
                items@.len() <= itemsv.len(),
                items@ =~= itemsv.skip(itemsv.len() - items@.len()),
                forall|j: int| 0 <= j < itemsv.len() ==> (#[trigger] itemsv[j]).metadata.wf(),
                work_views(sorted_items@) == stable_sort(
                    work_views(itemsv.take(itemsv.len() - items@.len())),
                    work_order(),
                ),
                forall|j: int|
                    0 <= j < sorted_items@.len() ==> (#[trigger] sorted_items@[j]).metadata.wf(),
            decreases items@.len(),
        {
            let ghost k = itemsv.len() - items@.len();
            let ghost cur = items@;
            let x = items.remove(0);
            proof {
                assert(cur[0] == itemsv[k]);
                assert(items@ =~= itemsv.skip(k + 1));
                assert(itemsv.take(k + 1).drop_last() =~= itemsv.take(k));
                assert(itemsv.take(k + 1).last() == itemsv[k]);
                assert(work_views(itemsv.take(k + 1)).drop_last() =~= work_views(
                    itemsv.take(k + 1).drop_last(),
                ));
                assert(work_views(itemsv.take(k + 1)).last() == itemsv[k]@);
                assert(work_views(itemsv.take(k + 1)) =~= work_views(itemsv.take(k)).push(
                    itemsv[k]@,
                ));
            }
            let ghost sortedv = sorted_items@;
            insert_work_sorted(&mut sorted_items, x);
            proof {
                assert forall|j: int| 0 <= j < sorted_items@.len() implies (#[trigger] sorted_items@[j]).metadata.wf() by {
                    if sorted_items@[j] != x {
                        assert(sortedv.contains(sorted_items@[j]));
                        let m = choose|m: int|
                            0 <= m < sortedv.len() && sortedv[m] == sorted_items@[j];
                        assert(sortedv[m].metadata.wf());
                    } else {
                        assert(x.metadata.wf());
                    }
                }
                assert(work_views(sorted_items@) =~= stable_sort(
                    work_views(itemsv.take(k + 1)),
                    work_order(),
                ));
            }
        }
        let ghost sortedw = stable_sort(workv, work_order());
        proof {
            assert(itemsv.take(itemsv.len() as int) =~= itemsv);
            assert(work_views(itemsv) == workv);
            assert(work_views(sorted_items@) == sortedw);
            lemma_stable_sort(workv, work_order());
        }
        let mut plan: Vec<WriteOp> = Vec::new();
        while sorted_items.len() > 0
            invariant
                self@ == midv,
                old(self)@.err is None,
                pre == old(self)@,
                pre.build_actions.len() > 0,
                midv == (StateV {
                    artifacts: stable_sort(pre.artifacts, artifact_order()),
                    build_actions: Seq::<(String, BuildAction)>::empty(),
                    ..pre
                }),
                spec_inv(midv),
                sortedw == stable_sort(workv, work_order()),
                workv == work_of(pre),
                sorted_items@.len() <= sortedw.len(),
                plan@.len() + sorted_items@.len() == sortedw.len(),
                work_views(sorted_items@) =~= sortedw.skip(plan@.len() as int),
                forall|j: int|
                    0 <= j < sorted_items@.len() ==> (#[trigger] sorted_items@[j]).metadata.wf(),
                forall|j: int|
                    0 <= j < plan@.len() ==> spec_write_op(pre, sortedw[j], #[trigger] plan@[j]),
            decreases sorted_items@.len(),
        {
            let ghost k = plan@.len() as int;
            let ghost curv = sorted_items@;
            let item = sorted_items.remove(0);
            proof {
                assert(work_views(curv)[0] == sortedw[k]);
                assert(item@ == sortedw[k]);
                assert forall|j: int| 0 <= j < sorted_items@.len() implies work_views(
                    sorted_items@,
                )[j] == sortedw[k + 1 + j] by {
                    assert(sorted_items@[j] == curv[j + 1]);
                    assert(work_views(curv)[j + 1] == curv[j + 1]@);
                }
                assert(work_views(sorted_items@) =~= sortedw.skip(k + 1));
            }
            let WorkItem { dest, to, updated_date, resource, metadata } = item;
            let mut ctx = metadata;
            ctx.insert(String::from_str("ROOT_PREFIX"), MetaValue::Str(self.url_root.clone()));
            let rel = if crate::paths::is_absolute(dest.as_str()) {
                match crate::paths::strip_prefix(dest.as_str(), self.current_dir.as_str()) {
                    Some(r) => r,
                    None => {
                        proof {
                            if spec_all_plain_copies(pre, sortedw) {
                                assert((#[trigger] sortedw[k]).copy);
                                assert(spec_commit_dest(pre, sortedw[k].dest) is Some);
                            }
                        }
                        return Err(
                            Error::Io(
                                String::from_str(
                                    "destination path is not under the working directory: ",
                                ).concat(dest.as_str()),
                            ),
                        );
                    },
                }
            } else {
                dest
            };
            let dest_abs = crate::paths::resolve(self.output_dir.as_str(), rel.as_str());
            proof {
                assert(Option::Some(dest_abs@) == spec_commit_dest(pre, sortedw[k].dest));
            }
            match to {
                Renderer::Verbatim => {
                    let src_abs = crate::paths::resolve(
                        self.current_dir.as_str(),
                        resource.as_str(),
                    );
                    if crate::paths::str_eq(src_abs.as_str(), dest_abs.as_str()) {
                        proof {
                            if spec_all_plain_copies(pre, sortedw) {
                                assert((#[trigger] sortedw[k]).copy);
                                assert(spec_commit_dest(pre, sortedw[k].dest)->0 != spec_resolve(
                                    pre.current_dir,
                                    sortedw[k].resource,
                                ));
                            }
                        }
                        return Err(Error::CopySourceIsDestination(dest_abs));
                    }
                    plan.push(
                        WriteOp { dest: dest_abs, kind: WriteKind::CopyFrom(resource), updated_date },
                    );
                },
                renderer => {
                    proof {
                        assert(!sortedw[k].copy);
                    }
                    let out = match renderer.render(self, &mut ctx) {
                        Ok(o) => o,
                        Err(e) => {
                            proof {
                                if spec_all_plain_copies(pre, sortedw) {
                                    assert((#[trigger] sortedw[k]).copy);
                                }
                            }
                            return Err(e);
                        },
                    };
                    plan.push(
                        WriteOp { dest: dest_abs, kind: WriteKind::Contents(out), updated_date },
                    );
                },
            }
        }
        proof {
            assert forall|i: int, j: int| 0 <= i <= j < plan@.len() implies plan@[i].updated_date
                <= plan@[j].updated_date by {
                assert(spec_write_op(pre, sortedw[i], plan@[i]));
                assert(spec_write_op(pre, sortedw[j], plan@[j]));
                assert(work_order()(sortedw[i]) <= work_order()(sortedw[j]));
            }
        }
        Ok(plan)
    }

    /// Registering an artifact (and possibly one action for it) preserves the
    /// state invariant.
    proof fn lemma_registration_inv(
        &self,
        pre: StateV,
        av: BuildArtifact,
        act: Option<(String, BuildAction)>,
    )
        requires
            spec_inv(pre),
            av.metadata.wf(),
            self@.artifacts == assoc_update(pre.artifacts, artifact_key(), av.uuid, av),
            match act {
                Option::Some(a) => a.1.src == av.uuid && self@.build_actions == assoc_update(
                    pre.build_actions,
                    action_key(),
                    a.0@,
                    a,
                ),
                Option::None => self@.build_actions == pre.build_actions,
            },
            self@.snapshots == pre.snapshots,
            self@.mtimes == pre.mtimes,
        ensures
            self.inv(),
    {
        crate::store::lemma_assoc_index(pre.artifacts, artifact_key(), av.uuid);
        crate::store::lemma_assoc_update_unique(pre.artifacts, artifact_key(), av.uuid, av);
        let arts = self@.artifacts;
        let had = assoc_index(pre.artifacts, artifact_key(), av.uuid);
        assert forall|i: int| 0 <= i < arts.len() implies (#[trigger] arts[i]).metadata.wf() by {
            if had == -1 {
                if i < pre.artifacts.len() {
                    assert(arts[i] == pre.artifacts[i]);
                } else {
                    assert(arts[i] == av);
                }
            } else {
                if i == had {
                    assert(arts[i] == av);
                } else {
                    assert(arts[i] == pre.artifacts[i]);
                }
            }
        }
        match act {
            Option::Some(a) => {
                crate::store::lemma_assoc_update_unique(
                    pre.build_actions,
                    action_key(),
                    a.0@,
                    a,
                );
                let acts = self@.build_actions;
                let ai = assoc_index(pre.build_actions, action_key(), a.0@);
                crate::store::lemma_assoc_index(pre.build_actions, action_key(), a.0@);
                assert forall|i: int| 0 <= i < acts.len() implies assoc_index(
                    arts,
                    artifact_key(),
                    (#[trigger] acts[i]).1.src,
                ) >= 0 by {
                    let is_new = if ai == -1 {
                        i == acts.len() - 1
                    } else {
                        i == ai
                    };
                    if is_new {
                        assert(acts[i] == a);
                    } else {
                        assert(acts[i] == pre.build_actions[i]);
                        let src = acts[i].1.src;
                        assert(assoc_index(pre.artifacts, artifact_key(), src) >= 0);
                        if src != av.uuid {
                            crate::store::lemma_assoc_update_other(
                                pre.artifacts,
                                artifact_key(),
                                av.uuid,
                                av,
                                src,
                            );
                        }
                    }
                }
            },
            Option::None => {
                let acts = self@.build_actions;
                assert forall|i: int| 0 <= i < acts.len() implies assoc_index(
                    arts,
                    artifact_key(),
                    (#[trigger] acts[i]).1.src,
                ) >= 0 by {
                    let src = acts[i].1.src;
                    assert(assoc_index(pre.artifacts, artifact_key(), src) >= 0);
                    if src != av.uuid {
                        crate::store::lemma_assoc_update_other(
                            pre.artifacts,
                            artifact_key(),
                            av.uuid,
                            av,
                            src,
                        );
                    }
                }
            },
        }
    }

    /// Render a context with a template and return the result. A failure of
    /// the template backend is wrapped with the template identifier.
    pub fn templates_render(&self, template_path: &str, context: &Metadata) -> (r: Result<
        String,
        Error,
    >)
        ensures
            r is Err ==> (r->Err_0 matches Error::Template { template, message } && template@
                == template_path@),
    {
        match crate::renderers::render_template(&self.templates, template_path, context) {
            Ok(s) => Ok(s),
            Err(message) => Err(
                Error::Template { template: template_path.to_owned(), message },
            ),
        }
    }
}

// ---------------------------------------------------------------------------
// The commit phase
// ---------------------------------------------------------------------------

/// What a commit writes at a destination: rendered text, or the bytes of a
/// source file copied verbatim.
#[derive(Debug)]
pub enum WriteKind {
    /// Write these rendered contents.
    Contents(String),
    /// Copy the file at this source path as the commit runs, so from the
    /// working directory.
    CopyFrom(String),
}

/// One write of the commit phase, in commit order.
#[derive(Debug)]
pub struct WriteOp {
    /// The resolved destination path.
    pub dest: String,
    /// What to put there.
    pub kind: WriteKind,
    /// The timestamp that ordered this write.
    pub updated_date: i64,
}

/// One unit of commit work, as a pending action and its artifact imply it.
pub ghost struct WorkV {
    pub dest: Seq<char>,
    pub copy: bool,
    pub updated_date: i64,
    pub resource: Seq<char>,
}

/// The commit ordering key of a work unit.
pub open spec fn work_order() -> spec_fn(WorkV) -> int {
    |w: WorkV| w.updated_date as int
}

/// The work the pending actions imply, in registration order: each action's
/// destination and kind, with the backing artifact's timestamp and source.
pub open spec fn work_of(v: StateV) -> Seq<WorkV> {
    Seq::new(
        v.build_actions.len(),
        |i: int|
            WorkV {
                dest: v.build_actions[i].0@,
                copy: v.build_actions[i].1.to is Verbatim,
                updated_date: assoc_lookup(
                    v.artifacts,
                    artifact_key(),
                    v.build_actions[i].1.src,
                )->0.updated_date,
                resource: assoc_lookup(
                    v.artifacts,
                    artifact_key(),
                    v.build_actions[i].1.src,
                )->0.resource@,
            },
    )
}

/// The absolute path the commit writes for a destination: an absolute
/// destination must lie under the working directory and is first made
/// relative to it; the result is resolved against the output directory.
pub open spec fn spec_commit_dest(v: StateV, dest: Seq<char>) -> Option<Seq<char>> {
    if crate::paths::spec_is_absolute(dest) {
        match crate::paths::spec_strip_prefix(dest, v.current_dir) {
            Option::Some(rel) => Option::Some(spec_resolve(v.output_dir, rel)),
            Option::None => Option::None,
        }
    } else {
        Option::Some(spec_resolve(v.output_dir, dest))
    }
}

/// What a successful commit returns for one sorted work unit: the write goes
/// to the unit's resolved destination, carries its ordering timestamp, copies
/// exactly when the action was a verbatim copy (from the artifact's source
/// path), and never copies a file over itself.
pub open spec fn spec_write_op(v: StateV, w: WorkV, op: WriteOp) -> bool {
    &&& op.updated_date == w.updated_date
    &&& Option::Some(op.dest@) == spec_commit_dest(v, w.dest)
    &&& (op.kind is CopyFrom <==> w.copy)
    &&& op.kind is CopyFrom ==> op.kind->CopyFrom_0@ == w.resource
    &&& w.copy ==> op.dest@ != spec_resolve(v.current_dir, w.resource)
}

/// The inputs on which a commit owes success: every unit is a verbatim copy
/// whose destination resolves and differs from its resolved source, so no
/// outside renderer gets a say.
pub open spec fn spec_all_plain_copies(v: StateV, w: Seq<WorkV>) -> bool {
    forall|i: int|
        0 <= i < w.len() ==> {
            &&& (#[trigger] w[i]).copy
            &&& spec_commit_dest(v, w[i].dest) is Some
            &&& spec_commit_dest(v, w[i].dest)->0 != spec_resolve(v.current_dir, w[i].resource)
        }
}

/// One unit of commit work, with everything the writes need.
struct WorkItem {
    dest: String,
    to: Renderer,
    updated_date: i64,
    resource: String,
    metadata: Metadata,
}

impl View for WorkItem {
    type V = WorkV;

    closed spec fn view(&self) -> WorkV {
        WorkV {
            dest: self.dest@,
            copy: self.to is Verbatim,
            updated_date: self.updated_date,
            resource: self.resource@,
        }
    }
}

/// The work units of a sequence of items.
spec fn work_views(s: Seq<WorkItem>) -> Seq<WorkV> {
    Seq::new(s.len(), |i: int| s[i]@)
}

/// Place a work item into a sorted vector, after every item whose timestamp
/// does not exceed its own.
fn insert_work_sorted(v: &mut Vec<WorkItem>, x: WorkItem)
    ensures
        work_views(final(v)@) == insert_sorted(work_views(old(v)@), x@, work_order()),
        forall|i: int|
            0 <= i < final(v)@.len() ==> (#[trigger] final(v)@[i] == x || old(v)@.contains(
                final(v)@[i],
            )),
    decreases old(v)@.len(),
{
    let ghost origv = work_views(v@);
    let ghost orig = v@;
    let n = v.len();
    if n == 0 {
        v.push(x);
        proof {
            assert(work_views(v@) =~= insert_sorted(origv, x@, work_order()));
        }
    } else if v[n - 1].updated_date <= x.updated_date {
        v.push(x);
        proof {
            assert(origv.last() == orig[n - 1]@);
            assert(work_views(v@) =~= origv.push(x@));
            assert(forall|i: int| 0 <= i < orig.len() ==> orig.contains(#[trigger] orig[i]));
        }
    } else {
        match v.pop() {
            Some(last) => {
                proof {
                    assert(origv.last() == orig[n - 1]@);
                    assert(work_views(v@) =~= origv.drop_last());
                    assert(v@ =~= orig.drop_last());
                }
                insert_work_sorted(v, x);
                let ghost after = v@;
                v.push(last);
                proof {
                    assert(work_views(v@) =~= work_views(after).push(last@));
                    assert(work_views(v@) =~= insert_sorted(origv, x@, work_order()));
                    assert(orig[n - 1] == last);
                    assert forall|i: int| 0 <= i < v@.len() implies (#[trigger] v@[i] == x
                        || orig.contains(v@[i])) by {
                        if i < after.len() {
                            assert(v@[i] == after[i]);
                            if after[i] != x {
                                assert(orig.drop_last().contains(after[i]));
                                let m = choose|m: int|
                                    0 <= m < orig.drop_last().len() && orig.drop_last()[m]
                                        == after[i];
                                assert(orig[m] == after[i]);
                            }
                        } else {
                            assert(v@[i] == last);
                            assert(orig[n - 1] == last);
                        }
                    }
                }
            },
            None => {
                proof {
                    assert(false);
                }
                v.push(x);
            },
        }
    }
}

/// The deterministic artifact identifier derived from a resource path.
/// Its value is whatever the version-3 (name-based) identifier scheme
/// computes; the engine relies only on it being a function of the path.
pub uninterp spec fn uuid_of(path: Seq<char>) -> u128;

/// Relies on `uuid::Uuid::new_v3` with the OID namespace: a deterministic
/// digest of the path bytes, so the result is a function of the path alone.
#[verifier::external_body]
pub fn uuid_from_path(path: &str) -> (r: u128)
    ensures
        r == uuid_of(path@),
{
    uuid::Uuid::new_v3(&uuid::Uuid::NAMESPACE_OID, path.as_bytes()).as_u128()
}

/// Staleness is monotone in the force flag and fails open: with the force
/// flag set every destination is stale, whatever the recorded times; a
/// destination without a recorded time is stale; and when both times are
/// recorded, the destination is stale exactly when the resource is strictly
/// newer — a tie favors the cache.
pub proof fn lemma_staleness_monotonicity(v: StateV, dest: Seq<char>, resource: Seq<char>)
    ensures
        v.force_generate ==> spec_is_stale(v, dest, resource),
        spec_mtime_of(v, spec_resolve(v.output_dir, dest)) is None ==> spec_is_stale(
            v,
            dest,
            resource,
        ),
        !v.force_generate && spec_mtime_of(v, spec_resolve(v.output_dir, dest)) is Some
            && spec_mtime_of(v, spec_resolve(v.current_dir, resource)) is Some ==> (spec_is_stale(
            v,
            dest,
            resource,
        ) <==> spec_mtime_of(v, spec_resolve(v.current_dir, resource))->0 > spec_mtime_of(
            v,
            spec_resolve(v.output_dir, dest),
        )->0),
{
}

/// Cache bypass does not lose metadata: registering a compiled page stores
/// the compiler's metadata in the artifact whether or not the page was stale
/// — the staleness decision only governs the action queue, never the stored
/// artifact. The premise is exactly what `register_page` ensures about the
/// artifact store, in both the stale and the cached case.
pub proof fn lemma_cache_bypass_keeps_metadata(
    pre: StateV,
    post: StateV,
    dest: String,
    resource: String,
    metadata: Metadata,
    modified_date: Option<i64>,
    updated_date: i64,
)
    requires
        spec_inv(pre),
        post.artifacts == assoc_update(
            pre.artifacts,
            artifact_key(),
            uuid_of(resource@),
            BuildArtifact {
                uuid: uuid_of(resource@),
                path: dest,
                resource,
                metadata,
                modified_date,
                updated_date,
            },
        ),
    ensures
        assoc_lookup(post.artifacts, artifact_key(), uuid_of(resource@)) == Option::Some(
            BuildArtifact {
                uuid: uuid_of(resource@),
                path: dest,
                resource,
                metadata,
                modified_date,
                updated_date,
            },
        ),
{
    crate::store::lemma_assoc_update_unique(
        pre.artifacts,
        artifact_key(),
        uuid_of(resource@),
        BuildArtifact {
            uuid: uuid_of(resource@),
            path: dest,
            resource,
            metadata,
            modified_date,
            updated_date,
        },
    );
}

/// At most one action per destination: in a well-formed state the pending
/// actions carry pairwise distinct destination paths, so registering a second
/// action for a destination must have replaced the first.
pub proof fn lemma_at_most_one_action_per_destination(s: &State)
    requires
        s.inv(),
    ensures
        forall|i: int, j: int|
            0 <= i < j < s@.build_actions.len() ==> (#[trigger] s@.build_actions[i]).0@ != (
            #[trigger] s@.build_actions[j]).0@,
{
    assert forall|i: int, j: int|
        0 <= i < j < s@.build_actions.len() implies (#[trigger] s@.build_actions[i]).0@ != (
    #[trigger] s@.build_actions[j]).0@ by {
        assert(action_key()(s@.build_actions[i]) != action_key()(s@.build_actions[j]));
    }
}

/// Snapshot round trip: appending an identifier and then reading the
/// snapshot yields the previously stored identifiers with the new one at the
/// end — order preserved, duplicates kept — and a snapshot never appended to
/// (nor initialized) reads as absent, which `State::get_snapshot` reports as
/// a "no such snapshot" error. The premise is what `add_to_snapshot` ensures.
pub proof fn lemma_snapshot_append_then_read(pre: StateV, post: StateV, key: Seq<char>, id: u128)
    requires
        spec_inv(pre),
        post.snapshots == spec_snapshot_append(pre.snapshots, key, id),
    ensures
        spec_snapshot_ids(post, key) == Option::Some(
            match spec_snapshot_ids(pre, key) {
                Option::Some(ids) => ids.push(id),
                Option::None => seq![id],
            },
        ),
{
    crate::store::lemma_assoc_index(pre.snapshots, snapshot_key(), key);
    let i = assoc_index(pre.snapshots, snapshot_key(), key);
    if i == -1 {
        crate::store::lemma_assoc_update_unique(pre.snapshots, snapshot_key(), key, (key, seq![id]));
        assert(post.snapshots == assoc_update(pre.snapshots, snapshot_key(), key, (key, seq![id])));
    } else {
        let entry = (pre.snapshots[i].0, pre.snapshots[i].1.push(id));
        crate::store::lemma_assoc_update_unique(pre.snapshots, snapshot_key(), key, entry);
        assert(post.snapshots == assoc_update(pre.snapshots, snapshot_key(), key, entry));
    }
}

/// Computing the identifier of the same resource path twice yields the same
/// value: artifact identity is stable across registrations and runs.
pub proof fn lemma_artifact_identity_deterministic(a: Seq<char>, b: Seq<char>)
    requires
        a == b,
    ensures
        uuid_of(a) == uuid_of(b),
{
}

} // verus!
