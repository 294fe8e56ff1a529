use vstd::prelude::*;
use vstd::multiset::Multiset;
use vstd::seq_lib::group_to_multiset_ensures;
use crate::paths::str_eq;
use crate::BuildAction;
use crate::BuildArtifact;

verus! {

// ---------------------------------------------------------------------------
// Association sequences: ordered entries addressed by a key projection.
// ---------------------------------------------------------------------------

/// Index of the first element whose key is `k`, or `-1` when absent.
pub open spec fn assoc_index<T, K>(s: Seq<T>, key_of: spec_fn(T) -> K, k: K) -> int
    decreases s.len(),
{
    if s.len() == 0 {
        -1
    } else if key_of(s[0]) == k {
        0
    } else {
        let r = assoc_index(s.drop_first(), key_of, k);
        if r == -1 {
            -1
        } else {
            r + 1
        }
    }
}

/// The first element with key `k`, when there is one.
pub open spec fn assoc_lookup<T, K>(s: Seq<T>, key_of: spec_fn(T) -> K, k: K) -> Option<T> {
    if assoc_index(s, key_of, k) == -1 {
        Option::None
    } else {
        Option::Some(s[assoc_index(s, key_of, k)])
    }
}

/// All keys are distinct.
pub open spec fn assoc_unique<T, K>(s: Seq<T>, key_of: spec_fn(T) -> K) -> bool {
    forall|i: int, j: int| 0 <= i < j < s.len() ==> key_of(s[i]) != key_of(s[j])
}

/// The sequence after storing `v` under its key `k`: an existing entry is
/// replaced in place, a new key goes to the end.
pub open spec fn assoc_update<T, K>(s: Seq<T>, key_of: spec_fn(T) -> K, k: K, v: T) -> Seq<T> {
    let i = assoc_index(s, key_of, k);
    if i == -1 {
        s.push(v)
    } else {
        s.update(i, v)
    }
}

/// `assoc_index` really names the first entry with the key.
pub proof fn lemma_assoc_index<T, K>(s: Seq<T>, key_of: spec_fn(T) -> K, k: K)
    ensures
        assoc_index(s, key_of, k) >= -1,
        assoc_index(s, key_of, k) == -1 ==> forall|j: int|
            0 <= j < s.len() ==> key_of(#[trigger] s[j]) != k,
        assoc_index(s, key_of, k) >= 0 ==> {
            &&& assoc_index(s, key_of, k) < s.len()
            &&& key_of(s[assoc_index(s, key_of, k)]) == k
            &&& forall|j: int| 0 <= j < assoc_index(s, key_of, k) ==> key_of(#[trigger] s[j]) != k
        },
    decreases s.len(),
{
    if s.len() > 0 && key_of(s[0]) != k {
        let t = s.drop_first();
        lemma_assoc_index(t, key_of, k);
        assert(forall|j: int| 0 <= j < t.len() ==> t[j] == s[j + 1]);
        assert(assoc_index(s, key_of, k) == (if assoc_index(t, key_of, k) == -1 {
            -1int
        } else {
            assoc_index(t, key_of, k) + 1
        }));
        if assoc_index(s, key_of, k) == -1 {
            assert forall|j: int| 0 <= j < s.len() implies key_of(#[trigger] s[j]) != k by {
                if j > 0 {
                    assert(key_of(t[j - 1]) != k);
                    assert(s[j] == t[j - 1]);
                }
            }
        } else {
            let i = assoc_index(s, key_of, k);
            assert(i == assoc_index(t, key_of, k) + 1);
            assert(0 <= i - 1 < t.len());
            assert(key_of(t[i - 1]) == k);
            assert(s[i] == t[i - 1]);
            assert forall|j: int| 0 <= j < i implies key_of(#[trigger] s[j]) != k by {
                if j > 0 {
                    assert(key_of(t[j - 1]) != k);
                    assert(s[j] == t[j - 1]);
                }
            }
        }
    }
}

/// An index whose key matches, while every earlier key does not, is the key's
/// index.
pub proof fn lemma_assoc_index_at<T, K>(s: Seq<T>, key_of: spec_fn(T) -> K, k: K, i: int)
    requires
        0 <= i < s.len(),
        key_of(s[i]) == k,
        forall|j: int| 0 <= j < i ==> key_of(#[trigger] s[j]) != k,
    ensures
        assoc_index(s, key_of, k) == i,
{
    lemma_assoc_index(s, key_of, k);
    let ki = assoc_index(s, key_of, k);
    if ki == -1 {
        assert(key_of(s[i]) != k);
    } else if ki < i {
        assert(key_of(s[ki]) != k);
    } else if ki > i {
        assert(key_of(s[i]) != k);
    }
}

/// Replacing or appending under one key leaves distinct keys distinct.
pub proof fn lemma_assoc_update_unique<T, K>(s: Seq<T>, key_of: spec_fn(T) -> K, k: K, v: T)
    requires
        assoc_unique(s, key_of),
        key_of(v) == k,
    ensures
        assoc_unique(assoc_update(s, key_of, k, v), key_of),
        assoc_index(assoc_update(s, key_of, k, v), key_of, k) >= 0,
        assoc_lookup(assoc_update(s, key_of, k, v), key_of, k) == Option::Some(v),
        assoc_update(s, key_of, k, v).len() == if assoc_index(s, key_of, k) == -1 {
            s.len() + 1
        } else {
            s.len()
        },
{
    lemma_assoc_index(s, key_of, k);
    let i = assoc_index(s, key_of, k);
    let t = assoc_update(s, key_of, k, v);
    if i == -1 {
        assert forall|a: int, b: int| 0 <= a < b < t.len() implies key_of(t[a]) != key_of(
            t[b],
        ) by {
            if b == t.len() - 1 {
                assert(key_of(s[a]) != k);
            } else {
                assert(t[a] == s[a] && t[b] == s[b]);
            }
        }
        lemma_assoc_index_at(t, key_of, k, s.len() as int);
    } else {
        assert forall|a: int, b: int| 0 <= a < b < t.len() implies key_of(t[a]) != key_of(
            t[b],
        ) by {
            if a != i && b != i {
                assert(t[a] == s[a] && t[b] == s[b]);
            } else if a == i {
                assert(key_of(t[a]) == key_of(s[i]) && t[b] == s[b]);
            } else {
                assert(key_of(t[b]) == key_of(s[i]) && t[a] == s[a]);
            }
        }
        assert forall|j: int| 0 <= j < i implies key_of(#[trigger] t[j]) != k by {
            assert(t[j] == s[j]);
        }
        lemma_assoc_index_at(t, key_of, k, i);
    }
}

/// Storing under one key leaves every other key's entry untouched.
pub proof fn lemma_assoc_update_other<T, K>(s: Seq<T>, key_of: spec_fn(T) -> K, k: K, v: T, k2: K)
    requires
        key_of(v) == k,
        k2 != k,
    ensures
        assoc_index(assoc_update(s, key_of, k, v), key_of, k2) == assoc_index(s, key_of, k2),
        assoc_lookup(assoc_update(s, key_of, k, v), key_of, k2) == assoc_lookup(s, key_of, k2),
{
    lemma_assoc_index(s, key_of, k);
    lemma_assoc_index(s, key_of, k2);
    let i = assoc_index(s, key_of, k);
    let j = assoc_index(s, key_of, k2);
    let t = assoc_update(s, key_of, k, v);
    if j == -1 {
        lemma_assoc_index(t, key_of, k2);
        if assoc_index(t, key_of, k2) >= 0 {
            let m = assoc_index(t, key_of, k2);
            if i == -1 {
                if m < s.len() {
                    assert(t[m] == s[m]);
                } else {
                    assert(t[m] == v);
                }
            } else {
                if m == i {
                    assert(t[m] == v);
                } else {
                    assert(t[m] == s[m]);
                }
            }
        }
    } else {
        assert(j != i);
        assert(t[j] == s[j]);
        assert forall|x: int| 0 <= x < j implies key_of(#[trigger] t[x]) != k2 by {
            if x == i {
                assert(key_of(t[x]) == k);
            } else {
                assert(t[x] == s[x]);
            }
        }
        lemma_assoc_index_at(t, key_of, k2, j);
    }
}

// ---------------------------------------------------------------------------
// Stable sorting by an integer key
// ---------------------------------------------------------------------------

/// Whether the sequence is in ascending key order.
pub open spec fn sorted_by<T>(s: Seq<T>, key: spec_fn(T) -> int) -> bool {
    forall|i: int, j: int| 0 <= i <= j < s.len() ==> key(s[i]) <= key(s[j])
}

/// `x` placed after every element whose key does not exceed its own: the
/// insertion step of a stable sort.
pub open spec fn insert_sorted<T>(s: Seq<T>, x: T, key: spec_fn(T) -> int) -> Seq<T>
    decreases s.len(),
{
    if s.len() == 0 {
        seq![x]
    } else if key(s.last()) <= key(x) {
        s.push(x)
    } else {
        insert_sorted(s.drop_last(), x, key).push(s.last())
    }
}

/// The sequence in ascending key order; elements with equal keys keep their
/// original relative order, since each is inserted after its earlier equals.
pub open spec fn stable_sort<T>(s: Seq<T>, key: spec_fn(T) -> int) -> Seq<T>
    decreases s.len(),
{
    if s.len() == 0 {
        Seq::<T>::empty()
    } else {
        insert_sorted(stable_sort(s.drop_last(), key), s.last(), key)
    }
}

/// The insertion step keeps the elements (as a multiset), adds one, and keeps
/// the sequence sorted.
pub proof fn lemma_insert_sorted<T>(s: Seq<T>, x: T, key: spec_fn(T) -> int)
    ensures
        insert_sorted(s, x, key).len() == s.len() + 1,
        insert_sorted(s, x, key).to_multiset() == s.to_multiset().insert(x),
        forall|i: int|
            0 <= i < insert_sorted(s, x, key).len() ==> (#[trigger] insert_sorted(s, x, key)[i]
                == x || s.contains(insert_sorted(s, x, key)[i])),
        sorted_by(s, key) ==> sorted_by(insert_sorted(s, x, key), key),
    decreases s.len(),
{
    broadcast use group_to_multiset_ensures;

    let t = insert_sorted(s, x, key);
    if s.len() == 0 {
        assert(s =~= Seq::<T>::empty());
        assert(t =~= Seq::<T>::empty().push(x));
        assert(forall|a: T| !s.contains(a));
        assert(s.to_multiset() =~= Multiset::<T>::empty());
        assert(t.to_multiset() =~= s.to_multiset().insert(x));
    } else if key(s.last()) <= key(x) {
        assert(forall|i: int| 0 <= i < s.len() ==> s.contains(#[trigger] s[i]));
        if sorted_by(s, key) {
            assert forall|i: int, j: int| 0 <= i <= j < t.len() implies key(t[i]) <= key(
                t[j],
            ) by {
                if j == t.len() - 1 && i < j {
                    assert(key(s[i]) <= key(s[s.len() - 1]));
                }
            }
        }
    } else {
        let d = s.drop_last();
        lemma_insert_sorted(d, x, key);
        let u = insert_sorted(d, x, key);
        assert(t == u.push(s.last()));
        assert(s =~= d.push(s.last()));
        assert(t.to_multiset() =~= d.to_multiset().insert(x).insert(s.last()));
        assert(s.to_multiset().insert(x) =~= d.to_multiset().insert(s.last()).insert(x));
        assert(d.to_multiset().insert(x).insert(s.last()) =~= d.to_multiset().insert(
            s.last(),
        ).insert(x));
        assert forall|i: int| 0 <= i < t.len() implies (#[trigger] t[i] == x || s.contains(
            t[i],
        )) by {
            if i < u.len() {
                assert(t[i] == u[i]);
                if u[i] != x {
                    assert(d.contains(u[i]));
                    let m = choose|m: int| 0 <= m < d.len() && d[m] == u[i];
                    assert(s[m] == u[i]);
                }
            } else {
                assert(t[i] == s.last());
                assert(s[s.len() - 1] == s.last());
            }
        }
        if sorted_by(s, key) {
            assert forall|i: int, j: int| 0 <= i <= j < d.len() implies key(d[i]) <= key(
                d[j],
            ) by {
                assert(d[i] == s[i] && d[j] == s[j]);
            }
            assert forall|i: int, j: int| 0 <= i <= j < t.len() implies key(t[i]) <= key(
                t[j],
            ) by {
                if j == t.len() - 1 {
                    if i < j {
                        assert(t[i] == u[i]);
                        if u[i] == x {
                            assert(key(u[i]) <= key(s.last()));
                        } else {
                            assert(d.contains(u[i]));
                            let m = choose|m: int| 0 <= m < d.len() && d[m] == u[i];
                            assert(key(s[m]) <= key(s[s.len() - 1]));
                        }
                    }
                } else {
                    assert(t[i] == u[i] && t[j] == u[j]);
                }
            }
        }
    }
}

/// A stable sort keeps the elements (as a multiset) and yields ascending key
/// order.
pub proof fn lemma_stable_sort<T>(s: Seq<T>, key: spec_fn(T) -> int)
    ensures
        stable_sort(s, key).len() == s.len(),
        stable_sort(s, key).to_multiset() == s.to_multiset(),
        sorted_by(stable_sort(s, key), key),
        forall|i: int|
            0 <= i < stable_sort(s, key).len() ==> s.contains(#[trigger] stable_sort(s, key)[i]),
    decreases s.len(),
{
    broadcast use group_to_multiset_ensures;

    let t = stable_sort(s, key);
    if s.len() == 0 {
        assert(s =~= Seq::<T>::empty());
        assert(t.to_multiset() =~= s.to_multiset());
    } else {
        let d = s.drop_last();
        lemma_stable_sort(d, key);
        lemma_insert_sorted(stable_sort(d, key), s.last(), key);
        assert(s =~= d.push(s.last()));
        assert(t.to_multiset() =~= s.to_multiset());
        assert forall|i: int| 0 <= i < t.len() implies s.contains(#[trigger] t[i]) by {
            if t[i] == s.last() {
                assert(s[s.len() - 1] == s.last());
            } else {
                assert(stable_sort(d, key).contains(t[i]));
                let m = choose|m: int|
                    0 <= m < stable_sort(d, key).len() && stable_sort(d, key)[m] == t[i];
                assert(d.contains(stable_sort(d, key)[m]));
                let m2 = choose|m2: int| 0 <= m2 < d.len() && d[m2] == t[i];
                assert(s[m2] == t[i]);
            }
        }
    }
}

/// A permutation of a uniquely keyed sequence is uniquely keyed.
pub proof fn lemma_unique_permutation<T, K>(
    s: Seq<T>,
    t: Seq<T>,
    key_of: spec_fn(T) -> K,
)
    requires
        s.to_multiset() == t.to_multiset(),
        assoc_unique(s, key_of),
    ensures
        assoc_unique(t, key_of),
{
    broadcast use group_to_multiset_ensures;

    assert forall|i: int, j: int| 0 <= i < j < t.len() implies key_of(t[i]) != key_of(t[j]) by {
        if key_of(t[i]) == key_of(t[j]) {
            if t[i] == t[j] {
                let v = t[i];
                assert(t.remove(i).to_multiset() =~= t.to_multiset().remove(v));
                assert(t.remove(i) =~= t.subrange(0, i) + t.subrange(i + 1, t.len() as int));
                assert(t.remove(i)[j - 1] == t[j]);
                assert(t.remove(i).contains(v));
                assert(t.remove(i).to_multiset().count(v) > 0);
                assert(t.to_multiset().count(v) >= 2);
                assert(s.to_multiset().count(v) >= 2);
                assert(s.contains(v));
                let a = choose|a: int| 0 <= a < s.len() && s[a] == v;
                assert(s.remove(a).to_multiset() =~= s.to_multiset().remove(v));
                assert(s.remove(a).to_multiset().count(v) > 0);
                assert(s.remove(a).contains(v));
                let b = choose|b: int| 0 <= b < s.remove(a).len() && s.remove(a)[b] == v;
                assert(s.remove(a) =~= s.subrange(0, a) + s.subrange(a + 1, s.len() as int));
                if b < a {
                    assert(s[b] == v);
                    assert(key_of(s[b]) == key_of(s[a]));
                } else {
                    assert(s[b + 1] == v);
                    assert(key_of(s[a]) == key_of(s[b + 1]));
                }
            } else {
                assert(t.contains(t[i]));
                assert(t.contains(t[j]));
                assert(s.to_multiset().count(t[i]) > 0);
                assert(s.to_multiset().count(t[j]) > 0);
                assert(s.contains(t[i]));
                assert(s.contains(t[j]));
                let a = choose|a: int| 0 <= a < s.len() && s[a] == t[i];
                let b = choose|b: int| 0 <= b < s.len() && s[b] == t[j];
                assert(a != b);
                if a < b {
                    assert(key_of(s[a]) != key_of(s[b]));
                } else {
                    assert(key_of(s[b]) != key_of(s[a]));
                }
            }
        }
    }
}

// ---------------------------------------------------------------------------
// Artifact store
// ---------------------------------------------------------------------------

/// The key of an artifact entry.
pub open spec fn artifact_key() -> spec_fn(BuildArtifact) -> u128 {
    |a: BuildArtifact| a.uuid
}

/// Every artifact the run has discovered or produced, keyed by identifier and
/// kept in insertion order.
pub struct Artifacts {
    entries: Vec<BuildArtifact>,
}

impl View for Artifacts {
    type V = Seq<BuildArtifact>;

    closed spec fn view(&self) -> Seq<BuildArtifact> {
        self.entries@
    }
}

impl Artifacts {
    /// Identifiers are distinct.
    pub open spec fn wf(&self) -> bool {
        assoc_unique(self@, artifact_key())
    }

    /// The artifact with the given identifier, when registered.
    pub open spec fn spec_get(&self, id: u128) -> Option<BuildArtifact> {
        assoc_lookup(self@, artifact_key(), id)
    }

    /// An empty store.
    pub fn new() -> (r: Artifacts)
        ensures
            r@ == Seq::<BuildArtifact>::empty(),
            r.wf(),
    {
        Artifacts { entries: Vec::new() }
    }

    /// Number of artifacts.
    pub fn len(&self) -> (r: usize)
        ensures
            r == self@.len(),
    {
        self.entries.len()
    }

    /// The artifact at a position, for walking the store in order.
    pub fn entry_at(&self, i: usize) -> (r: &BuildArtifact)
        requires
            i < self@.len(),
        ensures
            *r == self@[i as int],
    {
        &self.entries[i]
    }

    /// The artifact with the given identifier, when registered.
    pub fn get(&self, id: u128) -> (r: Option<&BuildArtifact>)
        ensures
            r is Some <==> self.spec_get(id) is Some,
            r is Some ==> *r->0 == self.spec_get(id)->0,
    {
        let n = self.entries.len();
        let mut i: usize = 0;
        while i < n
            invariant
                n == self@.len(),
                i <= n,
                forall|j: int| 0 <= j < i ==> artifact_key()(#[trigger] self@[j]) != id,
            decreases n - i,
        {
            if self.entries[i].uuid == id {
                proof {
                    lemma_assoc_index_at(self@, artifact_key(), id, i as int);
                }
                return Some(&self.entries[i]);
            }
            i = i + 1;
        }
        proof {
            lemma_assoc_index(self@, artifact_key(), id);
            if assoc_index(self@, artifact_key(), id) >= 0 {
                assert(artifact_key()(self@[assoc_index(self@, artifact_key(), id)]) != id);
            }
        }
        None
    }

    /// Register an artifact: a previous artifact with the same identifier is
    /// replaced in place, a new one goes to the end.
    pub fn insert(&mut self, artifact: BuildArtifact)
        ensures
            final(self)@ == assoc_update(old(self)@, artifact_key(), artifact.uuid, artifact),
            old(self).wf() ==> final(self).wf(),
    {
        let ghost orig = self@;
        let id = artifact.uuid;
        let n = self.entries.len();
        let mut i: usize = 0;
        while i < n
            invariant
                orig == old(self)@,
                self@ == orig,
                n == orig.len(),
                i <= n,
                id == artifact.uuid,
                forall|j: int| 0 <= j < i ==> artifact_key()(#[trigger] orig[j]) != id,
            decreases n - i,
        {
            if self.entries[i].uuid == id {
                proof {
                    lemma_assoc_index_at(orig, artifact_key(), id, i as int);
                }
                self.entries[i] = artifact;
                proof {
                    if old(self).wf() {
                        lemma_assoc_update_unique(orig, artifact_key(), id, artifact);
                    }
                }
                return ;
            }
            i = i + 1;
        }
        proof {
            lemma_assoc_index(orig, artifact_key(), id);
            if assoc_index(orig, artifact_key(), id) >= 0 {
                assert(artifact_key()(orig[assoc_index(orig, artifact_key(), id)]) != id);
            }
        }
        self.entries.push(artifact);
        proof {
            if old(self).wf() {
                lemma_assoc_update_unique(orig, artifact_key(), id, artifact);
            }
        }
    }
}

/// The commit-phase ordering key of an artifact.
pub open spec fn artifact_order() -> spec_fn(BuildArtifact) -> int {
    |a: BuildArtifact| a.updated_date as int
}

/// Place an artifact into a sorted vector, after every artifact whose
/// timestamp does not exceed its own.
fn insert_artifact_sorted(v: &mut Vec<BuildArtifact>, x: BuildArtifact)
    ensures
        final(v)@ == insert_sorted(old(v)@, x, artifact_order()),
    decreases old(v)@.len(),
{
    let ghost orig = v@;
    let n = v.len();
    if n == 0 {
        v.push(x);
        proof {
            assert(v@ =~= insert_sorted(orig, x, artifact_order()));
        }
    } else if v[n - 1].updated_date <= x.updated_date {
        v.push(x);
    } else {
        match v.pop() {
            Some(last) => {
                proof {
                    assert(v@ =~= orig.drop_last());
                    assert(last == orig.last());
                }
                insert_artifact_sorted(v, x);
                v.push(last);
            },
            None => {
                proof {
                    assert(false);
                }
                v.push(x);
            },
        }
    }
}

impl Artifacts {
    /// Sort the artifacts by `updated_date`, ascending and stable: artifacts
    /// with equal timestamps keep their registration order. Identifiers stay
    /// distinct.
    pub fn sort_by_updated(&mut self)
        ensures
            final(self)@ == stable_sort(old(self)@, artifact_order()),
            old(self).wf() ==> final(self).wf(),
    {
        let ghost orig = self@;
        let mut sorted_entries: Vec<BuildArtifact> = Vec::new();
        proof {
            assert(orig.take(0) =~= Seq::<BuildArtifact>::empty());
        }
        while self.entries.len() > 0
            invariant
                orig == old(self)@,
                self.entries@.len() <= orig.len(),
                self.entries@ =~= orig.skip(orig.len() - self.entries@.len()),
                sorted_entries@ == stable_sort(
                    orig.take(orig.len() - self.entries@.len()),
                    artifact_order(),
                ),
            decreases self.entries@.len(),
        {
            let ghost i = orig.len() - self.entries@.len();
            let x = self.entries.remove(0);
            proof {
                assert(x == orig[i]);
                assert(self.entries@ =~= orig.skip(i + 1));
                assert(orig.take(i + 1).drop_last() =~= orig.take(i));
                assert(orig.take(i + 1).last() == orig[i]);
            }
            insert_artifact_sorted(&mut sorted_entries, x);
        }
        proof {
            assert(orig.take(orig.len() as int) =~= orig);
        }
        self.entries = sorted_entries;
        proof {
            if old(self).wf() {
                lemma_stable_sort(orig, artifact_order());
                lemma_unique_permutation(orig, self@, artifact_key());
            }
        }
    }
}

// ---------------------------------------------------------------------------
// Build action queue
// ---------------------------------------------------------------------------

/// The key of an action entry: the destination path.
pub open spec fn action_key() -> spec_fn((String, BuildAction)) -> Seq<char> {
    |e: (String, BuildAction)| e.0@
}

/// The pending build actions, one per destination path, in registration
/// order.
pub struct Actions {
    entries: Vec<(String, BuildAction)>,
}

impl View for Actions {
    type V = Seq<(String, BuildAction)>;

    closed spec fn view(&self) -> Seq<(String, BuildAction)> {
        self.entries@
    }
}

impl Actions {
    /// Destinations are distinct: at most one action per destination.
    pub open spec fn wf(&self) -> bool {
        assoc_unique(self@, action_key())
    }

    /// The action registered for a destination, when there is one.
    pub open spec fn spec_get(&self, dest: Seq<char>) -> Option<(String, BuildAction)> {
        assoc_lookup(self@, action_key(), dest)
    }

    /// An empty queue.
    pub fn new() -> (r: Actions)
        ensures
            r@ == Seq::<(String, BuildAction)>::empty(),
            r.wf(),
    {
        Actions { entries: Vec::new() }
    }

    /// Number of pending actions.
    pub fn len(&self) -> (r: usize)
        ensures
            r == self@.len(),
    {
        self.entries.len()
    }

    /// Whether no action is pending.
    pub fn is_empty(&self) -> (r: bool)
        ensures
            r == (self@.len() == 0),
    {
        self.entries.is_empty()
    }

    /// The entry at a position, for walking the queue in order.
    pub fn entry_at(&self, i: usize) -> (r: &(String, BuildAction))
        requires
            i < self@.len(),
        ensures
            *r == self@[i as int],
    {
        &self.entries[i]
    }

    /// Register an action for a destination; a pending action for the same
    /// destination is replaced in place, so the most recent registration
    /// wins.
    pub fn insert(&mut self, dest: String, action: BuildAction)
        ensures
            final(self)@ == assoc_update(old(self)@, action_key(), dest@, (dest, action)),
            old(self).wf() ==> final(self).wf(),
    {
        let ghost orig = self@;
        let ghost entry = (dest, action);
        let n = self.entries.len();
        let mut i: usize = 0;
        while i < n
            invariant
                orig == old(self)@,
                self@ == orig,
                n == orig.len(),
                i <= n,
                forall|j: int| 0 <= j < i ==> action_key()(#[trigger] orig[j]) != dest@,
            decreases n - i,
        {
            if str_eq(self.entries[i].0.as_str(), dest.as_str()) {
                proof {
                    lemma_assoc_index_at(orig, action_key(), dest@, i as int);
                }
                self.entries[i] = (dest, action);
                proof {
                    if old(self).wf() {
                        lemma_assoc_update_unique(orig, action_key(), entry.0@, entry);
                    }
                }
                return ;
            }
            i = i + 1;
        }
        proof {
            lemma_assoc_index(orig, action_key(), dest@);
            if assoc_index(orig, action_key(), dest@) >= 0 {
                assert(action_key()(orig[assoc_index(orig, action_key(), dest@)]) != dest@);
            }
        }
        self.entries.push((dest, action));
        proof {
            if old(self).wf() {
                lemma_assoc_update_unique(orig, action_key(), entry.0@, entry);
            }
        }
    }

    /// Take every pending action out of the queue, in order; the queue is
    /// empty afterwards, so each action is committed exactly once.
    pub fn take_all(&mut self) -> (r: Vec<(String, BuildAction)>)
        ensures
            r@ == old(self)@,
            final(self)@ == Seq::<(String, BuildAction)>::empty(),
    {
        let mut taken: Vec<(String, BuildAction)> = Vec::new();
        core::mem::swap(&mut taken, &mut self.entries);
        taken
    }
}

// ---------------------------------------------------------------------------
// Snapshot index
// ---------------------------------------------------------------------------

/// The key of a snapshot entry: its name.
pub open spec fn snapshot_key() -> spec_fn((Seq<char>, Seq<u128>)) -> Seq<char> {
    |e: (Seq<char>, Seq<u128>)| e.0
}

/// The sequence after appending `id` to the named snapshot, creating the
/// snapshot when it does not exist yet.
pub open spec fn spec_snapshot_append(
    s: Seq<(Seq<char>, Seq<u128>)>,
    name: Seq<char>,
    id: u128,
) -> Seq<(Seq<char>, Seq<u128>)> {
    let i = assoc_index(s, snapshot_key(), name);
    if i == -1 {
        s.push((name, seq![id]))
    } else {
        s.update(i, (s[i].0, s[i].1.push(id)))
    }
}

/// Named, append-ordered collections of artifact identifiers, for cross-rule
/// aggregation.
pub struct Snapshots {
    entries: Vec<(String, Vec<u128>)>,
}

impl View for Snapshots {
    type V = Seq<(Seq<char>, Seq<u128>)>;

    closed spec fn view(&self) -> Seq<(Seq<char>, Seq<u128>)> {
        Seq::new(self.entries@.len(), |i: int| (self.entries@[i].0@, self.entries@[i].1@))
    }
}

impl Snapshots {
    /// Names are distinct.
    pub open spec fn wf(&self) -> bool {
        assoc_unique(self@, snapshot_key())
    }

    /// The identifiers appended to the named snapshot so far, in order,
    /// duplicates included, when the snapshot exists.
    pub open spec fn spec_get(&self, name: Seq<char>) -> Option<Seq<u128>> {
        match assoc_lookup(self@, snapshot_key(), name) {
            Option::Some(e) => Option::Some(e.1),
            Option::None => Option::None,
        }
    }

    /// An empty index.
    pub fn new() -> (r: Snapshots)
        ensures
            r@ == Seq::<(Seq<char>, Seq<u128>)>::empty(),
            r.wf(),
    {
        let r = Snapshots { entries: Vec::new() };
        proof {
            assert(r@ =~= Seq::<(Seq<char>, Seq<u128>)>::empty());
        }
        r
    }

    /// Number of named snapshots.
    pub fn len(&self) -> (r: usize)
        ensures
            r == self@.len(),
    {
        self.entries.len()
    }

    /// The name and contents at a position.
    pub fn entry_at(&self, i: usize) -> (r: &(String, Vec<u128>))
        requires
            i < self@.len(),
        ensures
            r.0@ == self@[i as int].0,
            r.1@ == self@[i as int].1,
    {
        &self.entries[i]
    }

    /// The identifiers of the named snapshot, when it exists.
    pub fn get(&self, name: &str) -> (r: Option<&Vec<u128>>)
        ensures
            r is Some <==> self.spec_get(name@) is Some,
            r is Some ==> r->0@ == self.spec_get(name@)->0,
    {
        let n = self.entries.len();
        let mut i: usize = 0;
        while i < n
            invariant
                n == self@.len(),
                i <= n,
                forall|j: int| 0 <= j < i ==> snapshot_key()(#[trigger] self@[j]) != name@,
            decreases n - i,
        {
            if str_eq(self.entries[i].0.as_str(), name) {
                proof {
                    assert(snapshot_key()(self@[i as int]) == name@);
                    lemma_assoc_index_at(self@, snapshot_key(), name@, i as int);
                }
                return Some(&self.entries[i].1);
            }
            proof {
                assert(snapshot_key()(self@[i as int]) == self@[i as int].0);
            }
            i = i + 1;
        }
        proof {
            lemma_assoc_index(self@, snapshot_key(), name@);
            if assoc_index(self@, snapshot_key(), name@) >= 0 {
                assert(snapshot_key()(self@[assoc_index(self@, snapshot_key(), name@)]) != name@);
            }
        }
        None
    }

    /// Create the named snapshot, empty, when it does not exist; an existing
    /// snapshot is left as it is.
    pub fn ensure_exists(&mut self, name: &str)
        ensures
            final(self)@ == (if assoc_index(old(self)@, snapshot_key(), name@) == -1 {
                old(self)@.push((name@, Seq::<u128>::empty()))
            } else {
                old(self)@
            }),
            old(self).wf() ==> final(self).wf(),
    {
        let ghost orig = self@;
        let n = self.entries.len();
        let mut i: usize = 0;
        while i < n
            invariant
                orig == old(self)@,
                self@ == orig,
                n == orig.len(),
                i <= n,
                forall|j: int| 0 <= j < i ==> snapshot_key()(#[trigger] orig[j]) != name@,
            decreases n - i,
        {
            if str_eq(self.entries[i].0.as_str(), name) {
                proof {
                    assert(snapshot_key()(orig[i as int]) == name@);
                    lemma_assoc_index_at(orig, snapshot_key(), name@, i as int);
                }
                return ;
            }
            proof {
                assert(snapshot_key()(orig[i as int]) == orig[i as int].0);
            }
            i = i + 1;
        }
        proof {
            lemma_assoc_index(orig, snapshot_key(), name@);
            if assoc_index(orig, snapshot_key(), name@) >= 0 {
                assert(snapshot_key()(orig[assoc_index(orig, snapshot_key(), name@)]) != name@);
            }
        }
        let empty: Vec<u128> = Vec::new();
        self.entries.push((name.to_owned(), empty));
        proof {
            assert(self@ =~= orig.push((name@, Seq::<u128>::empty())));
            if old(self).wf() {
                lemma_assoc_update_unique(
                    orig,
                    snapshot_key(),
                    name@,
                    (name@, Seq::<u128>::empty()),
                );
                assert(self@ == assoc_update(
                    orig,
                    snapshot_key(),
                    name@,
                    (name@, Seq::<u128>::empty()),
                ));
            }
        }
    }

    /// Append an identifier to the named snapshot, creating the snapshot when
    /// it does not exist yet. Insertion order is preserved and duplicates are
    /// kept.
    pub fn append(&mut self, name: String, id: u128)
        ensures
            final(self)@ == spec_snapshot_append(old(self)@, name@, id),
            old(self).wf() ==> final(self).wf(),
    {
        let ghost orig = self@;
        let n = self.entries.len();
        let mut i: usize = 0;
        while i < n
            invariant
                orig == old(self)@,
                self@ == orig,
                n == orig.len(),
                i <= n,
                forall|j: int| 0 <= j < i ==> snapshot_key()(#[trigger] orig[j]) != name@,
            decreases n - i,
        {
            if str_eq(self.entries[i].0.as_str(), name.as_str()) {
                proof {
                    assert(snapshot_key()(orig[i as int]) == name@);
                    lemma_assoc_index_at(orig, snapshot_key(), name@, i as int);
                }
                let mut entry = self.entries.remove(i);
                entry.1.push(id);
                self.entries.insert(i, entry);
                proof {
                    assert(self@ =~= orig.update(i as int, (orig[i as int].0, orig[i as int].1.push(id))));
                    if old(self).wf() {
                        lemma_assoc_update_unique(
                            orig,
                            snapshot_key(),
                            name@,
                            (orig[i as int].0, orig[i as int].1.push(id)),
                        );
                        assert(self@ == assoc_update(
                            orig,
                            snapshot_key(),
                            name@,
                            (orig[i as int].0, orig[i as int].1.push(id)),
                        ));
                    }
                }
                return ;
            }
            proof {
                assert(snapshot_key()(orig[i as int]) == orig[i as int].0);
            }
            i = i + 1;
        }
        proof {
            lemma_assoc_index(orig, snapshot_key(), name@);
            if assoc_index(orig, snapshot_key(), name@) >= 0 {
                assert(snapshot_key()(orig[assoc_index(orig, snapshot_key(), name@)]) != name@);
            }
        }
        let mut ids: Vec<u128> = Vec::new();
        ids.push(id);
        self.entries.push((name, ids));
        proof {
            assert(self@ =~= orig.push((name@, seq![id])));
            if old(self).wf() {
                lemma_assoc_update_unique(orig, snapshot_key(), name@, (name@, seq![id]));
                assert(self@ == assoc_update(orig, snapshot_key(), name@, (name@, seq![id])));
            }
        }
    }
}

// ---------------------------------------------------------------------------
// Recorded modification times
// ---------------------------------------------------------------------------

/// The key of a recorded modification time: the resolved path.
pub open spec fn mtime_key() -> spec_fn((Seq<char>, i64)) -> Seq<char> {
    |e: (Seq<char>, i64)| e.0
}

/// The modification times the embedding program has recorded, one per
/// resolved path. A path without a record counts as unreadable or missing,
/// which the staleness check treats as stale.
pub struct Mtimes {
    entries: Vec<(String, i64)>,
}

impl View for Mtimes {
    type V = Seq<(Seq<char>, i64)>;

    closed spec fn view(&self) -> Seq<(Seq<char>, i64)> {
        Seq::new(self.entries@.len(), |i: int| (self.entries@[i].0@, self.entries@[i].1))
    }
}

impl Mtimes {
    /// Paths are distinct.
    pub open spec fn wf(&self) -> bool {
        assoc_unique(self@, mtime_key())
    }

    /// The recorded time for a path, when there is one.
    pub open spec fn spec_get(&self, path: Seq<char>) -> Option<i64> {
        match assoc_lookup(self@, mtime_key(), path) {
            Option::Some(e) => Option::Some(e.1),
            Option::None => Option::None,
        }
    }

    /// An empty record.
    pub fn new() -> (r: Mtimes)
        ensures
            r@ == Seq::<(Seq<char>, i64)>::empty(),
            r.wf(),
    {
        let r = Mtimes { entries: Vec::new() };
        proof {
            assert(r@ =~= Seq::<(Seq<char>, i64)>::empty());
        }
        r
    }

    /// The recorded time for a path, when there is one.
    pub fn lookup(&self, path: &str) -> (r: Option<i64>)
        ensures
            r == self.spec_get(path@),
    {
        let n = self.entries.len();
        let mut i: usize = 0;
        while i < n
            invariant
                n == self@.len(),
                i <= n,
                forall|j: int| 0 <= j < i ==> mtime_key()(#[trigger] self@[j]) != path@,
            decreases n - i,
        {
            if str_eq(self.entries[i].0.as_str(), path) {
                proof {
                    assert(mtime_key()(self@[i as int]) == path@);
                    lemma_assoc_index_at(self@, mtime_key(), path@, i as int);
                }
                return Some(self.entries[i].1);
            }
            proof {
                assert(mtime_key()(self@[i as int]) == self@[i as int].0);
            }
            i = i + 1;
        }
        proof {
            lemma_assoc_index(self@, mtime_key(), path@);
            if assoc_index(self@, mtime_key(), path@) >= 0 {
                assert(mtime_key()(self@[assoc_index(self@, mtime_key(), path@)]) != path@);
            }
        }
        None
    }

    /// Record the modification time of a resolved path, replacing an earlier
    /// record for the same path.
    pub fn record(&mut self, path: String, mtime: i64)
        ensures
            final(self)@ == assoc_update(old(self)@, mtime_key(), path@, (path@, mtime)),
            old(self).wf() ==> final(self).wf(),
    {
        let ghost orig = self@;
        let n = self.entries.len();
        let mut i: usize = 0;
        while i < n
            invariant
                orig == old(self)@,
                self@ == orig,
                n == orig.len(),
                i <= n,
                forall|j: int| 0 <= j < i ==> mtime_key()(#[trigger] orig[j]) != path@,
            decreases n - i,
        {
            if str_eq(self.entries[i].0.as_str(), path.as_str()) {
                proof {
                    assert(mtime_key()(orig[i as int]) == path@);
                    lemma_assoc_index_at(orig, mtime_key(), path@, i as int);
                }
                self.entries[i] = (path, mtime);
                proof {
                    assert(self@ =~= orig.update(i as int, (path@, mtime)));
                    if old(self).wf() {
                        lemma_assoc_update_unique(orig, mtime_key(), path@, (path@, mtime));
                    }
                }
                return ;
            }
            proof {
                assert(mtime_key()(orig[i as int]) == orig[i as int].0);
            }
            i = i + 1;
        }
        proof {
            lemma_assoc_index(orig, mtime_key(), path@);
            if assoc_index(orig, mtime_key(), path@) >= 0 {
                assert(mtime_key()(orig[assoc_index(orig, mtime_key(), path@)]) != path@);
            }
        }
        self.entries.push((path, mtime));
        proof {
            assert(self@ =~= orig.push((path@, mtime)));
            if old(self).wf() {
                lemma_assoc_update_unique(orig, mtime_key(), path@, (path@, mtime));
            }
        }
    }
}

} // verus!
