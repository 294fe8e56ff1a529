use vstd::prelude::*;
use crate::paths::str_eq;

verus! {

/// A JSON-like metadata value, as produced by compile steps and consumed by
/// template renderers.
pub enum MetaValue {
    Null,
    Bool(bool),
    Int(i64),
    Str(String),
    Arr(Vec<MetaValue>),
    Obj(Vec<(String, MetaValue)>),
}

/// Index of the first entry with key `k`, or `-1` when absent.
pub open spec fn key_index(s: Seq<(String, MetaValue)>, k: Seq<char>) -> int
    decreases s.len(),
{
    if s.len() == 0 {
        -1
    } else if s[0].0@ == k {
        0
    } else {
        let r = key_index(s.drop_first(), k);
        if r == -1 {
            -1
        } else {
            r + 1
        }
    }
}

/// The value stored under key `k`, when there is one.
pub open spec fn spec_get(s: Seq<(String, MetaValue)>, k: Seq<char>) -> Option<MetaValue> {
    if key_index(s, k) == -1 {
        Option::None
    } else {
        Option::Some(s[key_index(s, k)].1)
    }
}

/// The entry sequence after storing `value` under `key`: an existing entry is
/// replaced in place, a new key is appended.
pub open spec fn spec_insert(
    s: Seq<(String, MetaValue)>,
    key: String,
    value: MetaValue,
) -> Seq<(String, MetaValue)> {
    let i = key_index(s, key@);
    if i == -1 {
        s.push((key, value))
    } else {
        s.update(i, (key, value))
    }
}

/// The entry sequence after storing every entry of `b` into `a`, in order.
pub open spec fn spec_extend(
    a: Seq<(String, MetaValue)>,
    b: Seq<(String, MetaValue)>,
) -> Seq<(String, MetaValue)>
    decreases b.len(),
{
    if b.len() == 0 {
        a
    } else {
        spec_extend(spec_insert(a, b[0].0, b[0].1), b.drop_first())
    }
}

/// `key_index` really names the first entry with the key.
pub proof fn lemma_key_index(s: Seq<(String, MetaValue)>, k: Seq<char>)
    ensures
        key_index(s, k) >= -1,
        key_index(s, k) == -1 ==> forall|j: int| 0 <= j < s.len() ==> s[j].0@ != k,
        key_index(s, k) >= 0 ==> {
            &&& key_index(s, k) < s.len()
            &&& s[key_index(s, k)].0@ == k
            &&& forall|j: int| 0 <= j < key_index(s, k) ==> s[j].0@ != k
        },
    decreases s.len(),
{
    if s.len() > 0 && s[0].0@ != k {
        let t = s.drop_first();
        lemma_key_index(t, k);
        assert(forall|j: int| 0 <= j < t.len() ==> t[j] == s[j + 1]);
        assert(key_index(s, k) == (if key_index(t, k) == -1 {
            -1int
        } else {
            key_index(t, k) + 1
        }));
        if key_index(s, k) == -1 {
            assert forall|j: int| 0 <= j < s.len() implies s[j].0@ != k by {
                if j > 0 {
                    assert(t[j - 1].0@ != k);
                    assert(s[j] == t[j - 1]);
                }
            }
        } else {
            let i = key_index(s, k);
            assert(i == key_index(t, k) + 1);
            assert(0 <= i - 1 < t.len());
            assert(t[i - 1].0@ == k);
            assert(s[i] == t[i - 1]);
            assert forall|j: int| 0 <= j < i implies s[j].0@ != k by {
                if j > 0 {
                    assert(t[j - 1].0@ != k);
                    assert(s[j] == t[j - 1]);
                }
            }
        }
    }
}

/// With the facts of `lemma_key_index` at hand, an index whose key matches,
/// while every earlier key does not, is the key's index.
pub proof fn lemma_key_index_at(s: Seq<(String, MetaValue)>, k: Seq<char>, i: int)
    requires
        0 <= i < s.len(),
        s[i].0@ == k,
        forall|j: int| 0 <= j < i ==> s[j].0@ != k,
    ensures
        key_index(s, k) == i,
{
    lemma_key_index(s, k);
    let ki = key_index(s, k);
    if ki == -1 {
        assert(s[i].0@ != k);
    } else if ki < i {
        assert(s[ki].0@ != k);
    } else if ki > i {
        assert(s[i].0@ != k);
    }
}

/// Storing under one key leaves every other key's entry untouched.
pub proof fn lemma_spec_insert_other(
    s: Seq<(String, MetaValue)>,
    key: String,
    value: MetaValue,
    k2: Seq<char>,
)
    requires
        k2 != key@,
    ensures
        spec_get(spec_insert(s, key, value), k2) == spec_get(s, k2),
{
    lemma_key_index(s, key@);
    lemma_key_index(s, k2);
    let i = key_index(s, key@);
    let j = key_index(s, k2);
    let t = spec_insert(s, key, value);
    if j == -1 {
        lemma_key_index(t, k2);
        if key_index(t, k2) >= 0 {
            let m = key_index(t, k2);
            if i == -1 {
                if m < s.len() {
                    assert(t[m] == s[m]);
                } else {
                    assert(t[m] == (key, value));
                }
            } else {
                if m == i {
                    assert(t[m] == (key, value));
                } else {
                    assert(t[m] == s[m]);
                }
            }
        }
    } else {
        assert(j != i);
        assert(t[j] == s[j]);
        assert forall|x: int| 0 <= x < j implies (#[trigger] t[x]).0@ != k2 by {
            if x == i {
                assert(t[x].0@ == key@);
            } else {
                assert(t[x] == s[x]);
            }
        }
        lemma_key_index_at(t, k2, j);
    }
}

impl Clone for MetaValue {
    /// A copy of a value without containers inside is the value itself; a
    /// rebuilt list or object keeps only its shape visible, since the engine
    /// never reads a copy's deep contents in contracts.
    fn clone(&self) -> (r: Self)
        ensures
            !(self is Arr) && !(self is Obj) ==> r == *self,
        decreases self,
    {
        match self {
            MetaValue::Null => MetaValue::Null,
            MetaValue::Bool(b) => MetaValue::Bool(*b),
            MetaValue::Int(i) => MetaValue::Int(*i),
            MetaValue::Str(s) => MetaValue::Str(s.clone()),
            MetaValue::Arr(items) => {
                let mut v: Vec<MetaValue> = Vec::new();
                let mut i: usize = 0;
                while i < items.len()
                    invariant
                        self is Arr && self->Arr_0 == *items,
                        i <= items@.len(),
                    decreases items@.len() - i,
                {
                    proof {
                        broadcast use vstd::std_specs::vec::axiom_vec_index_decreases;

                        assert(decreases_to!(*items => items@[i as int]));
                    }
                    v.push(items[i].clone());
                    i = i + 1;
                }
                MetaValue::Arr(v)
            },
            MetaValue::Obj(entries) => {
                let mut v: Vec<(String, MetaValue)> = Vec::new();
                let mut i: usize = 0;
                while i < entries.len()
                    invariant
                        self is Obj && self->Obj_0 == *entries,
                        i <= entries@.len(),
                    decreases entries@.len() - i,
                {
                    proof {
                        broadcast use vstd::std_specs::vec::axiom_vec_index_decreases;

                        assert(decreases_to!(*entries => entries@[i as int]));
                        assert(decreases_to!(entries@[i as int] => entries@[i as int].1));
                    }
                    v.push((entries[i].0.clone(), entries[i].1.clone()));
                    i = i + 1;
                }
                MetaValue::Obj(v)
            },
        }
    }
}

/// An insertion-ordered map from string keys to metadata values, as carried by
/// every artifact. Replacing a value keeps the entry's position; a new key
/// goes to the end.
pub struct Metadata {
    entries: Vec<(String, MetaValue)>,
}

impl Clone for Metadata {
    /// The copy has the same keys in the same order, so a well-formed map
    /// stays well-formed.
    fn clone(&self) -> (r: Self)
        ensures
            r@.len() == self@.len(),
            forall|i: int| 0 <= i < self@.len() ==> r@[i].0 == self@[i].0,
            forall|i: int|
                0 <= i < self@.len() && !(self@[i].1 is Arr) && !(self@[i].1 is Obj)
                    ==> r@[i] == self@[i],
            self.wf() ==> r.wf(),
    {
        let mut v: Vec<(String, MetaValue)> = Vec::new();
        let mut i: usize = 0;
        while i < self.entries.len()
            invariant
                i <= self@.len(),
                v@.len() == i,
                forall|j: int| 0 <= j < i ==> v@[j].0 == self@[j].0,
                forall|j: int|
                    0 <= j < i && !(self@[j].1 is Arr) && !(self@[j].1 is Obj) ==> v@[j]
                        == self@[j],
            decreases self@.len() - i,
        {
            v.push((self.entries[i].0.clone(), self.entries[i].1.clone()));
            i = i + 1;
        }
        Metadata { entries: v }
    }
}

impl View for Metadata {
    type V = Seq<(String, MetaValue)>;

    closed spec fn view(&self) -> Seq<(String, MetaValue)> {
        self.entries@
    }
}

impl Metadata {
    /// All keys are distinct.
    pub open spec fn wf(&self) -> bool {
        forall|i: int, j: int| 0 <= i < j < self@.len() ==> self@[i].0@ != self@[j].0@
    }

    /// An empty metadata map.
    pub fn new() -> (r: Metadata)
        ensures
            r@ == Seq::<(String, MetaValue)>::empty(),
            r.wf(),
    {
        Metadata { entries: Vec::new() }
    }

    /// Number of entries.
    pub fn len(&self) -> (r: usize)
        ensures
            r == self@.len(),
    {
        self.entries.len()
    }

    /// The entry at a position, for walking the map in order.
    pub fn entry_at(&self, i: usize) -> (r: &(String, MetaValue))
        requires
            i < self@.len(),
        ensures
            *r == self@[i as int],
    {
        &self.entries[i]
    }

    /// The value stored under `key`, when there is one.
    pub fn get(&self, key: &str) -> (r: Option<&MetaValue>)
        ensures
            r is Some <==> spec_get(self@, key@) is Some,
            r is Some ==> *r->0 == spec_get(self@, key@)->0,
    {
        let n = self.entries.len();
        let mut i: usize = 0;
        while i < n
            invariant
                n == self@.len(),
                i <= n,
                forall|j: int| 0 <= j < i ==> self@[j].0@ != key@,
            decreases n - i,
        {
            if str_eq(self.entries[i].0.as_str(), key) {
                proof {
                    lemma_key_index_at(self@, key@, i as int);
                }
                return Some(&self.entries[i].1);
            }
            i = i + 1;
        }
        proof {
            lemma_key_index(self@, key@);
            if key_index(self@, key@) >= 0 {
                assert(self@[key_index(self@, key@)].0@ != key@);
            }
        }
        None
    }

    /// Whether an entry with `key` exists.
    pub fn contains_key(&self, key: &str) -> (r: bool)
        ensures
            r == (spec_get(self@, key@) is Some),
    {
        self.get(key).is_some()
    }

    /// Store `value` under `key`, replacing an existing entry in place.
    pub fn insert(&mut self, key: String, value: MetaValue)
        ensures
            final(self)@ == spec_insert(old(self)@, key, value),
            old(self).wf() ==> final(self).wf(),
    {
        let ghost orig = self@;
        let n = self.entries.len();
        let mut i: usize = 0;
        while i < n
            invariant
                orig == old(self)@,
                self@ == orig,
                n == orig.len(),
                i <= n,
                forall|j: int| 0 <= j < i ==> orig[j].0@ != key@,
            decreases n - i,
        {
            if str_eq(self.entries[i].0.as_str(), key.as_str()) {
                proof {
                    lemma_key_index_at(orig, key@, i as int);
                }
                self.entries[i] = (key, value);
                proof {
                    assert(forall|x: int| 0 <= x < self@.len() ==> self@[x].0@ == orig[x].0@);
                    if old(self).wf() {
                        assert forall|a: int, b: int| 0 <= a < b < self@.len() implies self@[a].0@
                            != self@[b].0@ by {
                            assert(orig[a].0@ != orig[b].0@);
                        }
                    }
                }
                return ;
            }
            i = i + 1;
        }
        proof {
            lemma_key_index(orig, key@);
            if key_index(orig, key@) >= 0 {
                assert(orig[key_index(orig, key@)].0@ != key@);
            }
        }
        self.entries.push((key, value));
        proof {
            if old(self).wf() {
                assert forall|a: int, b: int| 0 <= a < b < self@.len() implies self@[a].0@
                    != self@[b].0@ by {
                    if b < orig.len() {
                        assert(orig[a].0@ != orig[b].0@);
                    } else {
                        assert(self@[b].0@ == key@);
                        assert(orig[a].0@ != key@);
                    }
                }
            }
        }
    }

    /// Store every entry of `other` into this map, in order; entries of
    /// `other` win over existing ones.
    pub fn extend(&mut self, other: Metadata)
        ensures
            final(self)@ == spec_extend(old(self)@, other@),
            old(self).wf() ==> final(self).wf(),
    {
        let mut rest = other.entries;
        while rest.len() > 0
            invariant
                spec_extend(self@, rest@) == spec_extend(old(self)@, other@),
                old(self).wf() ==> self.wf(),
            decreases rest.len(),
        {
            let ghost before = rest@;
            let (k, v) = rest.remove(0);
            proof {
                assert(rest@ =~= before.drop_first());
            }
            self.insert(k, v);
        }
    }
}

} // verus!

