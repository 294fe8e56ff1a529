use vstd::prelude::*;
use vstd::string::StringExecFns;
use crate::error::Error;
use crate::metadata::Metadata;
use crate::metadata::MetaValue;
use crate::paths::spec_join;
use crate::spec_snapshot_ids;
use crate::store::artifact_key;
use crate::store::assoc_index;
use crate::store::assoc_lookup;
use crate::State;

verus! {

/// A compile step: transforms a resource file into a metadata map whose
/// `body` entry holds the primary textual content. A compiler may mutate the
/// build state (to populate snapshots, for instance), but must leave it
/// well-formed, and a map it returns has distinct keys.
pub trait Compiler {
    /// Compile one resource, given by its project-root-relative path.
    fn compile(&mut self, state: &mut State, resource: &str) -> (r: Result<Metadata, Error>)
        requires
            old(state).inv(),
        ensures
            final(state).inv(),
            r is Ok ==> r->Ok_0.wf(),
    ;
}

/// Two compile steps in sequence over the same resource; the second step's
/// entries win where the keys collide.
pub struct SeqCompiler<A, B> {
    /// The step that runs first.
    pub first: A,
    /// The step that runs second.
    pub second: B,
}

impl<A: Compiler, B: Compiler> Compiler for SeqCompiler<A, B> {
    fn compile(&mut self, state: &mut State, resource: &str) -> (r: Result<Metadata, Error>) {
        let mut a = match self.first.compile(state, resource) {
            Ok(m) => m,
            Err(e) => {
                return Err(e);
            },
        };
        let b = match self.second.compile(state, resource) {
            Ok(m) => m,
            Err(e) => {
                return Err(e);
            },
        };
        a.extend(b);
        Ok(a)
    }
}

/// The sequential composition of two compile steps.
pub fn compiler_seq<A: Compiler, B: Compiler>(compiler_a: A, compiler_b: B) -> (r: SeqCompiler<
    A,
    B,
>)
    ensures
        r.first == compiler_a,
        r.second == compiler_b,
{
    SeqCompiler { first: compiler_a, second: compiler_b }
}

/// The decimal digit character for `d`.
pub open spec fn digit_char(d: int) -> char {
    if d == 0 {
        '0'
    } else if d == 1 {
        '1'
    } else if d == 2 {
        '2'
    } else if d == 3 {
        '3'
    } else if d == 4 {
        '4'
    } else if d == 5 {
        '5'
    } else if d == 6 {
        '6'
    } else if d == 7 {
        '7'
    } else if d == 8 {
        '8'
    } else {
        '9'
    }
}

/// The decimal representation of a number, most significant digit first.
pub open spec fn dec_rep(n: nat) -> Seq<char>
    decreases n,
{
    if n < 10 {
        seq![digit_char(n as int)]
    } else {
        dec_rep(n / 10).push(digit_char((n % 10) as int))
    }
}

/// The decimal digit character of `n % 10` as a string slice.
fn digit_str(n: u128) -> (r: &'static str)
    ensures
        r@ == seq![digit_char((n % 10) as int)],
{
    proof {
        reveal_strlit("0");
        reveal_strlit("1");
        reveal_strlit("2");
        reveal_strlit("3");
        reveal_strlit("4");
        reveal_strlit("5");
        reveal_strlit("6");
        reveal_strlit("7");
        reveal_strlit("8");
        reveal_strlit("9");
    }
    match n % 10 {
        0 => "0",
        1 => "1",
        2 => "2",
        3 => "3",
        4 => "4",
        5 => "5",
        6 => "6",
        7 => "7",
        8 => "8",
        _ => "9",
    }
}

/// The decimal representation of a number.
fn u128_to_string(n: u128) -> (r: String)
    ensures
        r@ == dec_rep(n as nat),
    decreases n,
{
    let digit = digit_str(n);
    if n < 10 {
        digit.to_owned()
    } else {
        let mut r = u128_to_string(n / 10);
        r.append(digit);
        proof {
            assert(r@ =~= dec_rep((n / 10) as nat).push(digit_char((n % 10) as int)));
        }
        r
    }
}

/// One channel item of a feed, assembled from an artifact's metadata.
pub struct RssItem {
    pub title: String,
    pub description: String,
    pub link: String,
    pub last_build_date: String,
    pub pub_date: String,
    pub ttl: i32,
}

/// The string stored under `k`, when the entry exists and is a string.
pub open spec fn meta_string(
    md: Seq<(String, MetaValue)>,
    k: Seq<char>,
) -> Option<Seq<char>> {
    match crate::metadata::spec_get(md, k) {
        Option::Some(MetaValue::Str(s)) => Option::Some(s@),
        _ => Option::None,
    }
}

/// What one feed item holds, given its artifact and the channel link.
pub open spec fn spec_rss_item(
    a: crate::BuildArtifact,
    link: Seq<char>,
    item: RssItem,
) -> bool {
    &&& item.title@ == (match meta_string(a.metadata@, "title"@) {
        Option::Some(t) => t,
        Option::None => "No title, uuid: "@ + dec_rep(a.uuid as nat),
    })
    &&& item.description@ == (match meta_string(a.metadata@, "body"@) {
        Option::Some(b) => b,
        Option::None => Seq::<char>::empty(),
    })
    &&& item.link@ == spec_join(link, a.path@)
    &&& item.last_build_date@ == Seq::<char>::empty()
    &&& item.pub_date@ == (match meta_string(a.metadata@, "date"@) {
        Option::Some(d) => d,
        Option::None => "Thu, 01 Jan 1970 00:00:00 +0000"@,
    })
    &&& item.ttl == 1800
}

/// Assemble one feed item per identifier in the named snapshot, in snapshot
/// order: title, body and date come from each artifact's metadata, with
/// documented fallbacks, and the item link joins the channel link with the
/// artifact's output path. Fails exactly when the snapshot does not exist,
/// which signals an empty or misspelled source rule.
pub fn rss_items(state: &State, snapshot_name: &str, config_link: &str) -> (r: Result<
    Vec<RssItem>,
    Error,
>)
    requires
        state.inv(),
        spec_snapshot_ids(state@, snapshot_name@) is Some ==> forall|i: int|
            0 <= i < spec_snapshot_ids(state@, snapshot_name@)->0.len() ==> assoc_index(
                state@.artifacts,
                artifact_key(),
                #[trigger] spec_snapshot_ids(state@, snapshot_name@)->0[i],
            ) >= 0,
    ensures
        r is Ok <==> spec_snapshot_ids(state@, snapshot_name@) is Some,
        r is Err ==> (r->Err_0 matches Error::NoSuchSnapshot(name) && name@ == snapshot_name@),
        r is Ok ==> {
            let ids = spec_snapshot_ids(state@, snapshot_name@)->0;
            &&& r->Ok_0@.len() == ids.len()
            &&& forall|i: int|
                0 <= i < ids.len() ==> spec_rss_item(
                    assoc_lookup(state@.artifacts, artifact_key(), ids[i])->0,
                    config_link@,
                    #[trigger] r->Ok_0@[i],
                )
        },
{
    let ids = match state.get_snapshot(snapshot_name) {
        Ok(ids) => ids,
        Err(e) => {
            return Err(e);
        },
    };
    let ghost idsv = spec_snapshot_ids(state@, snapshot_name@)->0;
    let mut items: Vec<RssItem> = Vec::new();
    let n = ids.len();
    let mut i: usize = 0;
    while i < n
        invariant
            state.inv(),
            ids@ == idsv,
            n == idsv.len(),
            i <= n,
            forall|j: int|
                0 <= j < idsv.len() ==> assoc_index(
                    state@.artifacts,
                    artifact_key(),
                    #[trigger] idsv[j],
                ) >= 0,
            items@.len() == i,
            forall|j: int|
                0 <= j < i ==> spec_rss_item(
                    assoc_lookup(state@.artifacts, artifact_key(), idsv[j])->0,
                    config_link@,
                    #[trigger] items@[j],
                ),
        decreases n - i,
    {
        let id = ids[i];
        proof {
            crate::store::lemma_assoc_index(state@.artifacts, artifact_key(), id);
        }
        let artifact = match state.artifacts().get(id) {
            Some(a) => a,
            None => {
                proof {
                    assert(false);
                }
                return Err(
                    Error::Io(
                        String::from_str("the snapshot references an unregistered artifact"),
                    ),
                );
            },
        };
        let title = match artifact.metadata.get("title") {
            Some(MetaValue::Str(t)) => t.clone(),
            _ => String::from_str("No title, uuid: ").concat(u128_to_string(id).as_str()),
        };
        let description = match artifact.metadata.get("body") {
            Some(MetaValue::Str(b)) => b.clone(),
            _ => String::new(),
        };
        let pub_date = match artifact.metadata.get("date") {
            Some(MetaValue::Str(d)) => d.clone(),
            _ => String::from_str("Thu, 01 Jan 1970 00:00:00 +0000"),
        };
        let link = crate::paths::join_path(config_link, artifact.path.as_str());
        items.push(
            RssItem {
                title,
                description,
                link,
                last_build_date: String::new(),
                pub_date,
                ttl: 1800,
            },
        );
        i = i + 1;
    }
    Ok(items)
}

} // verus!
