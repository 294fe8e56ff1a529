use vstd::prelude::*;
use crate::paths::str_eq;

verus! {

broadcast use {
    vstd::std_specs::vec::axiom_vec_index_decreases,
    vstd::std_specs::vec::axiom_vec_decreases_to_view,
    vstd::seq::axiom_seq_index_decreases,
    vstd::seq::axiom_seq_subrange_decreases,
};

/// Whether the pattern text is a valid regular expression.
pub uninterp spec fn regex_valid(pattern: Seq<char>) -> bool;

/// Whether the regular expression matches somewhere in the text.
pub uninterp spec fn regex_match(pattern: Seq<char>, text: Seq<char>) -> bool;

/// Relies on regex's `Regex::new` and `Regex::is_match`: compiles the pattern
/// and searches the text. Compilability and the match are functions of the
/// two strings alone.
#[verifier::external_body]
fn regex_is_match(pattern: &str, text: &str) -> (r: Option<bool>)
    ensures
        r is Some <==> regex_valid(pattern@),
        r is Some ==> r->0 == regex_match(pattern@, text@),
{
    regex::Regex::new(pattern).ok().map(|re| re.is_match(text))
}

/// Match candidate paths by a literal, a regular expression, or a list of
/// patterns.
pub enum MatchPattern {
    /// The candidate path itself.
    Literal(String),
    /// A regular expression over candidate paths; only
    /// [`MatchPattern::new`] builds this variant, from text that compiles.
    Regex(String),
    /// Any of these patterns.
    List(Vec<MatchPattern>),
}

/// Every regex pattern in the tree is a valid regular expression, as
/// construction through [`MatchPattern::new`] guarantees.
pub open spec fn pattern_wf(p: MatchPattern) -> bool
    decreases p,
{
    match p {
        MatchPattern::Literal(_) => true,
        MatchPattern::Regex(s) => regex_valid(s@),
        MatchPattern::List(list) => patterns_wf(list@),
    }
}

/// Every pattern of the sequence is well-formed.
pub open spec fn patterns_wf(s: Seq<MatchPattern>) -> bool
    decreases s,
{
    if s.len() == 0 {
        true
    } else {
        pattern_wf(s.first()) && patterns_wf(s.drop_first())
    }
}

/// `patterns_wf` holds exactly when each member is well-formed.
pub proof fn lemma_patterns_wf(s: Seq<MatchPattern>)
    ensures
        patterns_wf(s) <==> forall|i: int| 0 <= i < s.len() ==> pattern_wf(#[trigger] s[i]),
    decreases s.len(),
{
    if s.len() > 0 {
        lemma_patterns_wf(s.drop_first());
        assert(forall|i: int| 0 <= i < s.drop_first().len() ==> s.drop_first()[i] == s[i + 1]);
        if patterns_wf(s) {
            assert forall|i: int| 0 <= i < s.len() implies pattern_wf(#[trigger] s[i]) by {
                if i > 0 {
                    assert(pattern_wf(s.drop_first()[i - 1]));
                }
            }
        }
        if forall|i: int| 0 <= i < s.len() ==> pattern_wf(#[trigger] s[i]) {
            assert forall|i: int|
                0 <= i < s.drop_first().len() implies pattern_wf(
                #[trigger] s.drop_first()[i],
            ) by {
                assert(s.drop_first()[i] == s[i + 1]);
            }
        }
    }
}

/// Whether a pattern matches a candidate path: a literal equals it, a regular
/// expression matches it, a list matches when any member does.
pub open spec fn spec_matches(p: MatchPattern, path: Seq<char>) -> bool
    decreases p,
{
    match p {
        MatchPattern::Literal(s) => s@ == path,
        MatchPattern::Regex(s) => regex_match(s@, path),
        MatchPattern::List(list) => any_matches(list@, path),
    }
}

/// Whether any pattern of the sequence matches the path.
pub open spec fn any_matches(s: Seq<MatchPattern>, path: Seq<char>) -> bool
    decreases s,
{
    if s.len() == 0 {
        false
    } else {
        spec_matches(s.first(), path) || any_matches(s.drop_first(), path)
    }
}

/// `any_matches` holds exactly when some member matches.
pub proof fn lemma_any_matches(s: Seq<MatchPattern>, path: Seq<char>)
    ensures
        any_matches(s, path) <==> exists|i: int|
            0 <= i < s.len() && spec_matches(#[trigger] s[i], path),
    decreases s.len(),
{
    if s.len() > 0 {
        lemma_any_matches(s.drop_first(), path);
        assert(forall|i: int| 0 <= i < s.drop_first().len() ==> s.drop_first()[i] == s[i + 1]);
        if any_matches(s, path) {
            if spec_matches(s.first(), path) {
                assert(spec_matches(s[0], path));
            } else {
                let i = choose|i: int|
                    0 <= i < s.drop_first().len() && spec_matches(
                        #[trigger] s.drop_first()[i],
                        path,
                    );
                assert(spec_matches(s[i + 1], path));
            }
        }
        if exists|i: int| 0 <= i < s.len() && spec_matches(#[trigger] s[i], path) {
            let i = choose|i: int| 0 <= i < s.len() && spec_matches(#[trigger] s[i], path);
            if i > 0 {
                assert(spec_matches(s.drop_first()[i - 1], path));
            }
        }
    }
}

impl MatchPattern {
    /// A pattern from its text: text that compiles as a regular expression
    /// matches as one, any other text matches as a literal.
    pub fn new(pattern: &str) -> (r: MatchPattern)
        ensures
            pattern_wf(r),
            regex_valid(pattern@) ==> (r is Regex && r->Regex_0@ == pattern@),
            !regex_valid(pattern@) ==> (r is Literal && r->Literal_0@ == pattern@),
    {
        match regex_is_match(pattern, "") {
            Some(_) => MatchPattern::Regex(pattern.to_owned()),
            None => MatchPattern::Literal(pattern.to_owned()),
        }
    }

    /// Whether this pattern matches a candidate path. (On a pattern that was
    /// not built well-formed, an invalid regular expression matches nothing.)
    pub fn matches(&self, path: &str) -> (r: bool)
        ensures
            pattern_wf(*self) ==> r == spec_matches(*self, path@),
        decreases self,
    {
        match self {
            MatchPattern::Literal(s) => str_eq(s.as_str(), path),
            MatchPattern::Regex(s) => {
                match regex_is_match(s.as_str(), path) {
                    Some(b) => b,
                    None => false,
                }
            },
            MatchPattern::List(list) => {
                let ghost lv = list@;
                proof {
                    if pattern_wf(*self) {
                        lemma_patterns_wf(lv);
                    }
                }
                let mut i: usize = 0;
                while i < list.len()
                    invariant
                        self is List && self->List_0 == *list,
                        lv == list@,
                        i <= lv.len(),
                        pattern_wf(*self) ==> patterns_wf(lv),
                        pattern_wf(*self) ==> forall|j: int|
                            0 <= j < i ==> !spec_matches(#[trigger] lv[j], path@),
                    decreases lv.len() - i,
                {
                    proof {
                        assert(decreases_to!(*self => *list));
                        assert(decreases_to!(*list => list@[i as int]));
                        if pattern_wf(*self) {
                            lemma_patterns_wf(lv);
                        }
                    }
                    if list[i].matches(path) {
                        proof {
                            if pattern_wf(*self) {
                                lemma_any_matches(lv, path@);
                                assert(spec_matches(lv[i as int], path@));
                            }
                        }
                        return true;
                    }
                    i = i + 1;
                }
                proof {
                    if pattern_wf(*self) {
                        lemma_any_matches(lv, path@);
                        if any_matches(lv, path@) {
                            let j = choose|j: int|
                                0 <= j < lv.len() && spec_matches(#[trigger] lv[j], path@);
                            assert(!spec_matches(lv[j], path@));
                        }
                    }
                }
                false
            },
        }
    }
}

} // verus!
