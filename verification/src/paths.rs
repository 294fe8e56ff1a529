use vstd::prelude::*;
use vstd::string::StrSliceExecFns;
use vstd::string::StringExecFns;

verus! {

/// Two path strings joined with a single separator.
pub open spec fn spec_join(a: Seq<char>, b: Seq<char>) -> Seq<char> {
    a + "/"@ + b
}

/// Whether `p` is a prefix of `s`.
pub open spec fn has_prefix(s: Seq<char>, p: Seq<char>) -> bool {
    p.len() <= s.len() && s.subrange(0, p.len() as int) == p
}

/// Whether a path string is absolute.
pub open spec fn spec_is_absolute(s: Seq<char>) -> bool {
    s.len() > 0 && s[0] == '/'
}

/// A path resolved against a base directory: an absolute path stands alone,
/// a relative one is joined to the base.
pub open spec fn spec_resolve(base: Seq<char>, p: Seq<char>) -> Seq<char> {
    if spec_is_absolute(p) {
        p
    } else {
        spec_join(base, p)
    }
}

/// A path made relative to a base directory when it lies under it, as used to
/// normalize resource paths against the project root.
pub open spec fn spec_strip_prefix(s: Seq<char>, base: Seq<char>) -> Option<Seq<char>> {
    if s == base {
        Option::Some(Seq::<char>::empty())
    } else if has_prefix(s, base + "/"@) {
        Option::Some(s.skip(base.len() + 1 as int))
    } else {
        Option::None
    }
}

/// Index of the last occurrence of `c` in `s`, or `-1` when absent.
pub open spec fn last_pos(s: Seq<char>, c: char) -> int
    decreases s.len(),
{
    if s.len() == 0 {
        -1
    } else if s[s.len() - 1] == c {
        s.len() - 1
    } else {
        last_pos(s.drop_last(), c)
    }
}

/// The path with the file name's extension replaced by `ext` (or appended when
/// the file name has no extension). A leading dot of a file name does not
/// start an extension.
pub open spec fn spec_set_extension(path: Seq<char>, ext: Seq<char>) -> Seq<char> {
    let slash = last_pos(path, '/');
    let dot = last_pos(path, '.');
    if dot > slash + 1 {
        path.subrange(0, dot) + "."@ + ext
    } else {
        path + "."@ + ext
    }
}

/// The file name's extension, when it has one.
pub open spec fn spec_extension(path: Seq<char>) -> Option<Seq<char>> {
    let slash = last_pos(path, '/');
    let dot = last_pos(path, '.');
    if dot > slash + 1 {
        Option::Some(path.skip(dot + 1))
    } else {
        Option::None
    }
}

/// Character-wise string equality.
pub fn str_eq(a: &str, b: &str) -> (r: bool)
    ensures
        r == (a@ == b@),
{
    let alen = a.unicode_len();
    let blen = b.unicode_len();
    if alen != blen {
        return false;
    }
    let mut i: usize = 0;
    while i < alen
        invariant
            alen == a@.len(),
            blen == b@.len(),
            alen == blen,
            i <= alen,
            forall|j: int| 0 <= j < i ==> a@[j] == b@[j],
        decreases alen - i,
    {
        if a.get_char(i) != b.get_char(i) {
            return false;
        }
        i = i + 1;
    }
    proof {
        assert(a@ =~= b@);
    }
    true
}

/// Whether `s` starts with `p`, character-wise.
pub fn starts_with(s: &str, p: &str) -> (r: bool)
    ensures
        r == has_prefix(s@, p@),
{
    let slen = s.unicode_len();
    let plen = p.unicode_len();
    if plen > slen {
        return false;
    }
    let mut i: usize = 0;
    while i < plen
        invariant
            slen == s@.len(),
            plen == p@.len(),
            plen <= slen,
            i <= plen,
            forall|j: int| 0 <= j < i ==> s@[j] == p@[j],
        decreases plen - i,
    {
        if s.get_char(i) != p.get_char(i) {
            proof {
                assert(s@.subrange(0, p@.len() as int)[i as int] != p@[i as int]);
            }
            return false;
        }
        i = i + 1;
    }
    proof {
        assert(s@.subrange(0, p@.len() as int) =~= p@);
    }
    true
}

/// `a` and `b` joined with a separator.
pub fn join_path(a: &str, b: &str) -> (r: String)
    ensures
        r@ == spec_join(a@, b@),
{
    let mut r = a.to_owned();
    r.append("/");
    r.append(b);
    r
}

/// Whether the path is absolute.
pub fn is_absolute(s: &str) -> (r: bool)
    ensures
        r == spec_is_absolute(s@),
{
    if s.unicode_len() == 0 {
        return false;
    }
    s.get_char(0) == '/'
}

/// The path resolved against a base directory.
pub fn resolve(base: &str, p: &str) -> (r: String)
    ensures
        r@ == spec_resolve(base@, p@),
{
    if is_absolute(p) {
        p.to_owned()
    } else {
        join_path(base, p)
    }
}

/// The path made relative to `base` when it lies under it.
pub fn strip_prefix(s: &str, base: &str) -> (r: Option<String>)
    ensures
        r is Some <==> spec_strip_prefix(s@, base@) is Some,
        r is Some ==> r->0@ == spec_strip_prefix(s@, base@)->0,
{
    if str_eq(s, base) {
        return Some(String::new());
    }
    let prefix = join_path(base, "");
    proof {
        reveal_strlit("");
        assert(prefix@ =~= base@ + "/"@);
    }
    if starts_with(s, prefix.as_str()) {
        let slen = s.unicode_len();
        let blen = base.unicode_len();
        proof {
            reveal_strlit("/");
            assert(blen + 1 <= slen);
        }
        let rest = s.substring_char(blen + 1, slen);
        proof {
            assert(rest@ =~= s@.skip(base@.len() + 1 as int));
        }
        Some(rest.to_owned())
    } else {
        None
    }
}

/// The index of the last occurrence of `c` in `s`, if any.
pub fn find_last(s: &str, c: char) -> (r: Option<usize>)
    ensures
        r is Some ==> last_pos(s@, c) == r->0 && r->0 < s@.len(),
        r is None ==> last_pos(s@, c) == -1,
{
    let n = s.unicode_len();
    let mut i = n;
    proof {
        assert(s@.subrange(0, n as int) =~= s@);
    }
    while i > 0
        invariant
            n == s@.len(),
            i <= n,
            last_pos(s@, c) == last_pos(s@.subrange(0, i as int), c),
        decreases i,
    {
        i = i - 1;
        if s.get_char(i) == c {
            proof {
                assert(s@.subrange(0, i + 1).last() == s@[i as int]);
                assert(last_pos(s@.subrange(0, i + 1), c) == i);
            }
            return Some(i);
        }
        proof {
            assert(s@.subrange(0, i + 1).last() == s@[i as int]);
            assert(s@.subrange(0, i + 1).drop_last() =~= s@.subrange(0, i as int));
        }
    }
    proof {
        assert(s@.subrange(0, 0) =~= Seq::<char>::empty());
    }
    None
}

/// The path with its extension replaced by `ext` (or `ext` appended when the
/// file name has none).
pub fn set_extension(path: &str, ext: &str) -> (r: String)
    ensures
        r@ == spec_set_extension(path@, ext@),
{
    let n = path.unicode_len();
    let slash = find_last(path, '/');
    let dot = find_last(path, '.');
    let replace_at: Option<usize> = match (dot, slash) {
        (Some(d), Some(sl)) => if d > sl + 1 {
            Some(d)
        } else {
            None
        },
        (Some(d), None) => if d > 0 {
            Some(d)
        } else {
            None
        },
        _ => None,
    };
    match replace_at {
        Some(d) => {
            let mut r = path.substring_char(0, d).to_owned();
            r.append(".");
            r.append(ext);
            proof {
                assert(r@ =~= spec_set_extension(path@, ext@));
            }
            r
        },
        None => {
            let mut r = path.to_owned();
            r.append(".");
            r.append(ext);
            proof {
                assert(r@ =~= spec_set_extension(path@, ext@));
            }
            r
        },
    }
}

/// The file name's extension, when it has one.
pub fn extension_of(path: &str) -> (r: Option<String>)
    ensures
        r is Some <==> spec_extension(path@) is Some,
        r is Some ==> r->0@ == spec_extension(path@)->0,
{
    let n = path.unicode_len();
    let slash = find_last(path, '/');
    let dot = find_last(path, '.');
    let cut: Option<usize> = match (dot, slash) {
        (Some(d), Some(sl)) => if d > sl + 1 {
            Some(d)
        } else {
            None
        },
        (Some(d), None) => if d > 0 {
            Some(d)
        } else {
            None
        },
        _ => None,
    };
    match cut {
        Some(d) => {
            let rest = path.substring_char(d + 1, path.unicode_len());
            proof {
                assert(rest@ =~= spec_extension(path@)->0);
            }
            Some(rest.to_owned())
        },
        None => None,
    }
}

} // verus!
