//! Path resolution: joining, home-directory expansion and lexical
//! canonicalization of the path strings the engine works with.

use vstd::prelude::*;

verus! {

/// Why a path could not be resolved. Both failures are fatal to a run:
/// they abort it before any reconciliation begins.
#[derive(Clone, Copy, Debug, PartialEq, Eq, Structural)]
pub enum PathError {
    /// The path begins with the home-directory marker, but no home
    /// directory is known.
    HomeDirectoryUnavailable,
    /// The path cannot be canonicalized.
    FilesystemError,
}

impl PathError {
    /// The human-readable label of this error.
    pub fn message(&self) -> (r: String)
        ensures
            match self {
                PathError::HomeDirectoryUnavailable => r@ == "Couldn't retrieve home directory"@,
                PathError::FilesystemError => r@ == "Couldn't expand path"@,
            },
    {
        match self {
            PathError::HomeDirectoryUnavailable => String::from_str(
                "Couldn't retrieve home directory",
            ),
            PathError::FilesystemError => String::from_str("Couldn't expand path"),
        }
    }
}

/// The result of appending component `name` under directory `dir`:
/// `name` is kept as is when it is already absolute, otherwise it is
/// attached behind a single separator.
pub open spec fn join_of(dir: Seq<char>, name: Seq<char>) -> Seq<char> {
    if name.len() > 0 && name[0] == '/' {
        name
    } else if dir.len() == 0 {
        name
    } else if dir[dir.len() - 1] == '/' {
        dir + name
    } else {
        dir + seq!['/'] + name
    }
}

/// Appends `name` under the directory `dir`.
pub fn join(dir: &str, name: &str) -> (r: String)
    ensures
        r@ == join_of(dir@, name@),
{
    proof {
        reveal_strlit("/");
    }
    let name_len = name.unicode_len();
    if name_len > 0 && name.get_char(0) == '/' {
        return name.to_owned();
    }
    let dir_len = dir.unicode_len();
    if dir_len == 0 {
        return name.to_owned();
    }
    let mut r = dir.to_owned();
    if dir.get_char(dir_len - 1) != '/' {
        r.append("/");
        proof {
            assert("/"@ =~= seq!['/']);
        }
    }
    r.append(name);
    proof {
        assert(r@ =~= join_of(dir@, name@));
    }
    r
}

/// Whether `p` begins with the home-directory marker: a leading `~` that is
/// the whole path or its own first component.
pub open spec fn has_marker(p: Seq<char>) -> bool {
    p.len() >= 1 && p[0] == '~' && (p.len() == 1 || p[1] == '/')
}

/// `p` with its home-directory marker replaced by `home`.
pub open spec fn marker_expanded(p: Seq<char>, home: Seq<char>) -> Seq<char> {
    if p.len() == 1 {
        home
    } else {
        home + p.subrange(1, p.len() as int)
    }
}

/// Replaces a leading home-directory marker in `p` by the home directory,
/// when one is known; a path without the marker passes through unchanged.
pub fn tilde(p: &str, home: &Option<String>) -> (r: Result<String, PathError>)
    ensures
        match r {
            Ok(s) => {
                &&& has_marker(p@) ==> (home matches Some(h) && s@ == marker_expanded(p@, h@))
                &&& !has_marker(p@) ==> s@ == p@
            },
            Err(e) => {
                &&& has_marker(p@)
                &&& home is None
                &&& e == PathError::HomeDirectoryUnavailable
            },
        },
{
    let n = p.unicode_len();
    let marker = n >= 1 && p.get_char(0) == '~' && (n == 1 || p.get_char(1) == '/');
    if !marker {
        return Ok(p.to_owned());
    }
    match home {
        None => Err(PathError::HomeDirectoryUnavailable),
        Some(h) => {
            if n == 1 {
                Ok(h.clone())
            } else {
                Ok(h.clone().concat(p.substring_char(1, n)))
            }
        }
    }
}

/// The components of `p`, split at every `/`. Splitting keeps empty
/// components, so the empty path has one empty component and `"a//b"` has
/// an empty component in the middle.
pub open spec fn split_slash(p: Seq<char>) -> Seq<Seq<char>>
    decreases p.len(),
{
    if p.len() == 0 {
        seq![Seq::<char>::empty()]
    } else if p.last() == '/' {
        split_slash(p.drop_last()).push(Seq::<char>::empty())
    } else {
        let s = split_slash(p.drop_last());
        s.update(s.len() - 1, s.last().push(p.last()))
    }
}

/// The components that survive lexical canonicalization, processed left to
/// right: empty components and `.` disappear, `..` removes the component
/// before it (and disappears at the root), anything else stays.
pub open spec fn normed(cs: Seq<Seq<char>>) -> Seq<Seq<char>>
    decreases cs.len(),
{
    if cs.len() == 0 {
        Seq::empty()
    } else {
        let rest = normed(cs.drop_last());
        let c = cs.last();
        if c.len() == 0 || c == seq!['.'] {
            rest
        } else if c == seq!['.', '.'] {
            if rest.len() > 0 {
                rest.drop_last()
            } else {
                rest
            }
        } else {
            rest.push(c)
        }
    }
}

/// The absolute path spelled by `cs`: a `/` before every component.
pub open spec fn join_abs(cs: Seq<Seq<char>>) -> Seq<char>
    decreases cs.len(),
{
    if cs.len() == 0 {
        Seq::empty()
    } else {
        join_abs(cs.drop_last()) + seq!['/'] + cs.last()
    }
}

/// The lexically canonical, absolute form of `p`: its surviving components
/// joined by single separators, or the root when none survives.
pub open spec fn canonical_form(p: Seq<char>) -> Seq<char> {
    let cs = normed(split_slash(p));
    if cs.len() == 0 {
        seq!['/']
    } else {
        join_abs(cs)
    }
}

/// The image of an optional home directory.
pub open spec fn opt_str_view(o: Option<String>) -> Option<Seq<char>> {
    match o {
        Some(s) => Some(s@),
        None => None,
    }
}

/// Whether resolving `p` against `home` succeeds: the path is non-empty,
/// and a home directory is known whenever the marker asks for one.
pub open spec fn resolve_ok(p: Seq<char>, home: Option<Seq<char>>) -> bool {
    &&& p.len() > 0
    &&& (has_marker(p) ==> home is Some)
}

/// The resolved form of `p`: marker expansion, then lexical
/// canonicalization.
pub open spec fn resolved(p: Seq<char>, home: Option<Seq<char>>) -> Seq<char> {
    if has_marker(p) {
        canonical_form(marker_expanded(p, home->0))
    } else {
        canonical_form(p)
    }
}

/// The error resolving `p` against `home` fails with, when it fails.
pub open spec fn resolve_err(p: Seq<char>, home: Option<Seq<char>>) -> PathError {
    if has_marker(p) && home is None {
        PathError::HomeDirectoryUnavailable
    } else {
        PathError::FilesystemError
    }
}

/// The components of `p`, split at every `/`, per [`split_slash`].
fn split_components(p: &str) -> (cs: Vec<String>)
    ensures
        cs.deep_view() == split_slash(p@),
{
    let n = p.unicode_len();
    let mut cs: Vec<String> = Vec::new();
    let mut start: usize = 0;
    let mut i: usize = 0;
    proof {
        assert(cs.deep_view().push(p@.subrange(0, 0)) =~~= split_slash(p@.subrange(0, 0)));
    }
    while i < n
        invariant
            start <= i <= n,
            n == p@.len(),
            cs.deep_view().push(p@.subrange(start as int, i as int)) == split_slash(
                p@.subrange(0, i as int),
            ),
        decreases n - i,
    {
        let ghost old_cs = cs.deep_view();
        let ghost cur = p@.subrange(start as int, i as int);
        proof {
            assert(p@.subrange(0, i + 1).drop_last() =~= p@.subrange(0, i as int));
            assert(p@.subrange(0, i + 1).last() == p@[i as int]);
        }
        if p.get_char(i) == '/' {
            cs.push(p.substring_char(start, i).to_owned());
            start = i + 1;
            proof {
                assert(cs.deep_view() =~~= old_cs.push(cur));
                assert(cs.deep_view().push(p@.subrange(start as int, i + 1)) =~~= split_slash(
                    p@.subrange(0, i as int),
                ).push(Seq::<char>::empty()));
            }
        } else {
            proof {
                let s = split_slash(p@.subrange(0, i as int));
                assert(s == old_cs.push(cur));
                assert(s.last() == cur);
                assert(s.update(s.len() - 1, cur.push(p@[i as int])) =~~= old_cs.push(
                    cur.push(p@[i as int]),
                ));
                assert(cur.push(p@[i as int]) =~= p@.subrange(start as int, i + 1));
            }
        }
        i = i + 1;
    }
    proof {
        assert(p@.subrange(0, n as int) =~= p@);
    }
    cs.push(p.substring_char(start, n).to_owned());
    proof {
        assert(cs.deep_view() =~~= split_slash(p@));
    }
    cs
}

/// The components surviving canonicalization, per [`normed`].
fn norm_stack(cs: &Vec<String>) -> (st: Vec<String>)
    ensures
        st.deep_view() == normed(cs.deep_view()),
{
    proof {
        reveal_strlit(".");
        reveal_strlit("..");
        assert("."@ =~= seq!['.']);
        assert(".."@ =~= seq!['.', '.']);
    }
    let dot = String::from_str(".");
    let dotdot = String::from_str("..");
    let mut st: Vec<String> = Vec::new();
    let mut i: usize = 0;
    proof {
        assert(cs.deep_view().subrange(0, 0) =~= Seq::<Seq<char>>::empty());
        assert(st.deep_view() =~= normed(cs.deep_view().subrange(0, 0)));
    }
    while i < cs.len()
        invariant
            i <= cs.len(),
            cs.deep_view().len() == cs@.len(),
            dot@ == seq!['.'],
            dotdot@ == seq!['.', '.'],
            st.deep_view() == normed(cs.deep_view().subrange(0, i as int)),
        decreases cs.len() - i,
    {
        let ghost old_st = st.deep_view();
        proof {
            assert(cs.deep_view().subrange(0, i + 1).drop_last() =~= cs.deep_view().subrange(
                0,
                i as int,
            ));
            assert(cs.deep_view().subrange(0, i + 1).last() == cs@[i as int]@);
        }
        let c = &cs[i];
        if c.as_str().is_empty() || *c == dot {
            // dropped
        } else if *c == dotdot {
            if st.len() > 0 {
                st.pop();
                proof {
                    assert(st.deep_view() =~= old_st.drop_last());
                }
            }
        } else {
            st.push(c.clone());
            proof {
                assert(st.deep_view() =~= old_st.push(cs@[i as int]@));
            }
        }
        i = i + 1;
    }
    proof {
        assert(cs.deep_view().subrange(0, cs@.len() as int) =~= cs.deep_view());
    }
    st
}

/// The absolute path spelled by the surviving components, per
/// [`canonical_form`].
fn join_components(st: &Vec<String>) -> (r: String)
    ensures
        r@ == (if st.deep_view().len() == 0 {
            seq!['/']
        } else {
            join_abs(st.deep_view())
        }),
{
    proof {
        reveal_strlit("/");
        assert("/"@ =~= seq!['/']);
    }
    if st.len() == 0 {
        return String::from_str("/");
    }
    let mut r = String::new();
    let mut i: usize = 0;
    proof {
        assert(st.deep_view().subrange(0, 0) =~= Seq::<Seq<char>>::empty());
        assert(r@ =~= join_abs(st.deep_view().subrange(0, 0)));
    }
    while i < st.len()
        invariant
            i <= st.len(),
            st.deep_view().len() == st@.len(),
            r@ == join_abs(st.deep_view().subrange(0, i as int)),
        decreases st.len() - i,
    {
        proof {
            reveal_strlit("/");
            assert("/"@ =~= seq!['/']);
            assert(st.deep_view().subrange(0, i + 1).drop_last() =~= st.deep_view().subrange(
                0,
                i as int,
            ));
            assert(st.deep_view().subrange(0, i + 1).last() == st@[i as int]@);
        }
        r.append("/");
        r.append(st[i].as_str());
        proof {
            assert(r@ =~= join_abs(st.deep_view().subrange(0, i + 1)));
        }
        i = i + 1;
    }
    proof {
        assert(st.deep_view().subrange(0, st@.len() as int) =~= st.deep_view());
    }
    r
}

/// Resolves `p`: expands a leading home-directory marker against `home` and
/// reduces the result to its lexically canonical, absolute form. Fails
/// exactly when the marker is present without a known home directory, or
/// when `p` is empty.
pub fn path(p: &str, home: &Option<String>) -> (r: Result<String, PathError>)
    ensures
        match r {
            Ok(s) => resolve_ok(p@, opt_str_view(*home)) && s@ == resolved(
                p@,
                opt_str_view(*home),
            ),
            Err(e) => !resolve_ok(p@, opt_str_view(*home)) && e == resolve_err(
                p@,
                opt_str_view(*home),
            ),
        },
{
    if p.unicode_len() == 0 {
        return Err(PathError::FilesystemError);
    }
    let expanded = match tilde(p, home) {
        Ok(s) => s,
        Err(e) => {
            return Err(e);
        }
    };
    let comps = split_components(expanded.as_str());
    let st = norm_stack(&comps);
    Ok(join_components(&st))
}

/// Resolves `p` like [`path`], for callers that have already ruled the
/// failing inputs out.
pub fn expand_path(p: &str, home: &Option<String>) -> (r: String)
    requires
        resolve_ok(p@, opt_str_view(*home)),
    ensures
        r@ == resolved(p@, opt_str_view(*home)),
{
    match path(p, home) {
        Ok(s) => s,
        Err(_) => vstd::pervasive::unreached(),
    }
}

} // verus!
