//! Rule patterns: normalisation of gitignore-style tokens into globs, and
//! whether a rule's glob owns a path.
use crate::text::{chars_of, push_char, string_of};
use vstd::prelude::*;

verus! {

/// Whether the glob crate accepts `pattern` as glob syntax.
pub uninterp spec fn glob_valid(pattern: Seq<char>) -> bool;

/// Whether `path` matches the accepted glob `pattern` as the glob crate
/// decides it under the given match options.
pub uninterp spec fn glob_matches(
    pattern: Seq<char>,
    path: Seq<char>,
    case_sensitive: bool,
    literal_separator: bool,
    literal_leading_dot: bool,
) -> bool;

/// Relies on `glob::Pattern::new`, which refuses a pattern of bad syntax, and
/// on `glob::Pattern::matches_with`, which matches `path` against the pattern
/// under the given `glob::MatchOptions`.
#[verifier::external_body]
fn glob_match(
    pattern: &str,
    path: &str,
    case_sensitive: bool,
    literal_separator: bool,
    literal_leading_dot: bool,
) -> (r: Option<bool>)
    ensures
        r is Some <==> glob_valid(pattern@),
        r matches Some(b) ==> b == glob_matches(
            pattern@,
            path@,
            case_sensitive,
            literal_separator,
            literal_leading_dot,
        ),
{
    let options = glob::MatchOptions {
        case_sensitive,
        require_literal_separator: literal_separator,
        require_literal_leading_dot: literal_leading_dot,
    };
    match glob::Pattern::new(pattern) {
        Ok(p) => Some(p.matches_with(path, options)),
        Err(_) => None,
    }
}

/// The glob that a pattern token of a CODEOWNERS file stands for.
///
/// A token that starts with neither `*` nor `/` may match at any depth and
/// gets `**/` in front; a leading `/` anchors the pattern at the root and is
/// dropped; a trailing `/` owns the directory's whole tree and gets `**`.
pub open spec fn normalize(token: Seq<char>) -> Seq<char> {
    let prefixed = if token.len() > 0 && (token[0] == '*' || token[0] == '/') {
        token
    } else {
        seq!['*', '*', '/'] + token
    };
    let anchored = if prefixed.len() > 0 && prefixed[0] == '/' {
        prefixed.drop_first()
    } else {
        prefixed
    };
    if anchored.len() > 0 && anchored.last() == '/' {
        anchored + seq!['*', '*']
    } else {
        anchored
    }
}

/// A glob that holds a `/` must match separators literally.
pub open spec fn literal_separator(pattern: Seq<char>) -> bool {
    pattern.contains('/')
}

/// A glob ending in `/*` owns direct children only, never deeper paths.
pub open spec fn direct_children_only(pattern: Seq<char>) -> bool {
    pattern.len() >= 2 && pattern[pattern.len() - 2] == '/' && pattern.last() == '*'
}

/// Whether a rule's glob matches `path` itself: a glob that the glob crate
/// refuses matches nothing; matching ignores case, lets wildcards match a
/// leading `.`, and needs a literal `/` for each `/` when the glob holds one.
pub open spec fn matches(pattern: Seq<char>, path: Seq<char>) -> bool {
    glob_valid(pattern) && glob_matches(pattern, path, false, literal_separator(pattern), false)
}

/// The glob matches one of the ancestors of `path`: the text before one of
/// its `/`, or the root (the empty path) when `path` is not empty.
///
/// Paths are taken as text, with no clean-up: `a/b/` counts `a/b` among its
/// ancestors, `a//b` counts `a/`, and `/a` has the root `""` and no `/`.
pub open spec fn matches_ancestor(pattern: Seq<char>, path: Seq<char>) -> bool {
    (path.len() > 0 && matches(pattern, Seq::empty())) || exists|i: int|
        0 <= i < path.len() && path[i] == '/' && #[trigger] matches(pattern, path.subrange(0, i))
}

/// A rule with this glob owns `path`: the glob matches it, or it matches an
/// ancestor of it and does not end in `/*`.
pub open spec fn pattern_owns(pattern: Seq<char>, path: Seq<char>) -> bool {
    matches(pattern, path) || (!direct_children_only(pattern) && matches_ancestor(pattern, path))
}

/// The characters of the glob for the token `t` (see `normalize`).
pub fn normalize_chars(t: &Vec<char>) -> (r: Vec<char>)
    ensures
        r@ == normalize(t@),
{
    let mut out: Vec<char> = Vec::new();
    let mut i: usize = 0;
    if t.len() > 0 && t[0] == '/' {
        i = 1;
    } else if !(t.len() > 0 && t[0] == '*') {
        out.push('*');
        out.push('*');
        out.push('/');
    }
    let ghost head = out@;
    let ghost from = i as int;
    while i < t.len()
        invariant
            0 <= from <= i <= t.len(),
            out@ == head + t@.subrange(from, i as int),
        decreases t.len() - i,
    {
        out.push(t[i]);
        i = i + 1;
        assert(out@ =~= head + t@.subrange(from, i as int));
    }
    proof {
        let prefixed = if t@.len() > 0 && (t@[0] == '*' || t@[0] == '/') {
            t@
        } else {
            seq!['*', '*', '/'] + t@
        };
        if from == 1 {
            assert(out@ =~= prefixed.drop_first());
        } else {
            assert(out@ =~= prefixed);
        }
    }
    if out.len() > 0 && out[out.len() - 1] == '/' {
        out.push('*');
        out.push('*');
    }
    out
}

/// The glob for a pattern token of a CODEOWNERS file (see `normalize`).
pub fn pattern(token: &str) -> (r: String)
    ensures
        r@ == normalize(token@),
{
    string_of(&normalize_chars(&chars_of(token)))
}

fn contains_char(s: &Vec<char>, c: char) -> (r: bool)
    ensures
        r == s@.contains(c),
{
    let mut i: usize = 0;
    while i < s.len()
        invariant
            i <= s.len(),
            forall|k: int| 0 <= k < i ==> s@[k] != c,
        decreases s.len() - i,
    {
        if s[i] == c {
            return true;
        }
        i = i + 1;
    }
    false
}

/// Whether the glob crate accepts `pattern` (see `glob_valid`).
pub fn glob_accepts(pattern: &str) -> (r: bool)
    ensures
        r == glob_valid(pattern@),
{
    let empty = String::new();
    match glob_match(pattern, empty.as_str(), false, false, false) {
        Some(_) => true,
        None => false,
    }
}

fn matches_path(pattern: &str, path: &str, sep: bool) -> (r: bool)
    requires
        sep == literal_separator(pattern@),
    ensures
        r == matches(pattern@, path@),
{
    match glob_match(pattern, path, false, sep, false) {
        Some(b) => b,
        None => false,
    }
}

/// Ownership from the glob's answers: `direct` says whether the glob matches
/// the path, `children_only` whether it ends in `/*`, and `ancestors` whether
/// it matches each of the path's ancestors. The rule owns the path when it
/// matches it, or matches some ancestor and is not limited to direct children.
pub fn owns_given(direct: bool, children_only: bool, ancestors: &Vec<bool>) -> (r: bool)
    ensures
        r == (direct || (!children_only && exists|i: int|
            0 <= i < ancestors@.len() && #[trigger] ancestors@[i])),
{
    if direct {
        return true;
    }
    if children_only {
        return false;
    }
    let mut i: usize = 0;
    while i < ancestors.len()
        invariant
            i <= ancestors@.len(),
            !direct,
            !children_only,
            forall|k: int| 0 <= k < i ==> !#[trigger] ancestors@[k],
        decreases ancestors.len() - i,
    {
        if ancestors[i] {
            assert(ancestors@[i as int]);
            return true;
        }
        i = i + 1;
    }
    false
}

/// Whether the glob matches each ancestor of `path`: the first entry is for
/// the root, entry `k + 1` for the text before position `k`, which counts
/// only where `path` holds a `/` there.
fn ancestor_answers(pattern: &str, path: &str, sep: bool) -> (r: Vec<bool>)
    requires
        sep == literal_separator(pattern@),
    ensures
        r@.len() == path@.len() + 1,
        r@[0] == (path@.len() > 0 && matches(pattern@, Seq::empty())),
        forall|k: int|
            0 <= k < path@.len() ==> #[trigger] r@[k + 1] == (path@[k] == '/' && matches(
                pattern@,
                path@.subrange(0, k),
            )),
{
    let chars = chars_of(path);
    let mut prefix = String::new();
    let mut out: Vec<bool> = Vec::new();
    let root = chars.len() > 0 && matches_path(pattern, prefix.as_str(), sep);
    out.push(root);
    let mut i: usize = 0;
    while i < chars.len()
        invariant
            i <= chars.len(),
            chars@ == path@,
            sep == literal_separator(pattern@),
            prefix@ == path@.subrange(0, i as int),
            out@.len() == i + 1,
            out@[0] == root,
            root == (path@.len() > 0 && matches(pattern@, Seq::empty())),
            forall|k: int|
                0 <= k < i ==> #[trigger] out@[k + 1] == (path@[k] == '/' && matches(
                    pattern@,
                    path@.subrange(0, k),
                )),
        decreases chars.len() - i,
    {
        let here = chars[i] == '/' && matches_path(pattern, prefix.as_str(), sep);
        out.push(here);
        push_char(&mut prefix, chars[i]);
        i = i + 1;
        assert(prefix@ =~= path@.subrange(0, i as int));
    }
    out
}

/// Whether a rule whose glob is `pattern` owns `path` (see `pattern_owns`).
pub fn owns(pattern: &str, path: &str) -> (r: bool)
    ensures
        r == pattern_owns(pattern@, path@),
{
    let pc = chars_of(pattern);
    let sep = contains_char(&pc, '/');
    let direct = matches_path(pattern, path, sep);
    let n = pc.len();
    let children_only = n >= 2 && pc[n - 2] == '/' && pc[n - 1] == '*';
    let ancestors = if direct || children_only {
        Vec::new()
    } else {
        ancestor_answers(pattern, path, sep)
    };
    let r = owns_given(direct, children_only, &ancestors);
    proof {
        if !direct && !children_only {
            if matches_ancestor(pattern@, path@) {
                if !(path@.len() > 0 && matches(pattern@, Seq::empty())) {
                    let i = choose|i: int|
                        0 <= i < path@.len() && path@[i] == '/' && #[trigger] matches(
                            pattern@,
                            path@.subrange(0, i),
                        );
                    assert(ancestors@[i + 1]);
                } else {
                    assert(ancestors@[0]);
                }
            }
            if exists|i: int| 0 <= i < ancestors@.len() && #[trigger] ancestors@[i] {
                let i = choose|i: int| 0 <= i < ancestors@.len() && #[trigger] ancestors@[i];
                if i > 0 {
                    assert(ancestors@[(i - 1) + 1]);
                }
            }
        }
    }
    r
}

/// A rule whose glob matches a directory owns every path beneath it, unless
/// the glob ends in `/*`.
pub proof fn lemma_implied_children(pattern: Seq<char>, dir: Seq<char>, rest: Seq<char>)
    requires
        !direct_children_only(pattern),
        matches(pattern, dir),
    ensures
        pattern_owns(pattern, dir + seq!['/'] + rest),
{
    let path = dir + seq!['/'] + rest;
    assert(path.subrange(0, dir.len() as int) =~= dir);
    assert(path[dir.len() as int] == '/');
}

/// A glob ending in `/*` owns exactly the paths it matches: it never owns a
/// deeper descendant by implication.
pub proof fn lemma_direct_children_only(pattern: Seq<char>, path: Seq<char>)
    requires
        direct_children_only(pattern),
    ensures
        pattern_owns(pattern, path) == matches(pattern, path),
{
}

/// A token anchored by a leading `/` gives the glob of the bare token with
/// nothing in front, while the bare token gets `**/` in front of that same
/// glob, which lets it match at any depth.
pub proof fn lemma_anchoring(t: Seq<char>)
    requires
        t.len() > 0,
        t[0] != '*',
        t[0] != '/',
    ensures
        normalize(seq!['/'] + t) == if t.last() == '/' {
            t + seq!['*', '*']
        } else {
            t
        },
        normalize(t) == seq!['*', '*', '/'] + normalize(seq!['/'] + t),
{
    let anchored = seq!['/'] + t;
    assert(anchored.drop_first() =~= t);
    let unanchored = seq!['*', '*', '/'] + t;
    assert(unanchored.last() == t.last());
    if t.last() == '/' {
        assert(unanchored + seq!['*', '*'] =~= seq!['*', '*', '/'] + (t + seq!['*', '*']));
    }
}

} // verus!
