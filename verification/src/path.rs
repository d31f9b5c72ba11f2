//! Lexical mediation of client-supplied relative paths.
//!
//! A requested path is split on `'/'`, normalized (empty and `"."`
//! segments dropped, `".."` popping the segment before it), and
//! rejected when it is absolute, when a `".."` would climb above the
//! user's root, or when nothing is left below the root. The check
//! never consults the filesystem.

use vstd::prelude::*;

use crate::errors::PathError;

verus! {

/// The segments of `s` split on `'/'`; always at least one segment,
/// and empty segments are kept (to be dropped by normalization).
pub open spec fn spec_split(s: Seq<char>) -> Seq<Seq<char>>
    decreases s.len(),
{
    if s.len() == 0 {
        seq![Seq::<char>::empty()]
    } else if s.last() == '/' {
        spec_split(s.drop_last()).push(Seq::<char>::empty())
    } else {
        let r = spec_split(s.drop_last());
        r.update(r.len() - 1, r.last().push(s.last()))
    }
}

pub proof fn lemma_split_nonempty(s: Seq<char>)
    ensures
        spec_split(s).len() >= 1,
    decreases s.len(),
{
    if s.len() > 0 {
        lemma_split_nonempty(s.drop_last());
    }
}

/// One step of lexical normalization over a stack of kept segments:
/// `".."` pops (and fails on an empty stack), `""` and `"."` are
/// dropped, anything else is pushed.
pub open spec fn spec_norm_from(
    segs: Seq<Seq<char>>,
    i: int,
    stack: Seq<Seq<char>>,
) -> Option<Seq<Seq<char>>>
    decreases segs.len() - i,
{
    if i < 0 || i >= segs.len() {
        Some(stack)
    } else {
        let seg = segs[i];
        if seg == seq!['.', '.'] {
            if stack.len() == 0 {
                None
            } else {
                spec_norm_from(segs, i + 1, stack.drop_last())
            }
        } else if seg.len() == 0 || seg == seq!['.'] {
            spec_norm_from(segs, i + 1, stack)
        } else {
            spec_norm_from(segs, i + 1, stack.push(seg))
        }
    }
}

/// The kept segments of a requested path, or `None` when the path is
/// absolute or would climb above its root.
pub open spec fn spec_normalize(s: Seq<char>) -> Option<Seq<Seq<char>>> {
    if s.len() > 0 && s[0] == '/' {
        None
    } else {
        spec_norm_from(spec_split(s), 0, Seq::<Seq<char>>::empty())
    }
}

/// `base` extended by `'/'` and each segment in turn.
pub open spec fn spec_join(base: Seq<char>, segs: Seq<Seq<char>>) -> Seq<char>
    decreases segs.len(),
{
    if segs.len() == 0 {
        base
    } else {
        spec_join(base + seq!['/'] + segs.first(), segs.drop_first())
    }
}

/// The resolved location of a requested path under
/// `storage_root/user_subdir`, or `None` when the request is rejected.
/// A request that resolves to the user root itself (nothing kept) is
/// rejected: every accepted path lies strictly below the root.
pub open spec fn spec_resolve(root: Seq<char>, user: Seq<char>, req: Seq<char>) -> Option<
    Seq<char>,
> {
    match spec_normalize(req) {
        None => None,
        Some(segs) => if segs.len() == 0 {
            None
        } else {
            Some(spec_join(root + seq!['/'] + user, segs))
        },
    }
}

/// Splits `s` on `'/'`.
fn split_slash(s: &str) -> (r: Vec<String>)
    ensures
        r@.map_values(|t: String| t@) == spec_split(s@),
{
    let len = s.unicode_len();
    let mut parts: Vec<String> = Vec::new();
    let mut start: usize = 0;
    let mut i: usize = 0;
    while i < len
        invariant
            len == s@.len(),
            0 <= start <= i <= len,
            parts@.map_values(|t: String| t@).push(s@.subrange(start as int, i as int))
                =~~= spec_split(s@.subrange(0, i as int)),
        decreases len - i,
    {
        let ghost prev = s@.subrange(0, i as int);
        let c = s.get_char(i);
        assert(s@.subrange(0, i + 1 as int).drop_last() =~= prev);
        assert(s@.subrange(0, i + 1 as int).last() == c);
        if c == '/' {
            let seg = s.substring_char(start, i).to_owned();
            assert(seg@ =~= s@.subrange(start as int, i as int));
            parts.push(seg);
            start = i + 1;
            proof {
                lemma_split_nonempty(prev);
                assert(parts@.map_values(|t: String| t@).push(
                    s@.subrange(start as int, i + 1 as int),
                ) =~~= spec_split(s@.subrange(0, i + 1 as int)));
            }
        } else {
            proof {
                lemma_split_nonempty(prev);
                let m = parts@.map_values(|t: String| t@);
                let sp = spec_split(prev);
                assert(m.push(s@.subrange(start as int, i as int)) =~~= sp);
                assert(sp.len() == m.len() + 1);
                assert(sp.last() == s@.subrange(start as int, i as int));
                assert(s@.subrange(start as int, i + 1 as int) =~= sp.last().push(c));
                assert(m.push(s@.subrange(start as int, i + 1 as int)) =~~= spec_split(
                    s@.subrange(0, i + 1 as int),
                ));
            }
        }
        i += 1;
    }
    assert(s@.subrange(0, len as int) =~= s@);
    let last = s.substring_char(start, len).to_owned();
    assert(last@ =~= s@.subrange(start as int, len as int));
    parts.push(last);
    assert(parts@.map_values(|t: String| t@) =~~= spec_split(s@));
    parts
}

/// Normalizes split segments against a stack of kept segments.
fn normalize_segments(parts: &Vec<String>) -> (r: Option<Vec<String>>)
    ensures
        match r {
            Some(stack) => spec_norm_from(parts@.map_values(|t: String| t@), 0, Seq::empty())
                == Some(stack@.map_values(|t: String| t@)),
            None => spec_norm_from(parts@.map_values(|t: String| t@), 0, Seq::empty()) is None,
        },
{
    proof {
        reveal_strlit(".");
        reveal_strlit("..");
    }
    let dot = String::from_str(".");
    let dotdot = String::from_str("..");
    assert(dot@ =~= seq!['.']);
    assert(dotdot@ =~= seq!['.', '.']);
    let ghost segs = parts@.map_values(|t: String| t@);
    let mut stack: Vec<String> = Vec::new();
    assert(stack@.map_values(|t: String| t@) =~= Seq::<Seq<char>>::empty());
    let mut i: usize = 0;
    while i < parts.len()
        invariant
            segs == parts@.map_values(|t: String| t@),
            0 <= i <= parts@.len(),
            dot@ == seq!['.'],
            dotdot@ == seq!['.', '.'],
            spec_norm_from(segs, 0, Seq::empty()) == spec_norm_from(
                segs,
                i as int,
                stack@.map_values(|t: String| t@),
            ),
        decreases parts@.len() - i,
    {
        let seg = &parts[i];
        assert(seg@ == segs[i as int]);
        let ghost st = stack@.map_values(|t: String| t@);
        if seg.as_str().is_empty() {
            assert(spec_norm_from(segs, i as int, st) == spec_norm_from(segs, i + 1 as int, st));
        } else if seg.eq(&dot) {
            assert(segs[i as int] == seq!['.']);
            assert(spec_norm_from(segs, i as int, st) == spec_norm_from(segs, i + 1 as int, st));
        } else if seg.eq(&dotdot) {
            assert(segs[i as int] == seq!['.', '.']);
            if stack.len() == 0 {
                assert(st.len() == 0);
                assert(spec_norm_from(segs, i as int, st) is None);
                return None;
            }
            let _ = stack.pop();
            assert(stack@.map_values(|t: String| t@) =~= st.drop_last());
        } else {
            assert(segs[i as int] != seq!['.', '.'] && segs[i as int] != seq!['.'] && segs[i
                as int].len() != 0);
            stack.push(seg.clone());
            assert(stack@.map_values(|t: String| t@) =~= st.push(seg@));
        }
        i += 1;
    }
    assert(spec_norm_from(segs, parts@.len() as int, stack@.map_values(|t: String| t@))
        == Some(stack@.map_values(|t: String| t@)));
    Some(stack)
}

/// Joins kept segments below `base`, one `'/'` before each.
fn join_segments(base: String, stack: &Vec<String>) -> (r: String)
    ensures
        r@ == spec_join(base@, stack@.map_values(|t: String| t@)),
{
    proof {
        reveal_strlit("/");
    }
    let ghost base0 = base@;
    let ghost segs = stack@.map_values(|t: String| t@);
    let mut r = base;
    assert(segs.subrange(0, segs.len() as int) =~= segs);
    let mut i: usize = 0;
    while i < stack.len()
        invariant
            segs == stack@.map_values(|t: String| t@),
            0 <= i <= segs.len(),
            spec_join(base0, segs) == spec_join(r@, segs.subrange(i as int, segs.len() as int)),
        decreases segs.len() - i,
    {
        proof {
            reveal_strlit("/");
        }
        let ghost rest = segs.subrange(i as int, segs.len() as int);
        let ghost r_before = r@;
        r = r.concat("/").concat(stack[i].as_str());
        proof {
            assert(rest.first() == segs[i as int]);
            assert(rest.drop_first() =~= segs.subrange(i + 1 as int, segs.len() as int));
            assert(r@ =~= r_before + seq!['/'] + rest.first());
            assert(spec_join(r_before, rest) == spec_join(r@, rest.drop_first()));
        }
        i += 1;
    }
    assert(segs.subrange(segs.len() as int, segs.len() as int) =~= Seq::<Seq<char>>::empty());
    r
}

/// Validates `requested` and resolves it to an absolute location
/// strictly below `storage_root/user_subdir`, or rejects it with
/// `InvalidPath`; the filesystem is never consulted.
pub fn resolve(storage_root: &str, user_subdir: &str, requested: &str) -> (r: Result<
    String,
    PathError,
>)
    ensures
        match r {
            Ok(p) => spec_resolve(storage_root@, user_subdir@, requested@) == Some(p@),
            Err(e) => {
                &&& spec_resolve(storage_root@, user_subdir@, requested@) is None
                &&& e == PathError::InvalidPath
            },
        },
{
    proof {
        reveal_strlit("/");
    }
    let rlen = requested.unicode_len();
    if rlen > 0 && requested.get_char(0) == '/' {
        return Err(PathError::InvalidPath);
    }
    let parts = split_slash(requested);
    let stack = match normalize_segments(&parts) {
        Some(st) => st,
        None => {
            return Err(PathError::InvalidPath);
        },
    };
    if stack.len() == 0 {
        return Err(PathError::InvalidPath);
    }
    let base = storage_root.to_owned().concat("/").concat(user_subdir);
    assert(base@ =~= storage_root@ + seq!['/'] + user_subdir@);
    let joined = join_segments(base, &stack);
    Ok(joined)
}

/// The root directory of one user's files: the storage root, a path
/// separator, and the username.
pub fn user_root(storage_root: &str, username: &str) -> (r: String)
    ensures
        r@ == storage_root@ + seq!['/'] + username@,
{
    proof {
        reveal_strlit("/");
    }
    let r = storage_root.to_owned().concat("/").concat(username);
    assert(r@ =~= storage_root@ + seq!['/'] + username@);
    r
}

/// Every join result keeps its base as a prefix; with at least one
/// segment the result is strictly longer and continues with `'/'`.
pub proof fn lemma_join_extends(base: Seq<char>, segs: Seq<Seq<char>>)
    ensures
        spec_join(base, segs).len() >= base.len(),
        spec_join(base, segs).subrange(0, base.len() as int) == base,
        segs.len() > 0 ==> spec_join(base, segs).len() > base.len() && spec_join(base, segs)[base
            .len() as int] == '/',
    decreases segs.len(),
{
    if segs.len() == 0 {
        assert(spec_join(base, segs).subrange(0, base.len() as int) =~= base);
    } else {
        let inner = base + seq!['/'] + segs.first();
        lemma_join_extends(inner, segs.drop_first());
        let j = spec_join(base, segs);
        assert(j == spec_join(inner, segs.drop_first()));
        assert(j.subrange(0, inner.len() as int) == inner);
        assert(j.subrange(0, base.len() as int) =~= base);
        assert(j[base.len() as int] == inner[base.len() as int]);
        assert(inner[base.len() as int] == '/');
    }
}

/// A resolved path always lies strictly below the user's root
/// directory: the root followed by `'/'` is how every accepted result
/// begins.
pub proof fn lemma_resolved_under_root(root: Seq<char>, user: Seq<char>, req: Seq<char>)
    ensures
        match spec_resolve(root, user, req) {
            Some(p) => {
                let user_root = root + seq!['/'] + user;
                &&& p.len() > user_root.len()
                &&& p.subrange(0, user_root.len() as int) == user_root
                &&& p[user_root.len() as int] == '/'
            },
            None => true,
        },
{
    if spec_resolve(root, user, req) is Some {
        let segs = spec_normalize(req).unwrap();
        lemma_join_extends(root + seq!['/'] + user, segs);
    }
}

} // verus!
