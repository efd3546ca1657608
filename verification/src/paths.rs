use vstd::prelude::*;

use crate::error::{Error, ErrorKind};

verus! {

// A slash-separated path is modelled as the sequence of its segments, and a
// normalized path as the stack of real segments left after every `.` is
// dropped and every `..` pops.  The containment check walks a candidate's raw
// segments against the normalized path of the current directory; the lemma at
// the end shows that whatever it accepts normalizes to something strictly
// below the current directory, which is what makes the crawl a tree.

/// One step of splitting: a `/` opens a fresh segment, any other character
/// extends the last one.
pub open spec fn split_step(acc: Seq<Seq<char>>, c: char) -> Seq<Seq<char>> {
    if c == '/' {
        acc.push(Seq::empty())
    } else {
        acc.update(acc.len() - 1, acc.last().push(c))
    }
}

/// The segments of `s` split on `/`; always at least one (possibly empty)
/// segment, as `str::split` would give.
pub open spec fn split_path(s: Seq<char>) -> Seq<Seq<char>>
    decreases s.len(),
{
    if s.len() == 0 {
        seq![Seq::empty()]
    } else {
        split_step(split_path(s.drop_last()), s.last())
    }
}

/// The real segments of a raw segment sequence: everything but the empty and
/// `.` entries, in order.
pub open spec fn real_segments(segs: Seq<Seq<char>>) -> Seq<Seq<char>>
    decreases segs.len(),
{
    if segs.len() == 0 {
        Seq::empty()
    } else {
        let rest = real_segments(segs.drop_last());
        if segs.last().len() == 0 || segs.last() == seq!['.'] {
            rest
        } else {
            rest.push(segs.last())
        }
    }
}

/// One step of normalization: empty and `.` segments are dropped, `..` pops
/// (failing on an empty stack), anything else is pushed.
pub open spec fn normalize_step(acc: Option<Seq<Seq<char>>>, seg: Seq<char>) -> Option<
    Seq<Seq<char>>,
> {
    match acc {
        None => None,
        Some(stack) => {
            if seg.len() == 0 || seg == seq!['.'] {
                Some(stack)
            } else if seg == seq!['.', '.'] {
                if stack.len() == 0 {
                    None
                } else {
                    Some(stack.drop_last())
                }
            } else {
                Some(stack.push(seg))
            }
        },
    }
}

/// The normalized form of a raw segment sequence, or `None` if some `..`
/// pops past the root.
pub open spec fn normalize_segments(segs: Seq<Seq<char>>) -> Option<Seq<Seq<char>>>
    decreases segs.len(),
{
    if segs.len() == 0 {
        Some(Seq::empty())
    } else {
        normalize_step(normalize_segments(segs.drop_last()), segs.last())
    }
}

/// The normalized form of a raw slash-separated path.
pub open spec fn normalize_spec(path: Seq<char>) -> Option<Seq<Seq<char>>> {
    normalize_segments(split_path(path))
}

proof fn lemma_normalize_segments_without_dotdot(segs: Seq<Seq<char>>)
    requires
        forall|i: int| 0 <= i < segs.len() ==> segs[i] != seq!['.', '.'],
    ensures
        normalize_segments(segs) == Some(real_segments(segs)),
    decreases segs.len(),
{
    if segs.len() > 0 {
        assert forall|i: int| 0 <= i < segs.drop_last().len() implies segs.drop_last()[i] != seq![
            '.',
            '.',
        ] by {
            assert(segs.drop_last()[i] == segs[i]);
        }
        lemma_normalize_segments_without_dotdot(segs.drop_last());
        assert(segs.last() != seq!['.', '.']);
    }
}

/// A path none of whose segments is `..` always normalizes, and to exactly
/// its real segments — the non-empty, non-`.` ones, in order.
pub proof fn lemma_normalize_without_dotdot(path: Seq<char>)
    requires
        forall|i: int| 0 <= i < split_path(path).len() ==> split_path(path)[i] != seq!['.', '.'],
    ensures
        normalize_spec(path) == Some(real_segments(split_path(path))),
{
    lemma_normalize_segments_without_dotdot(split_path(path));
}

/// One step of the containment walk at depth `d` against the normalized
/// `current` path: empty and `.` segments are no-ops, `..` steps up (failing
/// below zero), a real segment must agree with `current` while still inside
/// it and steps down.
pub open spec fn descend_step(current: Seq<Seq<char>>, acc: Option<int>, seg: Seq<char>) -> Option<
    int,
> {
    match acc {
        None => None,
        Some(d) => {
            if seg.len() == 0 || seg == seq!['.'] {
                Some(d)
            } else if seg == seq!['.', '.'] {
                if d == 0 {
                    None
                } else {
                    Some(d - 1)
                }
            } else {
                if d < current.len() && current[d] != seg {
                    None
                } else {
                    Some(d + 1)
                }
            }
        },
    }
}

/// The depth reached after walking all of `segs`, or `None` if the walk
/// failed.
pub open spec fn descend_depth(current: Seq<Seq<char>>, segs: Seq<Seq<char>>) -> Option<int>
    decreases segs.len(),
{
    if segs.len() == 0 {
        Some(0)
    } else {
        descend_step(current, descend_depth(current, segs.drop_last()), segs.last())
    }
}

/// Whether the raw path `candidate` points strictly below the directory whose
/// normalized path is `current`: the walk must survive and end deeper than
/// `current` is long.
pub open spec fn is_descendant_spec(current: Seq<Seq<char>>, candidate: Seq<char>) -> bool {
    match descend_depth(current, split_path(candidate)) {
        Some(d) => d > current.len(),
        None => false,
    }
}

// ---------------------------------------------------------------------------
// Executable code
// ---------------------------------------------------------------------------

/// Character-for-character string equality, decided over the views.
pub fn str_eq(a: &str, b: &str) -> (r: bool)
    ensures
        r == (a@ == b@),
{
    let na = a.unicode_len();
    let nb = b.unicode_len();
    if na != nb {
        proof {
            assert(a@ != b@) by {
                if a@ == b@ {
                    assert(a@.len() == b@.len());
                }
            }
        }
        return false;
    }
    let mut i: usize = 0;
    while i < na
        invariant
            i <= na,
            na == a@.len(),
            nb == b@.len(),
            na == nb,
            forall|j: int| 0 <= j < i ==> a@[j] == b@[j],
        decreases na - i,
    {
        let ca = a.get_char(i);
        let cb = b.get_char(i);
        if ca != cb {
            proof {
                assert(a@ != b@) by {
                    if a@ == b@ {
                        assert(a@[i as int] == b@[i as int]);
                    }
                }
            }
            return false;
        }
        i += 1;
    }
    proof {
        assert(a@ =~= b@);
    }
    true
}

/// Splits a raw path on `/`, mirroring `split_path` on the view.
pub fn split_slashes(s: &str) -> (r: Vec<String>)
    ensures
        r.deep_view() == split_path(s@),
{
    let n = s.unicode_len();
    let mut r: Vec<String> = Vec::new();
    let mut start: usize = 0;
    let mut i: usize = 0;
    proof {
        assert(s@.subrange(0, 0) =~= Seq::<char>::empty());
        assert(split_path(s@.take(0)) =~= r.deep_view().push(s@.subrange(0, 0)));
    }
    while i < n
        invariant
            start <= i <= n,
            n == s@.len(),
            split_path(s@.take(i as int)) == r.deep_view().push(
                s@.subrange(start as int, i as int),
            ),
        decreases n - i,
    {
        let c = s.get_char(i);
        proof {
            assert(s@.take(i + 1).drop_last() =~= s@.take(i as int));
            assert(s@.take(i + 1).last() == s@[i as int]);
            assert(split_path(s@.take(i + 1)) == split_step(
                split_path(s@.take(i as int)),
                s@[i as int],
            ));
        }
        if c == '/' {
            let seg = s.substring_char(start, i);
            let ghost prev = r.deep_view();
            r.push(seg.to_owned());
            proof {
                assert(r.deep_view() =~= prev.push(s@.subrange(start as int, i as int)));
                assert(s@.subrange(i + 1, i + 1) =~= Seq::<char>::empty());
                assert(split_path(s@.take(i + 1)) =~= r.deep_view().push(
                    s@.subrange(i + 1, i + 1),
                ));
            }
            start = i + 1;
        } else {
            proof {
                let prev = r.deep_view().push(s@.subrange(start as int, i as int));
                assert(prev.last() == s@.subrange(start as int, i as int));
                assert(s@.subrange(start as int, i as int).push(s@[i as int]) =~= s@.subrange(
                    start as int,
                    i + 1,
                ));
                assert(split_step(prev, s@[i as int]) =~= r.deep_view().push(
                    s@.subrange(start as int, i + 1),
                ));
            }
        }
        i += 1;
    }
    let seg = s.substring_char(start, n);
    let ghost prev = r.deep_view();
    r.push(seg.to_owned());
    proof {
        assert(s@.take(n as int) =~= s@);
        assert(r.deep_view() =~= prev.push(s@.subrange(start as int, n as int)));
    }
    r
}

/// Whether a segment is exactly `.`.
fn seg_is_dot(s: &str) -> (r: bool)
    ensures
        r == (s@ == seq!['.']),
{
    proof {
        reveal_strlit(".");
        assert("."@ =~= seq!['.']);
    }
    str_eq(s, ".")
}

/// Whether a segment is exactly `..`.
fn seg_is_dotdot(s: &str) -> (r: bool)
    ensures
        r == (s@ == seq!['.', '.']),
{
    proof {
        reveal_strlit("..");
        assert(".."@ =~= seq!['.', '.']);
    }
    str_eq(s, "..")
}

/// Once a prefix of the segments fails to normalize, the whole sequence does.
proof fn lemma_normalize_none_persists(segs: Seq<Seq<char>>, i: int)
    requires
        0 <= i <= segs.len(),
        normalize_segments(segs.take(i)) is None,
    ensures
        normalize_segments(segs) is None,
    decreases segs.len() - i,
{
    if i == segs.len() {
        assert(segs.take(i) =~= segs);
    } else {
        assert(segs.take(i + 1).drop_last() =~= segs.take(i));
        assert(segs.take(i + 1).last() == segs[i]);
        lemma_normalize_none_persists(segs, i + 1);
    }
}

/// Normalizes a raw slash-separated path into its stack of real segments;
/// a path on which some `..` pops past the root is invalid.
pub fn normalize_path(path: &str) -> (r: Result<Vec<String>, Error>)
    ensures
        match r {
            Ok(v) => normalize_spec(path@) == Some(v.deep_view()),
            Err(e) => normalize_spec(path@) is None && e.kind is InvalidPath,
        },
{
    let segs = split_slashes(path);
    let ghost gsegs = segs.deep_view();
    let mut stack: Vec<String> = Vec::new();
    let mut i: usize = 0;
    while i < segs.len()
        invariant
            i <= segs.len(),
            gsegs == segs.deep_view(),
            gsegs == split_path(path@),
            normalize_segments(gsegs.take(i as int)) == Some(stack.deep_view()),
        decreases segs.len() - i,
    {
        proof {
            assert(gsegs.take(i + 1).drop_last() =~= gsegs.take(i as int));
            assert(gsegs.take(i + 1).last() == gsegs[i as int]);
            assert(gsegs[i as int] == segs@[i as int]@);
        }
        let seg = &segs[i];
        if seg.as_str().is_empty() || seg_is_dot(seg.as_str()) {
            proof {
                assert(normalize_segments(gsegs.take(i + 1)) == Some(stack.deep_view()));
            }
        } else if seg_is_dotdot(seg.as_str()) {
            if stack.len() == 0 {
                proof {
                    assert(normalize_segments(gsegs.take(i + 1)) is None);
                    lemma_normalize_none_persists(gsegs, i + 1);
                }
                return Err(Error::new(ErrorKind::InvalidPath));
            }
            let ghost prev = stack.deep_view();
            stack.pop();
            proof {
                assert(stack.deep_view() =~= prev.drop_last());
            }
        } else {
            let ghost prev = stack.deep_view();
            stack.push(seg.clone());
            proof {
                assert(stack.deep_view() =~= prev.push(gsegs[i as int]));
            }
        }
        i += 1;
    }
    proof {
        assert(gsegs.take(i as int) =~= gsegs);
    }
    Ok(stack)
}

/// Once the containment walk fails on a prefix, it fails on the whole.
proof fn lemma_descend_none_persists(current: Seq<Seq<char>>, segs: Seq<Seq<char>>, i: int)
    requires
        0 <= i <= segs.len(),
        descend_depth(current, segs.take(i)) is None,
    ensures
        descend_depth(current, segs) is None,
    decreases segs.len() - i,
{
    if i == segs.len() {
        assert(segs.take(i) =~= segs);
    } else {
        assert(segs.take(i + 1).drop_last() =~= segs.take(i));
        assert(segs.take(i + 1).last() == segs[i]);
        lemma_descend_none_persists(current, segs, i + 1);
    }
}

/// Decides whether the raw path `candidate` lies strictly below the directory
/// whose normalized segments are `current`; equal paths, parents, siblings
/// and everything outside the subtree are rejected.
pub fn is_descendant_or_equal(current: &Vec<String>, candidate: &str) -> (r: bool)
    ensures
        r == is_descendant_spec(current.deep_view(), candidate@),
{
    let segs = split_slashes(candidate);
    let ghost gsegs = segs.deep_view();
    let ghost gcur = current.deep_view();
    let mut depth: usize = 0;
    let mut i: usize = 0;
    while i < segs.len()
        invariant
            i <= segs.len(),
            depth <= i,
            gsegs == segs.deep_view(),
            gsegs == split_path(candidate@),
            gcur == current.deep_view(),
            descend_depth(gcur, gsegs.take(i as int)) == Some(depth as int),
        decreases segs.len() - i,
    {
        proof {
            assert(gsegs.take(i + 1).drop_last() =~= gsegs.take(i as int));
            assert(gsegs.take(i + 1).last() == gsegs[i as int]);
            assert(gsegs[i as int] == segs@[i as int]@);
        }
        let seg = &segs[i];
        if seg.as_str().is_empty() || seg_is_dot(seg.as_str()) {
            // depth unchanged
        } else if seg_is_dotdot(seg.as_str()) {
            if depth == 0 {
                proof {
                    lemma_descend_none_persists(gcur, gsegs, i + 1);
                }
                return false;
            }
            depth -= 1;
        } else {
            if depth < current.len() {
                proof {
                    assert(gcur[depth as int] == current@[depth as int]@);
                }
                if !str_eq(current[depth].as_str(), seg.as_str()) {
                    proof {
                        lemma_descend_none_persists(gcur, gsegs, i + 1);
                    }
                    return false;
                }
            }
            depth += 1;
        }
        i += 1;
    }
    proof {
        assert(gsegs.take(i as int) =~= gsegs);
    }
    depth > current.len()
}

// ---------------------------------------------------------------------------
// The containment guarantee
// ---------------------------------------------------------------------------

/// A surviving containment walk normalizes: its depth is the length of the
/// normalized stack, which agrees with `current` as far as both go.
proof fn lemma_descend_normalizes(current: Seq<Seq<char>>, segs: Seq<Seq<char>>)
    requires
        descend_depth(current, segs) is Some,
    ensures
        normalize_segments(segs) is Some,
        normalize_segments(segs).unwrap().len() == descend_depth(current, segs).unwrap(),
        forall|j: int|
            0 <= j < descend_depth(current, segs).unwrap() && j < current.len()
                ==> normalize_segments(segs).unwrap()[j] == current[j],
    decreases segs.len(),
{
    if segs.len() > 0 {
        lemma_descend_normalizes(current, segs.drop_last());
        let d0 = descend_depth(current, segs.drop_last()).unwrap();
        let n0 = normalize_segments(segs.drop_last()).unwrap();
        let seg = segs.last();
        if seg.len() == 0 || seg == seq!['.'] {
            // both unchanged
        } else if seg == seq!['.', '.'] {
            assert(d0 > 0);
        } else {
            assert(!(d0 < current.len() && current[d0] != seg));
        }
    }
}

/// The containment guarantee: every candidate the walk accepts normalizes to
/// a path strictly below the current directory — it extends the current
/// normalized path by at least one real segment.  Accepted edges therefore
/// always point deeper, and the traversal graph is a tree.
pub proof fn lemma_accepted_candidate_is_strictly_below(
    current: Seq<Seq<char>>,
    candidate: Seq<char>,
)
    requires
        is_descendant_spec(current, candidate),
    ensures
        normalize_spec(candidate) is Some,
        normalize_spec(candidate).unwrap().len() > current.len(),
        normalize_spec(candidate).unwrap().take(current.len() as int) =~= current,
{
    lemma_descend_normalizes(current, split_path(candidate));
}

} // verus!
