//! Unix paths as byte strings: absoluteness and component-wise equality, as
//! `std::path::Path` compares paths.
use vstd::prelude::*;

verus! {

/// A path is absolute when it starts with `/`.
pub open spec fn path_absolute(p: Seq<u8>) -> bool {
    p.len() > 0 && p[0] == 0x2fu8
}

/// Index of the first `/` in `p`.
pub open spec fn first_slash(p: Seq<u8>) -> Option<int>
    decreases p.len(),
{
    if p.len() == 0 {
        None
    } else if p[0] == 0x2fu8 {
        Some(0)
    } else {
        match first_slash(p.drop_first()) {
            Some(i) => Some(i + 1),
            None => None,
        }
    }
}

proof fn lemma_first_slash(p: Seq<u8>)
    ensures
        match first_slash(p) {
            Some(i) => 0 <= i < p.len() && p[i] == 0x2fu8 && forall|j: int| 0 <= j < i ==> p[j] != 0x2fu8,
            None => forall|j: int| 0 <= j < p.len() ==> p[j] != 0x2fu8,
        },
    decreases p.len(),
{
    if p.len() > 0 && p[0] != 0x2fu8 {
        lemma_first_slash(p.drop_first());
        match first_slash(p.drop_first()) {
            Some(i) => {
                assert forall|j: int| 0 <= j < i + 1 implies p[j] != 0x2fu8 by {
                    if j > 0 {
                        assert(p[j] == p.drop_first()[j - 1]);
                    }
                }
            },
            None => {
                assert forall|j: int| 0 <= j < p.len() implies p[j] != 0x2fu8 by {
                    if j > 0 {
                        assert(p[j] == p.drop_first()[j - 1]);
                    }
                }
            },
        }
    }
}

/// A segment between separators is a component unless it is empty or `.`.
pub open spec fn kept_segment(seg: Seq<u8>) -> Seq<Seq<u8>> {
    if seg.len() == 0 || seg == seq![0x2eu8] {
        seq![]
    } else {
        seq![seg]
    }
}

/// The normal components of a path: the segments between `/` separators,
/// without empty and `.` segments.
pub open spec fn path_components(p: Seq<u8>) -> Seq<Seq<u8>>
    decreases p.len(),
{
    match first_slash(p) {
        Some(k) => if 0 <= k < p.len() {
            kept_segment(p.take(k)) + path_components(p.skip(k + 1))
        } else {
            seq![]
        },
        None => kept_segment(p),
    }
}

/// A relative path that starts with a `.` component, which `Path` keeps as
/// its first component.
pub open spec fn leading_cur_dir(p: Seq<u8>) -> bool {
    p.len() > 0 && p[0] == 0x2eu8 && (p.len() == 1 || p[1] == 0x2fu8)
}

/// Two paths name the same path when both are absolute or both relative,
/// both or neither start with a `.` component, and their components agree
/// (`Path`'s `==`).
pub open spec fn same_path(a: Seq<u8>, b: Seq<u8>) -> bool {
    path_absolute(a) == path_absolute(b) && leading_cur_dir(a) == leading_cur_dir(b) && path_components(a)
        == path_components(b)
}

/// Whether `p` starts with a `.` component.
pub fn starts_with_cur_dir(p: &[u8]) -> (r: bool)
    ensures
        r == leading_cur_dir(p@),
{
    p.len() > 0 && p[0] == 0x2eu8 && (p.len() == 1 || p[1] == 0x2fu8)
}

fn byte_seq_eq(a: &[u8], b: &[u8]) -> (r: bool)
    ensures
        r == (a@ == b@),
{
    if a.len() != b.len() {
        return false;
    }
    let mut i: usize = 0;
    while i < a.len()
        invariant
            a@.len() == b@.len(),
            i <= a@.len(),
            forall|j: int| 0 <= j < i ==> a@[j] == b@[j],
        decreases a@.len() - i,
    {
        if a[i] != b[i] {
            return false;
        }
        i = i + 1;
    }
    assert(a@ =~= b@);
    true
}

/// The components of `p` (see [`path_components`]).
pub fn components(p: &[u8]) -> (out: Vec<Vec<u8>>)
    ensures
        out@.map_values(|v: Vec<u8>| v@) == path_components(p@),
{
    let mut out: Vec<Vec<u8>> = Vec::new();
    let mut start: usize = 0;
    let mut seg: Vec<u8> = Vec::new();
    let mut i: usize = 0;
    let n = p.len();
    assert(p@.skip(0) =~= p@);
    while i < n
        invariant
            n == p@.len(),
            start <= i <= n,
            seg@ == p@.subrange(start as int, i as int),
            forall|j: int| start <= j < i ==> p@[j] != 0x2fu8,
            out@.map_values(|v: Vec<u8>| v@) + path_components(p@.skip(start as int))
                == path_components(p@),
        decreases n - i,
    {
        if p[i] == 0x2fu8 {
            proof {
                let t = p@.skip(start as int);
                lemma_first_slash(t);
                assert(t[i - start] == 0x2fu8);
                match first_slash(t) {
                    Some(k) => {
                        if k < i - start {
                            assert(t[k] == p@[start + k]);
                        }
                    },
                    None => {},
                }
                assert(first_slash(t) == Some(i - start));
                assert(t.take(i - start) =~= seg@);
                assert(t.skip(i - start + 1) =~= p@.skip(i + 1));
            }
            let ghost before = out@.map_values(|v: Vec<u8>| v@);
            if !(seg.len() == 0 || (seg.len() == 1 && seg[0] == 0x2eu8)) {
                proof {
                    assert(seg@ != seq![0x2eu8]);
                }
                out.push(seg);
                proof {
                    assert(out@.map_values(|v: Vec<u8>| v@) =~= before + kept_segment(
                        p@.subrange(start as int, i as int),
                    ));
                }
            } else {
                proof {
                    if seg@.len() == 1 {
                        assert(seg@ =~= seq![0x2eu8]);
                    }
                    assert(kept_segment(seg@) =~= Seq::<Seq<u8>>::empty());
                    assert(out@.map_values(|v: Vec<u8>| v@) =~= before + kept_segment(seg@));
                }
            }
            proof {
                assert(before + path_components(p@.skip(start as int)) =~= before
                    + kept_segment(p@.subrange(start as int, i as int)) + path_components(
                    p@.skip(i + 1),
                ));
            }
            seg = Vec::new();
            start = i + 1;
            assert(p@.subrange(start as int, start as int) =~= Seq::<u8>::empty());
        } else {
            seg.push(p[i]);
            assert(p@.subrange(start as int, i + 1) =~= p@.subrange(start as int, i as int).push(
                p@[i as int],
            ));
        }
        i = i + 1;
    }
    proof {
        let t = p@.skip(start as int);
        lemma_first_slash(t);
        assert(t =~= seg@);
        match first_slash(t) {
            Some(k) => {
                assert(t[k] == p@[start + k]);
            },
            None => {},
        }
    }
    let ghost before = out@.map_values(|v: Vec<u8>| v@);
    if !(seg.len() == 0 || (seg.len() == 1 && seg[0] == 0x2eu8)) {
        proof {
            assert(seg@ != seq![0x2eu8]);
        }
        out.push(seg);
        assert(out@.map_values(|v: Vec<u8>| v@) =~= before + kept_segment(p@.skip(start as int)));
    } else {
        proof {
            if seg@.len() == 1 {
                assert(seg@ =~= seq![0x2eu8]);
            }
            assert(kept_segment(p@.skip(start as int)) =~= Seq::<Seq<u8>>::empty());
        }
        assert(out@.map_values(|v: Vec<u8>| v@) =~= before + kept_segment(p@.skip(start as int)));
    }
    out
}

/// Whether two paths name the same path, compared as `Path` compares them.
pub fn paths_equal(a: &[u8], b: &[u8]) -> (r: bool)
    ensures
        r == same_path(a@, b@),
{
    let abs_a = a.len() > 0 && a[0] == 0x2fu8;
    let abs_b = b.len() > 0 && b[0] == 0x2fu8;
    if abs_a != abs_b || starts_with_cur_dir(a) != starts_with_cur_dir(b) {
        return false;
    }
    let ca = components(a);
    let cb = components(b);
    if ca.len() != cb.len() {
        proof {
            assert(ca@.map_values(|v: Vec<u8>| v@).len() != cb@.map_values(|v: Vec<u8>| v@).len());
        }
        return false;
    }
    let mut i: usize = 0;
    while i < ca.len()
        invariant
            ca@.len() == cb@.len(),
            i <= ca@.len(),
            ca@.map_values(|v: Vec<u8>| v@) == path_components(a@),
            cb@.map_values(|v: Vec<u8>| v@) == path_components(b@),
            forall|j: int| 0 <= j < i ==> ca@[j]@ == cb@[j]@,
        decreases ca@.len() - i,
    {
        if !byte_seq_eq(&ca[i], &cb[i]) {
            proof {
                let ma = ca@.map_values(|v: Vec<u8>| v@);
                let mb = cb@.map_values(|v: Vec<u8>| v@);
                assert(ma[i as int] == ca@[i as int]@);
                assert(mb[i as int] == cb@[i as int]@);
                assert(ma[i as int] != mb[i as int]);
            }
            return false;
        }
        i = i + 1;
    }
    proof {
        assert(ca@.map_values(|v: Vec<u8>| v@) =~= cb@.map_values(|v: Vec<u8>| v@));
    }
    true
}

} // verus!
