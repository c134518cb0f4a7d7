//! The ancestor relation between filesystem paths held as byte strings.
//!
//! Matching is component-wise, not plain byte-prefix matching: an ancestor
//! must end exactly at a component boundary of the descendant, so `/data`
//! is not treated as an ancestor of `/database/y`.

use vstd::prelude::*;

verus! {

/// The path separator byte (`/`).
pub const PATH_SEP: u8 = 47;

/// `anc` is a proper ancestor directory of `p`: a byte prefix of `p` that
/// ends at a component boundary.
pub open spec fn is_strict_path_ancestor(anc: Seq<u8>, p: Seq<u8>) -> bool {
    &&& anc.len() < p.len()
    &&& p.subrange(0, anc.len() as int) == anc
    &&& ((anc.len() > 0 && anc.last() == PATH_SEP) || p[anc.len() as int] == PATH_SEP)
}

/// `anc` is `p` itself or a proper ancestor directory of it.
pub open spec fn is_path_ancestor(anc: Seq<u8>, p: Seq<u8>) -> bool {
    anc == p || is_strict_path_ancestor(anc, p)
}

/// Decides the ancestor relation on concrete byte paths.
pub fn path_is_ancestor(anc: &Vec<u8>, p: &Vec<u8>) -> (r: bool)
    ensures
        r == is_path_ancestor(anc@, p@),
{
    if anc.len() > p.len() {
        return false;
    }
    let mut i: usize = 0;
    while i < anc.len()
        invariant
            i <= anc.len(),
            anc.len() <= p.len(),
            forall|j: int| 0 <= j < i ==> anc@[j] == p@[j],
        decreases anc.len() - i,
    {
        if anc[i] != p[i] {
            proof {
                assert(anc@ != p@);
                assert(p@.subrange(0, anc@.len() as int)[i as int] != anc@[i as int]);
            }
            return false;
        }
        i += 1;
    }
    proof {
        assert(p@.subrange(0, anc@.len() as int) =~= anc@);
    }
    if anc.len() == p.len() {
        proof {
            assert(anc@ =~= p@);
        }
        true
    } else if anc.len() > 0 && anc[anc.len() - 1] == PATH_SEP {
        true
    } else if p[anc.len()] == PATH_SEP {
        true
    } else {
        assert(anc@ != p@) by {
            assert(anc@.len() != p@.len());
        }
        false
    }
}

/// Two ancestors of one path are themselves related: the shorter is an
/// ancestor of the longer. This is what keeps distinct, unrelated watched
/// roots from both claiming one file.
pub proof fn lemma_ancestors_comparable(a: Seq<u8>, b: Seq<u8>, p: Seq<u8>)
    requires
        is_path_ancestor(a, p),
        is_path_ancestor(b, p),
        a.len() <= b.len(),
    ensures
        is_path_ancestor(a, b),
{
    if a == p {
        assert(b.len() >= p.len());
        if is_strict_path_ancestor(b, p) {
            assert(b.len() < p.len());
        }
        assert(b == p);
    } else if b == p {
        assert(is_path_ancestor(a, b));
    } else {
        assert(is_strict_path_ancestor(a, p));
        assert(is_strict_path_ancestor(b, p));
        if a.len() == b.len() {
            assert(a =~= b) by {
                assert(forall|i: int|
                    0 <= i < a.len() ==> a[i] == #[trigger] p.subrange(0, a.len() as int)[i]);
            }
        } else {
            assert(a.len() < b.len());
            assert(b.subrange(0, a.len() as int) =~= a) by {
                assert(forall|i: int| 0 <= i < a.len() ==> {
                    &&& a[i] == #[trigger] p.subrange(0, a.len() as int)[i]
                    &&& b[i] == p.subrange(0, b.len() as int)[i]
                });
            }
            if a.len() > 0 && a.last() == PATH_SEP {
                assert(is_strict_path_ancestor(a, b));
            } else {
                assert(p[a.len() as int] == PATH_SEP);
                assert(b[a.len() as int] == p.subrange(0, b.len() as int)[a.len() as int]);
                assert(is_strict_path_ancestor(a, b));
            }
        }
    }
}

} // verus!
