//! The encoding that turns a watched directory's path into the name of its
//! isolated history directory. The escape byte (`_`) is escaped before the
//! path separator is substituted, so the encoding is collision-free: two
//! distinct target paths can never share one store location.

use vstd::prelude::*;
use crate::pathrel::PATH_SEP;

verus! {

/// The escape byte (`_`).
pub const ESCAPE_BYTE: u8 = 95;

/// The marker byte (`d`) that stands for the path separator.
pub const SEP_MARK: u8 = 100;

/// What one source byte becomes in the store name.
pub open spec fn escaped_byte(b: u8) -> Seq<u8> {
    if b == ESCAPE_BYTE {
        seq![ESCAPE_BYTE, ESCAPE_BYTE]
    } else if b == PATH_SEP {
        seq![ESCAPE_BYTE, SEP_MARK, ESCAPE_BYTE]
    } else {
        seq![b]
    }
}

/// The store-name encoding of a whole path.
pub open spec fn store_encoding(s: Seq<u8>) -> Seq<u8>
    decreases s.len(),
{
    if s.len() == 0 {
        Seq::empty()
    } else {
        store_encoding(s.drop_last()) + escaped_byte(s.last())
    }
}

/// Computes the store name of a target path.
pub fn encode_store_name(target: &Vec<u8>) -> (r: Vec<u8>)
    ensures
        r@ == store_encoding(target@),
{
    let mut out: Vec<u8> = Vec::new();
    let mut i: usize = 0;
    while i < target.len()
        invariant
            i <= target.len(),
            out@ == store_encoding(target@.take(i as int)),
        decreases target.len() - i,
    {
        let b = target[i];
        if b == ESCAPE_BYTE {
            out.push(ESCAPE_BYTE);
            out.push(ESCAPE_BYTE);
        } else if b == PATH_SEP {
            out.push(ESCAPE_BYTE);
            out.push(SEP_MARK);
            out.push(ESCAPE_BYTE);
        } else {
            out.push(b);
        }
        proof {
            assert(target@.take(i + 1 as int).drop_last() =~= target@.take(i as int));
            assert(target@.take(i + 1 as int).last() == target@[i as int]);
            assert(out@ =~= store_encoding(target@.take(i as int)) + escaped_byte(
                target@[i as int],
            ));
        }
        i += 1;
    }
    proof {
        assert(target@.take(target@.len() as int) =~= target@);
    }
    out
}

/// The encoding of a non-empty path is non-empty, and no shorter than the path.
proof fn lemma_encoding_len(s: Seq<u8>)
    ensures
        store_encoding(s).len() >= s.len(),
    decreases s.len(),
{
    if s.len() > 0 {
        lemma_encoding_len(s.drop_last());
    }
}

/// The last escaped chunk of an encoding determines the last source byte.
proof fn lemma_encoding_last(s: Seq<u8>)
    requires
        s.len() > 0,
    ensures
        store_encoding(s).len() >= escaped_byte(s.last()).len(),
        s.last() != ESCAPE_BYTE && s.last() != PATH_SEP ==> store_encoding(s).last() == s.last()
            && s.last() != ESCAPE_BYTE,
        s.last() == ESCAPE_BYTE ==> store_encoding(s).last() == ESCAPE_BYTE && store_encoding(
            s,
        )[store_encoding(s).len() - 2] == ESCAPE_BYTE,
        s.last() == PATH_SEP ==> store_encoding(s).last() == ESCAPE_BYTE && store_encoding(
            s,
        )[store_encoding(s).len() - 2] == SEP_MARK,
{
    assert(store_encoding(s) == store_encoding(s.drop_last()) + escaped_byte(s.last()));
}

/// Two distinct target paths never share one store location under a common
/// base directory.
pub proof fn lemma_store_isolation(base: Seq<u8>, t1: Seq<u8>, t2: Seq<u8>)
    requires
        t1 != t2,
    ensures
        base + seq![PATH_SEP] + store_encoding(t1) != base + seq![PATH_SEP] + store_encoding(t2),
{
    let p1 = base + seq![PATH_SEP] + store_encoding(t1);
    let p2 = base + seq![PATH_SEP] + store_encoding(t2);
    if p1 == p2 {
        assert(store_encoding(t1) =~= p1.subrange(base.len() as int + 1, p1.len() as int));
        assert(store_encoding(t2) =~= p2.subrange(base.len() as int + 1, p2.len() as int));
        lemma_store_encoding_injective(t1, t2);
    }
}

/// The store-name encoding is injective: distinct target paths get distinct
/// store names. This is the registry's isolation invariant for store
/// locations.
pub proof fn lemma_store_encoding_injective(s1: Seq<u8>, s2: Seq<u8>)
    requires
        store_encoding(s1) == store_encoding(s2),
    ensures
        s1 == s2,
    decreases s1.len(),
{
    if s1.len() == 0 {
        lemma_encoding_len(s2);
        assert(store_encoding(s1).len() == 0);
        assert(s2.len() == 0);
        assert(s1 =~= s2);
    } else if s2.len() == 0 {
        lemma_encoding_len(s1);
        assert(store_encoding(s2).len() == 0);
        assert(s1.len() == 0);
    } else {
        lemma_encoding_last(s1);
        lemma_encoding_last(s2);
        let e = store_encoding(s1);
        // The tail of the encoding pins down the last source byte.
        assert(s1.last() == s2.last());
        let k = escaped_byte(s1.last()).len();
        assert(store_encoding(s1.drop_last()) =~= e.subrange(0, e.len() - k)) by {
            assert(store_encoding(s1) == store_encoding(s1.drop_last()) + escaped_byte(s1.last()));
        }
        assert(store_encoding(s2.drop_last()) =~= e.subrange(0, e.len() - k)) by {
            assert(store_encoding(s2) == store_encoding(s2.drop_last()) + escaped_byte(s2.last()));
        }
        lemma_store_encoding_injective(s1.drop_last(), s2.drop_last());
        assert(s1 =~= s2) by {
            assert(s1 == s1.drop_last().push(s1.last()));
            assert(s2 == s2.drop_last().push(s2.last()));
        }
    }
}

} // verus!
