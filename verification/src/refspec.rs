//! The grammar of commit references: the symbolic head token (`h` or `head`,
//! in any case), a relative offset from the head (`+n` toward newer, `-n`
//! toward older, as the suffix after the first such sign), or an exact
//! content hash.

use vstd::prelude::*;
use crate::bytes::bytes_tail;
use crate::bytes::contains_byte;
use crate::numbers::dec_val;
use crate::numbers::is_dec_digits;
use crate::numbers::parse_dec_u64;

verus! {

/// ASCII `+`.
pub const PLUS_BYTE: u8 = 43;

/// ASCII `-`.
pub const MINUS_BYTE: u8 = 45;

/// What a commit reference denotes.
#[derive(Debug, PartialEq, Eq, Structural)]
pub enum CommitRef {
    /// The current head commit.
    Head,
    /// The commit this many positions newer than the head.
    Newer(u64),
    /// The commit this many positions older than the head.
    Older(u64),
    /// An exact content hash, to be resolved by the store.
    Exact,
    /// A relative reference whose offset is not a valid number.
    Malformed,
}

/// ASCII upper-casing of one byte.
pub open spec fn spec_upper_byte(b: u8) -> u8 {
    if 97 <= b <= 122 {
        (b - 32) as u8
    } else {
        b
    }
}

/// `s` spells the head token: `h` or `head`, in any case.
pub open spec fn is_head_token(s: Seq<u8>) -> bool {
    ||| (s.len() == 1 && spec_upper_byte(s[0]) == 72)
    ||| (s.len() == 4 && spec_upper_byte(s[0]) == 72 && spec_upper_byte(s[1]) == 69
        && spec_upper_byte(s[2]) == 65 && spec_upper_byte(s[3]) == 68)
}

/// `i` is the first position of `b` in `s`.
pub open spec fn is_first_index(s: Seq<u8>, b: u8, i: int) -> bool {
    &&& 0 <= i < s.len()
    &&& s[i] == b
    &&& forall|j: int| 0 <= j < i ==> s[j] != b
}

/// What follows the first occurrence of `b` in `s`.
pub open spec fn after_first(s: Seq<u8>, b: u8) -> Seq<u8> {
    let i = choose|i: int| is_first_index(s, b, i);
    s.subrange(i + 1, s.len() as int)
}

/// The suffix `t` names a representable number.
pub open spec fn is_valid_offset(t: Seq<u8>) -> bool {
    is_dec_digits(t) && dec_val(t) <= u64::MAX
}

/// What the reference `s` denotes.
pub open spec fn spec_parse_ref(s: Seq<u8>) -> CommitRef {
    if is_head_token(s) {
        CommitRef::Head
    } else if contains_byte(s, PLUS_BYTE) {
        if is_valid_offset(after_first(s, PLUS_BYTE)) {
            CommitRef::Newer(dec_val(after_first(s, PLUS_BYTE)) as u64)
        } else {
            CommitRef::Malformed
        }
    } else if contains_byte(s, MINUS_BYTE) {
        if is_valid_offset(after_first(s, MINUS_BYTE)) {
            CommitRef::Older(dec_val(after_first(s, MINUS_BYTE)) as u64)
        } else {
            CommitRef::Malformed
        }
    } else {
        CommitRef::Exact
    }
}

/// ASCII upper-casing of one byte.
fn upper_byte(b: u8) -> (r: u8)
    ensures
        r == spec_upper_byte(b),
{
    if 97 <= b && b <= 122 {
        b - 32
    } else {
        b
    }
}

/// The first position of `b` in `s`, if any.
fn find_first(s: &Vec<u8>, b: u8) -> (r: Option<usize>)
    ensures
        match r {
            Some(i) => is_first_index(s@, b, i as int),
            None => !contains_byte(s@, b),
        },
{
    let mut i: usize = 0;
    while i < s.len()
        invariant
            i <= s.len(),
            forall|j: int| 0 <= j < i ==> s@[j] != b,
        decreases s.len() - i,
    {
        if s[i] == b {
            return Some(i);
        }
        i += 1;
    }
    None
}

/// The first position of `b` in `s` is unique.
proof fn lemma_first_index_unique(s: Seq<u8>, b: u8, i: int, j: int)
    requires
        is_first_index(s, b, i),
        is_first_index(s, b, j),
    ensures
        i == j,
{
}

/// Parses a commit reference, deciding its shape exactly.
pub fn parse_commit_ref(s: &Vec<u8>) -> (r: CommitRef)
    ensures
        r == spec_parse_ref(s@),
{
    let head = if s.len() == 1 {
        upper_byte(s[0]) == 72
    } else if s.len() == 4 {
        upper_byte(s[0]) == 72 && upper_byte(s[1]) == 69 && upper_byte(s[2]) == 65 && upper_byte(
            s[3],
        ) == 68
    } else {
        false
    };
    if head {
        return CommitRef::Head;
    }
    if let Some(i) = find_first(s, PLUS_BYTE) {
        let suffix = bytes_tail(s, i + 1);
        proof {
            let ci = choose|ci: int| is_first_index(s@, PLUS_BYTE, ci);
            lemma_first_index_unique(s@, PLUS_BYTE, ci, i as int);
            assert(suffix@ == after_first(s@, PLUS_BYTE));
        }
        return match parse_dec_u64(&suffix) {
            Some(n) => CommitRef::Newer(n),
            None => CommitRef::Malformed,
        };
    }
    if let Some(i) = find_first(s, MINUS_BYTE) {
        let suffix = bytes_tail(s, i + 1);
        proof {
            let ci = choose|ci: int| is_first_index(s@, MINUS_BYTE, ci);
            lemma_first_index_unique(s@, MINUS_BYTE, ci, i as int);
            assert(suffix@ == after_first(s@, MINUS_BYTE));
        }
        return match parse_dec_u64(&suffix) {
            Some(n) => CommitRef::Older(n),
            None => CommitRef::Malformed,
        };
    }
    CommitRef::Exact
}

} // verus!
