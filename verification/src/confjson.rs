//! Rendering the watched policies as the configuration file's JSON text:
//! one object mapping each target directory to its policy. The registry
//! computes these bytes; writing them to disk is the caller's part.

use vstd::prelude::*;
use vstd::slice::slice_to_vec;
use vstd::string::StringSliceAdditionalSpecFns;
use crate::bytes::bytes_append;
use crate::numbers::dec_digits;
use crate::numbers::u64_to_dec;
use crate::watchdir::WatchDir;

verus! {

/// ASCII `"`.
pub const QUOTE_BYTE: u8 = 34;

/// ASCII `\`.
pub const BACKSLASH_BYTE: u8 = 92;

/// The lowercase hexadecimal digit of `n`.
pub open spec fn hex_digit(n: u8) -> u8 {
    if n < 10 {
        (48 + n) as u8
    } else {
        (87 + n) as u8
    }
}

/// What one byte becomes inside a JSON string: quotes and backslashes are
/// escaped, control bytes become `\u00xx`, every other byte stands as it
/// is.
pub open spec fn json_escaped_byte(b: u8) -> Seq<u8> {
    if b == QUOTE_BYTE {
        seq![BACKSLASH_BYTE, QUOTE_BYTE]
    } else if b == BACKSLASH_BYTE {
        seq![BACKSLASH_BYTE, BACKSLASH_BYTE]
    } else if b < 32 {
        "\\u00".spec_bytes() + seq![hex_digit(b / 16), hex_digit(b % 16)]
    } else {
        seq![b]
    }
}

/// A whole byte string, escaped for a JSON string body.
pub open spec fn json_escaped(s: Seq<u8>) -> Seq<u8>
    decreases s.len(),
{
    if s.len() == 0 {
        Seq::empty()
    } else {
        json_escaped(s.drop_last()) + json_escaped_byte(s.last())
    }
}

/// One policy as a JSON object member, keyed by its target directory.
pub open spec fn spec_policy_json(
    target: Seq<u8>,
    dotgit: Seq<u8>,
    frequency_secs: u64,
    max_file_size: u64,
) -> Seq<u8> {
    "\"".spec_bytes() + json_escaped(target) + "\":{\"target_dir\":\"".spec_bytes()
        + json_escaped(target) + "\",\"dotgit_dir\":\"".spec_bytes() + json_escaped(dotgit)
        + "\",\"frequency\":{\"secs\":".spec_bytes() + dec_digits(frequency_secs as nat)
        + ",\"nanos\":0},\"max_file_size\":".spec_bytes() + dec_digits(max_file_size as nat)
        + "}".spec_bytes()
}

/// The policy at one registry position, as a JSON object member.
pub open spec fn spec_entry_json(wd: WatchDir) -> Seq<u8> {
    spec_policy_json(wd.target_dir@, wd.dotgit_dir@, wd.frequency_secs, wd.max_file_size)
}

/// All members, joined by commas, in registration order.
pub open spec fn spec_entries_json(l: Seq<WatchDir>) -> Seq<u8>
    decreases l.len(),
{
    if l.len() == 0 {
        Seq::empty()
    } else if l.len() == 1 {
        spec_entry_json(l[0])
    } else {
        spec_entries_json(l.drop_last()) + ",".spec_bytes() + spec_entry_json(l.last())
    }
}

/// The whole configuration file.
pub open spec fn spec_config_json(l: Seq<WatchDir>) -> Seq<u8> {
    "{".spec_bytes() + spec_entries_json(l) + "}".spec_bytes()
}

/// The lowercase hexadecimal digit of `n`.
fn hex_digit_of(n: u8) -> (r: u8)
    requires
        n < 16,
    ensures
        r == hex_digit(n),
{
    if n < 10 {
        48 + n
    } else {
        87 + n
    }
}

/// Appends a literal fragment.
fn push_lit(out: &mut Vec<u8>, s: &str)
    ensures
        final(out)@ == old(out)@ + s.spec_bytes(),
{
    let lit = slice_to_vec(s.as_bytes());
    bytes_append(out, &lit);
}

/// Appends `s`, escaped for a JSON string body.
pub fn json_escape_into(out: &mut Vec<u8>, s: &Vec<u8>)
    ensures
        final(out)@ == old(out)@ + json_escaped(s@),
{
    let mut i: usize = 0;
    while i < s.len()
        invariant
            i <= s.len(),
            out@ == old(out)@ + json_escaped(s@.take(i as int)),
        decreases s.len() - i,
    {
        let b = s[i];
        if b == QUOTE_BYTE {
            out.push(BACKSLASH_BYTE);
            out.push(QUOTE_BYTE);
        } else if b == BACKSLASH_BYTE {
            out.push(BACKSLASH_BYTE);
            out.push(BACKSLASH_BYTE);
        } else if b < 32 {
            push_lit(out, "\\u00");
            out.push(hex_digit_of(b / 16));
            out.push(hex_digit_of(b % 16));
        } else {
            out.push(b);
        }
        proof {
            assert(s@.take(i + 1 as int).drop_last() =~= s@.take(i as int));
            assert(s@.take(i + 1 as int).last() == s@[i as int]);
            assert(out@ =~= old(out)@ + (json_escaped(s@.take(i as int)) + json_escaped_byte(
                s@[i as int],
            )));
        }
        i += 1;
    }
    proof {
        assert(s@.take(s@.len() as int) =~= s@);
    }
}

/// Appends one policy as a JSON object member.
fn push_policy_json(out: &mut Vec<u8>, wd: &WatchDir)
    ensures
        final(out)@ == old(out)@ + spec_entry_json(*wd),
{
    push_lit(out, "\"");
    json_escape_into(out, &wd.target_dir);
    push_lit(out, "\":{\"target_dir\":\"");
    json_escape_into(out, &wd.target_dir);
    push_lit(out, "\",\"dotgit_dir\":\"");
    json_escape_into(out, &wd.dotgit_dir);
    push_lit(out, "\",\"frequency\":{\"secs\":");
    let secs = u64_to_dec(wd.frequency_secs);
    bytes_append(out, &secs);
    push_lit(out, ",\"nanos\":0},\"max_file_size\":");
    let max = u64_to_dec(wd.max_file_size);
    bytes_append(out, &max);
    push_lit(out, "}");
    proof {
        assert(out@ =~= old(out)@ + spec_entry_json(*wd));
    }
}

/// Renders the whole configuration file for these policies.
pub fn config_json(policies: &Vec<WatchDir>) -> (r: Vec<u8>)
    ensures
        r@ == spec_config_json(policies@),
{
    let mut out: Vec<u8> = Vec::new();
    push_lit(&mut out, "{");
    let mut i: usize = 0;
    while i < policies.len()
        invariant
            i <= policies@.len(),
            out@ == "{".spec_bytes() + spec_entries_json(policies@.take(i as int)),
        decreases policies.len() - i,
    {
        if i > 0 {
            push_lit(&mut out, ",");
        }
        push_policy_json(&mut out, &policies[i]);
        proof {
            let taken = policies@.take(i + 1 as int);
            assert(taken.drop_last() =~= policies@.take(i as int));
            assert(taken.last() == policies@[i as int]);
            if i == 0 {
                assert(spec_entries_json(taken) == spec_entry_json(policies@[0]));
                assert(out@ =~= "{".spec_bytes() + spec_entries_json(taken));
            } else {
                assert(spec_entries_json(taken) == spec_entries_json(policies@.take(i as int))
                    + ",".spec_bytes() + spec_entry_json(policies@[i as int]));
                assert(out@ =~= "{".spec_bytes() + spec_entries_json(taken));
            }
        }
        i += 1;
    }
    push_lit(&mut out, "}");
    proof {
        assert(policies@.take(policies@.len() as int) =~= policies@);
        assert(out@ =~= spec_config_json(policies@));
    }
    out
}

} // verus!
