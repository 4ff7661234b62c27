//! Identity keys: the file a persistent key is kept in, what a stored key
//! file must look like, and checking a stored key against the DID it was
//! filed under. A key is never derived from a human-readable name.
use vstd::prelude::*;

use crate::error::{Error, ErrorView, Result};
use crate::text::{chars_of, decimal, str_eq, string_from_chars, u64_to_decimal};

verus! {

/// `s` with every `from` replaced by `to`.
pub open spec fn replace_char(s: Seq<char>, from: char, to: char) -> Seq<char> {
    s.map_values(|c: char| if c == from {
        to
    } else {
        c
    })
}

/// `text` with every `from` replaced by `to`, then `.key` appended.
fn key_file(text: &str, from: char, to: char) -> (r: String)
    ensures
        r@ == replace_char(text@, from, to) + ".key"@,
{
    let chars = chars_of(text);
    let mut out: Vec<char> = Vec::new();
    let mut i: usize = 0;
    while i < chars.len()
        invariant
            i <= chars@.len(),
            chars@ == text@,
            out@ == replace_char(text@.take(i as int), from, to),
        decreases chars@.len() - i,
    {
        let c = chars[i];
        out.push(if c == from {
            to
        } else {
            c
        });
        assert(replace_char(text@.take(i + 1), from, to) =~= replace_char(
            text@.take(i as int),
            from,
            to,
        ).push(if c == from {
            to
        } else {
            c
        }));
        i = i + 1;
    }
    assert(text@.take(text@.len() as int) =~= text@);
    string_from_chars(&out).concat(".key")
}

/// The file name of a named agent's persistent key: `/` becomes `_`.
pub fn name_key_file(name: &str) -> (r: String)
    ensures
        r@ == replace_char(name@, '/', '_') + ".key"@,
{
    key_file(name, '/', '_')
}

/// The file name of the key saved under a `did:key`: `:` becomes `_`.
pub fn did_key_file(did: &str) -> (r: String)
    ensures
        r@ == replace_char(did@, ':', '_') + ".key"@,
{
    key_file(did, ':', '_')
}

/// The message of a stored key whose DID is not the one it was asked for.
pub open spec fn did_mismatch_message(path: Seq<char>, requested: Seq<char>, derived: Seq<char>) -> Seq<
    char,
> {
    "key at "@ + path + " does not match requested DID '"@ + requested + "' (got '"@ + derived
        + "')"@
}

/// A key loaded from `path` for DID `requested` must derive that DID;
/// `derived` is the DID it derives.
pub fn check_stored_did(path: &str, requested: &str, derived: &str) -> (r: Result<()>)
    ensures
        r is Ok <==> requested@ == derived@,
        r matches Err(e) ==> e@ == ErrorView::Identity(
            did_mismatch_message(path@, requested@, derived@),
        ),
{
    if str_eq(requested, derived) {
        Ok(())
    } else {
        Err(
            Error::Identity(
                String::from_str("key at ").concat(path).concat(" does not match requested DID '").concat(
                    requested,
                ).concat("' (got '").concat(derived).concat("')"),
            ),
        )
    }
}

/// The message of a DID with no key saved under it.
pub open spec fn missing_key_message(did: Seq<char>, path: Seq<char>) -> Seq<char> {
    "no secret key found for DID '"@ + did + "' at "@ + path
}

/// The error of a DID with no key saved at `path`.
pub fn missing_did_key(did: &str, path: &str) -> (e: Error)
    ensures
        e@ == ErrorView::Identity(missing_key_message(did@, path@)),
{
    Error::Identity(
        String::from_str("no secret key found for DID '").concat(did).concat("' at ").concat(path),
    )
}

/// The length of a stored secret key.
pub const KEY_FILE_LEN: u64 = 32;

/// The message of a stored key file of the wrong size.
pub open spec fn malformed_key_message(path: Seq<char>, len: u64) -> Seq<char> {
    "key file "@ + path + " must hold exactly 32 bytes, found "@ + decimal(len as nat)
}

/// The message of a stored key file other users may read or write.
pub open spec fn insecure_key_message(path: Seq<char>) -> Seq<char> {
    "key file "@ + path + " is accessible to other users; restrict it to its owner (0600)"@
}

/// Whether Unix permission bits grant anything to group or others.
pub open spec fn shared_mode(mode: u32) -> bool {
    mode % 64 != 0
}

/// An existing key file at `path` of `len` bytes, with Unix permission
/// bits `mode` where the platform has them, is usable only when it holds
/// exactly one 32-byte key and only its owner may access it.
pub fn check_key_file(path: &str, len: u64, mode: Option<u32>) -> (r: Result<()>)
    ensures
        r is Ok <==> len == KEY_FILE_LEN && !(mode is Some && shared_mode(mode->Some_0)),
        r matches Err(e) ==> e@ == ErrorView::Identity(
            if len != KEY_FILE_LEN {
                malformed_key_message(path@, len)
            } else {
                insecure_key_message(path@)
            },
        ),
{
    if len != KEY_FILE_LEN {
        let n = u64_to_decimal(len);
        return Err(
            Error::Identity(
                String::from_str("key file ").concat(path).concat(
                    " must hold exactly 32 bytes, found ",
                ).concat(n.as_str()),
            ),
        );
    }
    match mode {
        Some(m) => {
            if m % 64 != 0 {
                return Err(
                    Error::Identity(
                        String::from_str("key file ").concat(path).concat(
                            " is accessible to other users; restrict it to its owner (0600)",
                        ),
                    ),
                );
            }
        },
        None => {},
    }
    Ok(())
}

} // verus!
