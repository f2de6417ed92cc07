//! Hashing of record titles and of `(ip, port)` pairs into ring identifiers.
//!
//! A node's identifier is the SHA-1 digest of the decimal digits of its four
//! IP octets concatenated with the decimal digits of its port; a record's
//! identifier is the digest of its title. The digest itself comes from an
//! outside crate and is only named here, never restated.

#![allow(non_snake_case)]

use vstd::prelude::*;
use crate::id::HashType;
use sha1::Digest;

verus! {

/// The SHA-1 digest of a character string, as the outside crate computes it:
/// a pure function of the characters, 20 bytes long.
pub uninterp spec fn sha1_of(s: Seq<char>) -> Seq<u8>;

/// Relies on `sha1::Sha1` of the `sha1` crate: the digest is a pure function
/// of the input bytes and is exactly 20 bytes long.
#[verifier::external_body]
pub fn HashFunc(input: &str) -> (r: HashType)
    ensures
        r@ == sha1_of(input@),
{
    let mut hasher = sha1::Sha1::new();
    hasher.update(input.as_bytes());
    HashType(hasher.finalize().into())
}

/// The ten decimal digit characters, in value order.
pub open spec fn dec_table() -> Seq<char> {
    "0123456789"@
}

/// The decimal rendering of a natural number, most significant digit first,
/// with no leading zeros (a lone `0` for zero).
pub open spec fn dec_of(n: nat) -> Seq<char>
    decreases n,
{
    if n < 10 {
        seq![dec_table()[n as int]]
    } else {
        dec_of(n / 10) + seq![dec_table()[n as int % 10]]
    }
}

/// Appends the decimal digits of `n` to `out`.
pub fn push_decimal(n: u64, out: &mut String)
    ensures
        final(out)@ =~= old(out)@ + dec_of(n as nat),
    decreases n,
{
    let table = "0123456789";
    proof {
        reveal_strlit("0123456789");
    }
    if n >= 10 {
        push_decimal(n / 10, out);
    }
    let d = (n % 10) as usize;
    out.append(table.substring_ascii(d, d + 1));
}

/// The string hashed to form a node's identifier: the decimal digits of the
/// four IP octets, then those of the port, all run together.
pub open spec fn ip_port_digits(ip: Seq<u8>, port: u16) -> Seq<char> {
    dec_of(ip[0] as nat) + dec_of(ip[1] as nat) + dec_of(ip[2] as nat) + dec_of(ip[3] as nat)
        + dec_of(port as nat)
}

/// The identifier of the node at `ip:port`.
pub fn HashIP(ip: [u8; 4], port: u16) -> (r: HashType)
    ensures
        r@ == sha1_of(ip_port_digits(ip@, port)),
{
    let mut s = String::new();
    push_decimal(ip[0] as u64, &mut s);
    push_decimal(ip[1] as u64, &mut s);
    push_decimal(ip[2] as u64, &mut s);
    push_decimal(ip[3] as u64, &mut s);
    push_decimal(port as u64, &mut s);
    proof {
        assert(s@ =~= ip_port_digits(ip@, port));
    }
    HashFunc(s.as_str())
}

} // verus!
