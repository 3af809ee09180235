//! Unsigned LEB128 integers: the variable-length lengths of the module format.

use vstd::prelude::*;

use codicon::Encoder;
use lebicon::Leb128;

verus! {

/// The unsigned LEB128 encoding of `n`: seven payload bits per byte, least
/// significant group first, the high bit set on every byte but the last.
pub open spec fn leb128(n: nat) -> Seq<u8>
    decreases n,
{
    if n < 128 {
        seq![n as u8]
    } else {
        seq![(n % 128 + 128) as u8] + leb128(n / 128)
    }
}

/// Reads an unsigned LEB128 integer at the front of `s`: its value and the
/// number of bytes it occupies, or `None` when `s` ends before the last byte.
pub open spec fn read_leb128(s: Seq<u8>) -> Option<(nat, nat)>
    decreases s.len(),
{
    if s.len() == 0 {
        None
    } else if s[0] < 128 {
        Some((s[0] as nat, 1))
    } else {
        match read_leb128(s.drop_first()) {
            Some((v, k)) => Some(((s[0] - 128) as nat + 128 * v, k + 1)),
            None => None,
        }
    }
}

/// An encoding is never empty.
pub proof fn lemma_leb128_len(n: nat)
    ensures
        leb128(n).len() >= 1,
        n < 128 ==> leb128(n).len() == 1,
    decreases n,
{
    if n >= 128 {
        lemma_leb128_len(n / 128);
    }
}

/// Reading back an encoding, whatever follows it, gives the encoded value and
/// the encoding's length.
pub proof fn lemma_read_leb128(n: nat, rest: Seq<u8>)
    ensures
        read_leb128(leb128(n) + rest) == Some((n, leb128(n).len())),
    decreases n,
{
    let s = leb128(n) + rest;
    if n < 128 {
        assert(s[0] == n as u8);
    } else {
        lemma_read_leb128(n / 128, rest);
        assert(s.drop_first() =~= leb128(n / 128) + rest);
        assert(s[0] == (n % 128 + 128) as u8);
        assert(n == n % 128 + 128 * (n / 128)) by (nonlinear_arith);
    }
}

/// Relies on lebicon's `Encoder<Leb128>` for `usize`: it writes the low seven
/// bits with the continuation bit while the value exceeds 127, shifts by seven,
/// and ends with the last group; writing into a `Vec` does not fail.
#[verifier::external_body]
pub(crate) fn encode_leb128(n: usize) -> (r: Vec<u8>)
    ensures
        r@ == leb128(n as nat),
{
    let mut out: Vec<u8> = Vec::new();
    let _ = n.encode(&mut out, Leb128);
    out
}

} // verus!
