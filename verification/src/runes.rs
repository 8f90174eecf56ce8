//! Token-etching support: the commitment bytes a rune name embeds in the
//! envelope's protocol tag, and the enciphered runestone message carried
//! by the reveal transaction's zero-value output.

use vstd::prelude::*;

verus! {

/// Confirmations the commit transaction must reach before the reveal is
/// valid; the reveal input's relative lock time encodes one less.
pub const COMMIT_CONFIRMATIONS: u16 = 6;

/// The little-endian bytes of `n` with trailing zeros trimmed: the
/// commitment form of a rune name's integer value.
pub open spec fn spec_le_trimmed(n: nat) -> Seq<u8>
    decreases n,
{
    if n == 0 {
        Seq::empty()
    } else {
        seq![(n % 256) as u8] + spec_le_trimmed(n / 256)
    }
}

/// The commitment of a rune name's integer value, embedded in the
/// envelope's protocol tag: its little-endian bytes, trailing zeros
/// trimmed.
pub fn rune_commitment(n: u128) -> (r: Vec<u8>)
    ensures
        r@ == spec_le_trimmed(n as nat),
{
    let mut out: Vec<u8> = Vec::new();
    let mut x = n;
    proof {
        assert(out@ + spec_le_trimmed(x as nat) =~= spec_le_trimmed(n as nat));
    }
    while x > 0
        invariant
            out@ + spec_le_trimmed(x as nat) == spec_le_trimmed(n as nat),
        decreases x,
    {
        let ghost pre = out@;
        out.push((x % 256) as u8);
        proof {
            assert(out@ =~= pre + seq![(x % 256) as u8]);
            assert((pre + seq![(x % 256) as u8]) + spec_le_trimmed((x / 256) as nat) =~= pre + (
            seq![(x % 256) as u8] + spec_le_trimmed((x / 256) as nat)));
        }
        x = x / 256;
    }
    proof {
        assert(spec_le_trimmed(x as nat) =~= Seq::<u8>::empty());
        assert(out@ + Seq::<u8>::empty() =~= out@);
    }
    out
}

/// The enciphered runestone script for an etching with the given fields,
/// no edicts and no mint.
pub uninterp spec fn runestone_payload(
    divisibility: u8,
    premine: u128,
    rune_value: u128,
    spacers: u32,
    symbol: char,
    terms_amount: u128,
    terms_cap: u128,
    turbo: bool,
    pointer: Option<u32>,
) -> Seq<u8>;

/// Encipher the runestone protocol message for an etching. Relies on the
/// ordinals crate's Runestone::encipher: the script bytes are a function
/// of the etching fields and the output pointer alone.
#[verifier::external_body]
pub fn encipher_etching(
    divisibility: u8,
    premine: u128,
    rune_value: u128,
    spacers: u32,
    symbol: char,
    terms_amount: u128,
    terms_cap: u128,
    turbo: bool,
    pointer: Option<u32>,
) -> (r: Vec<u8>)
    ensures
        r@ == runestone_payload(
            divisibility,
            premine,
            rune_value,
            spacers,
            symbol,
            terms_amount,
            terms_cap,
            turbo,
            pointer,
        ),
{
    let terms = ordinals::Terms { amount: Some(terms_amount), cap: Some(terms_cap), height: (None, None), offset: (None, None) };
    let etching = ordinals::Etching { divisibility: Some(divisibility), premine: Some(premine), rune: Some(ordinals::Rune(rune_value)), spacers: Some(spacers), symbol: Some(symbol), terms: Some(terms), turbo };
    let runestone = ordinals::Runestone { edicts: Vec::new(), etching: Some(etching), mint: None, pointer };
    runestone.encipher().into_bytes()
}

} // verus!
