use vstd::prelude::*;

verus! {

/// The lowercase hexadecimal digit for `d < 16`.
pub open spec fn hex_digit(d: u8) -> char {
    if d < 10 {
        (('0' as u8) + d) as char
    } else {
        (('a' as u8) + (d - 10)) as char
    }
}

/// Lowercase hexadecimal text of `b`, two digits per byte, high nibble first.
pub open spec fn hex_of(b: Seq<u8>) -> Seq<char>
    decreases b.len(),
{
    if b.len() == 0 {
        Seq::empty()
    } else {
        seq![hex_digit(b[0] / 16), hex_digit(b[0] % 16)] + hex_of(b.drop_first())
    }
}

/// Relies on hex::encode: each byte becomes two lowercase hexadecimal digits,
/// high nibble first.
#[verifier::external_body]
pub(crate) fn hex_encode(b: &[u8]) -> (r: String)
    ensures
        r@ == hex_of(b@),
{
    hex::encode(b)
}

/// The 32 bytes that a base58 public key text decodes to, or `None` where the
/// text is not a valid key.
pub uninterp spec fn pubkey_from_base58(s: Seq<char>) -> Option<Seq<u8>>;

/// Relies on solana_sdk's `Pubkey::from_str`: decodes base58 text into the 32
/// key bytes, failing on text that is too long, has a character outside the
/// base58 alphabet, or does not decode to exactly 32 bytes.
#[verifier::external_body]
pub(crate) fn parse_pubkey(s: &str) -> (r: Option<[u8; 32]>)
    ensures
        r is Some <==> pubkey_from_base58(s@) is Some,
        r is Some ==> r->Some_0@ == pubkey_from_base58(s@)->Some_0,
{
    <solana_sdk::pubkey::Pubkey as std::str::FromStr>::from_str(s).ok().map(|k| k.to_bytes())
}

/// The base58 text of a 64-byte transaction signature.
pub uninterp spec fn signature_base58(sig: Seq<u8>) -> Seq<char>;

/// Relies on solana_sdk's `Signature` `Display`: a signature prints as the
/// base58 text of its 64 bytes.
#[verifier::external_body]
pub(crate) fn signature_text(sig: [u8; 64]) -> (r: String)
    ensures
        r@ == signature_base58(sig@),
{
    solana_sdk::signature::Signature::from(sig).to_string()
}

} // verus!
