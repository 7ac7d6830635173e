use crate::hash::sha256_of;
use crate::param_type::max_width;
use crate::param_type::width_of;
use crate::param_type::ParamTypeV;
use crate::token::TokenV;
use vstd::prelude::*;
use vstd::utf8::encode_utf8;

verus! {

broadcast use vstd::seq::group_seq_axioms;

/// `n` zero bytes.
pub open spec fn zero_bytes(n: nat) -> Seq<u8> {
    Seq::new(n, |i: int| 0u8)
}

/// One 8-byte word holding `x` big-endian: most significant byte first.
/// Values narrower than 64 bits are widened first, so they sit right-justified
/// behind leading zero bytes.
pub open spec fn be_word(x: u64) -> Seq<u8> {
    seq![
        (x >> 56) as u8,
        (x >> 48) as u8,
        (x >> 40) as u8,
        (x >> 32) as u8,
        (x >> 24) as u8,
        (x >> 16) as u8,
        (x >> 8) as u8,
        x as u8,
    ]
}

/// Zero bytes that carry `n` content bytes to the next word boundary.
pub open spec fn string_pad_len(n: nat) -> nat {
    ((8 - n % 8) % 8) as nat
}

/// Zero bytes between an enum's discriminant word and its payload: the
/// difference between the widest variant and the chosen variant, in bytes.
/// Meaningful when `d` indexes `variants`.
pub open spec fn enum_pad_len(variants: Seq<ParamTypeV>, d: u8) -> nat {
    ((max_width(variants) - width_of(variants[d as int])) * 8) as nat
}

/// The wire bytes of a chosen enum value: one discriminant word, then padding
/// up to the widest sibling variant, then the payload.  Every value of one
/// enum type thereby occupies the same wire space.
pub open spec fn encoded_enum(d: u8, payload: TokenV, variants: Seq<ParamTypeV>) -> Seq<u8>
    decreases payload, 1nat,
{
    be_word(d as u64) + zero_bytes(enum_pad_len(variants, d)) + encoded_token(payload)
}

/// The wire bytes of one token, assuming every discriminant in it is in range
/// (where one is not, the encoder reports an error and these bytes are never
/// produced).  All scalars are big-endian; compounds concatenate their members
/// in declared order with no framing of their own.
pub open spec fn encoded_token(t: TokenV) -> Seq<u8>
    decreases t, 0nat,
{
    match t {
        TokenV::U8(x) => be_word(x as u64),
        TokenV::U16(x) => be_word(x as u64),
        TokenV::U32(x) => be_word(x as u64),
        TokenV::U64(x) => be_word(x),
        TokenV::Byte(x) => be_word(x as u64),
        TokenV::Bool(b) => be_word(
            if b {
                1u64
            } else {
                0u64
            },
        ),
        TokenV::B256(bytes) => bytes,
        TokenV::Array(elems) => encoded_tokens(elems),
        TokenV::String(text) => encode_utf8(text) + zero_bytes(
            string_pad_len(encode_utf8(text).len()),
        ),
        TokenV::Struct(members) => encoded_tokens(members),
        TokenV::Enum(discriminant, payload, variants) => encoded_enum(
            discriminant,
            *payload,
            variants,
        ),
        TokenV::Tuple(elems) => encoded_tokens(elems),
        TokenV::Unit => zero_bytes(8),
    }
}

/// The wire bytes of a token list: each token's bytes, concatenated in order.
pub open spec fn encoded_tokens(ts: Seq<TokenV>) -> Seq<u8>
    decreases ts, 0nat,
{
    if ts.len() == 0 {
        Seq::empty()
    } else {
        encoded_tokens(ts.subrange(0, ts.len() - 1)) + encoded_token(ts.last())
    }
}

/// The 8-byte function selector of a call signature: four zero bytes, then
/// the first four bytes of the signature's SHA-256 digest.
pub open spec fn selector_bytes(signature: Seq<u8>) -> Seq<u8> {
    zero_bytes(4) + sha256_of(signature).subrange(0, 4)
}

} // verus!
