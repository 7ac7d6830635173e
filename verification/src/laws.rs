use crate::encoding::encoded_enum;
use crate::encoding::encoded_token;
use crate::encoding::encoded_tokens;
use crate::encoding::string_pad_len;
use crate::param_type::lemma_max_width_ge;
use crate::param_type::max_width;
use crate::param_type::sum_widths;
use crate::param_type::width_of;
use crate::param_type::word_count;
use crate::param_type::ParamTypeV;
use crate::token::all_unit_free;
use crate::token::matches_type;
use crate::token::tokens_match;
use crate::token::unit_free;
use crate::token::TokenV;
use vstd::arithmetic::div_mod::lemma_fundamental_div_mod;
use vstd::prelude::*;
use vstd::utf8::encode_utf8;

verus! {

broadcast use vstd::seq::group_seq_axioms;

/// A struct or tuple's width is the sum of its members' widths.
pub proof fn lemma_width_struct(fields: Seq<ParamTypeV>)
    ensures
        width_of(ParamTypeV::Struct(fields)) == sum_widths(fields),
        width_of(ParamTypeV::Tuple(fields)) == sum_widths(fields),
{
}

/// An array's width is its element width times its length.
pub proof fn lemma_width_array(elem: ParamTypeV, n: nat)
    ensures
        width_of(ParamTypeV::Array(Box::new(elem), n)) == width_of(elem) * n,
{
}

/// Token lists encode by concatenation: splitting a list anywhere splits its
/// wire bytes at the matching point.
pub proof fn lemma_encoded_tokens_append(s1: Seq<TokenV>, s2: Seq<TokenV>)
    ensures
        encoded_tokens(s1 + s2) == encoded_tokens(s1) + encoded_tokens(s2),
    decreases s2.len(),
{
    if s2.len() == 0 {
        assert(s1 + s2 =~= s1);
        assert(encoded_tokens(s2) == Seq::<u8>::empty());
        assert(encoded_tokens(s1) + encoded_tokens(s2) =~= encoded_tokens(s1));
    } else {
        let whole = s1 + s2;
        assert(whole.subrange(0, whole.len() - 1) =~= s1 + s2.subrange(0, s2.len() - 1));
        assert(whole.last() == s2.last());
        lemma_encoded_tokens_append(s1, s2.subrange(0, s2.len() - 1));
        assert(encoded_tokens(s1) + encoded_tokens(s2.subrange(0, s2.len() - 1)) + encoded_token(
            s2.last(),
        ) =~= encoded_tokens(s1) + encoded_tokens(s2));
    }
}

/// A single token's list encoding is that token's encoding.
pub proof fn lemma_encoded_tokens_singleton(t: TokenV)
    ensures
        encoded_tokens(seq![t]) == encoded_token(t),
{
    let s = seq![t];
    assert(s.subrange(0, 0) =~= Seq::<TokenV>::empty());
    assert(encoded_tokens(s.subrange(0, 0)) + encoded_token(t) =~= encoded_token(t));
}

/// Structs and tuples decompose by concatenation: their wire bytes are exactly
/// their members' wire bytes, in declared order, with no framing of their own.
pub proof fn lemma_struct_encodes_by_concatenation(members: Seq<TokenV>)
    ensures
        encoded_token(TokenV::Struct(members)) == encoded_tokens(members),
        encoded_token(TokenV::Tuple(members)) == encoded_tokens(members),
{
}

/// Arrays decompose by concatenation: an array's wire bytes are exactly its
/// elements' wire bytes, in order; the element count is never re-encoded.
pub proof fn lemma_array_encodes_by_concatenation(elems: Seq<TokenV>)
    ensures
        encoded_token(TokenV::Array(elems)) == encoded_tokens(elems),
{
}

/// A unit-free token whose shape matches its descriptor occupies exactly its
/// descriptor's width on the wire: `width_of(p)` words of 8 bytes each.
pub proof fn lemma_encoded_len(t: TokenV, p: ParamTypeV)
    requires
        matches_type(t, p),
        unit_free(t),
    ensures
        encoded_token(t).len() == width_of(p) * 8,
    decreases t, 0nat,
{
    match t {
        TokenV::B256(bytes) => {},
        TokenV::Array(elems) => {
            let elem_type = p->Array_0;
            lemma_array_elems_len(elems, *elem_type);
            assert(width_of(p) == width_of(*elem_type) * elems.len()) by {
                assert(p matches ParamTypeV::Array(e, n) && elems.len() == n);
            }
        },
        TokenV::String(text) => {
            let n = encode_utf8(text).len();
            lemma_fundamental_div_mod(n as int, 8);
            assert(n + string_pad_len(n) == word_count(n) * 8);
        },
        TokenV::Struct(members) => {
            lemma_tokens_match_len(members, p->Struct_0);
        },
        TokenV::Enum(discriminant, payload, variants) => {
            let chosen = variants[discriminant as int];
            lemma_encoded_len(*payload, chosen);
            lemma_max_width_ge(variants, discriminant as int);
            assert(encoded_enum(discriminant, *payload, variants).len() == 8 + (max_width(variants)
                - width_of(chosen)) * 8 + width_of(chosen) * 8);
        },
        TokenV::Tuple(elems) => {
            lemma_tokens_match_len(elems, p->Tuple_0);
        },
        _ => {},
    }
}

/// [`lemma_encoded_len`] over a member list and its field shapes.
pub proof fn lemma_tokens_match_len(ts: Seq<TokenV>, ps: Seq<ParamTypeV>)
    requires
        tokens_match(ts, ps),
        all_unit_free(ts),
    ensures
        encoded_tokens(ts).len() == sum_widths(ps) * 8,
    decreases ts, 1nat,
{
    if ts.len() > 0 {
        let ts_prefix = ts.subrange(0, ts.len() - 1);
        let ps_prefix = ps.subrange(0, ps.len() - 1);
        assert forall|i: int| 0 <= i < ts_prefix.len() implies matches_type(
            #[trigger] ts_prefix[i],
            ps_prefix[i],
        ) && unit_free(ts_prefix[i]) by {
            assert(ts_prefix[i] == ts[i]);
            assert(ps_prefix[i] == ps[i]);
            assert(matches_type(ts[i], ps[i]));
            assert(unit_free(ts[i]));
        }
        lemma_tokens_match_len(ts_prefix, ps_prefix);
        assert(matches_type(ts.last(), ps.last()));
        assert(unit_free(ts.last()));
        lemma_encoded_len(ts.last(), ps.last());
    }
}

/// [`lemma_encoded_len`] over an array's elements, which all share one shape.
pub proof fn lemma_array_elems_len(ts: Seq<TokenV>, elem_type: ParamTypeV)
    requires
        forall|i: int| 0 <= i < ts.len() ==> matches_type(#[trigger] ts[i], elem_type),
        all_unit_free(ts),
    ensures
        encoded_tokens(ts).len() == ts.len() * width_of(elem_type) * 8,
    decreases ts, 1nat,
{
    if ts.len() == 0 {
    } else {
        let prefix = ts.subrange(0, ts.len() - 1);
        assert forall|i: int| 0 <= i < prefix.len() implies matches_type(
            #[trigger] prefix[i],
            elem_type,
        ) && unit_free(prefix[i]) by {
            assert(prefix[i] == ts[i]);
            assert(matches_type(ts[i], elem_type));
            assert(unit_free(ts[i]));
        }
        lemma_array_elems_len(prefix, elem_type);
        assert(matches_type(ts.last(), elem_type));
        assert(unit_free(ts.last()));
        lemma_encoded_len(ts.last(), elem_type);
        assert(ts.len() * width_of(elem_type) == (ts.len() - 1) * width_of(elem_type) + width_of(
            elem_type,
        )) by (nonlinear_arith);
        assert((ts.len() - 1) * width_of(elem_type) * 8 + width_of(elem_type) * 8 == ts.len()
            * width_of(elem_type) * 8) by (nonlinear_arith);
    }
}

/// A unit-free enum value whose payload matches the chosen variant occupies
/// `1 + max_width(variants)` words on the wire: one discriminant word plus the
/// widest variant's width, whichever variant was chosen.
pub proof fn lemma_enum_wire_size(d: u8, payload: TokenV, variants: Seq<ParamTypeV>)
    requires
        (d as int) < variants.len(),
        matches_type(payload, variants[d as int]),
        unit_free(payload),
    ensures
        encoded_enum(d, payload, variants).len() == (1 + max_width(variants)) * 8,
        encoded_enum(d, payload, variants).len() == width_of(ParamTypeV::Enum(variants)) * 8,
        encoded_tokens(seq![TokenV::Enum(d, Box::new(payload), variants)]).len() == (1 + max_width(
            variants,
        )) * 8,
{
    let chosen = variants[d as int];
    lemma_encoded_len(payload, chosen);
    lemma_max_width_ge(variants, d as int);
    lemma_encoded_tokens_singleton(TokenV::Enum(d, Box::new(payload), variants));
}

/// Every value of one enum type occupies the same wire space, whichever of its
/// variants was chosen: the format's defining invariant.
pub proof fn lemma_enum_wire_size_uniform(
    d1: u8,
    payload1: TokenV,
    d2: u8,
    payload2: TokenV,
    variants: Seq<ParamTypeV>,
)
    requires
        (d1 as int) < variants.len(),
        matches_type(payload1, variants[d1 as int]),
        unit_free(payload1),
        (d2 as int) < variants.len(),
        matches_type(payload2, variants[d2 as int]),
        unit_free(payload2),
    ensures
        encoded_enum(d1, payload1, variants).len() == encoded_enum(d2, payload2, variants).len(),
        encoded_enum(d1, payload1, variants).len() == (1 + max_width(variants)) * 8,
{
    lemma_enum_wire_size(d1, payload1, variants);
    lemma_enum_wire_size(d2, payload2, variants);
}

} // verus!
