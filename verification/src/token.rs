use crate::param_type::max_width;
use crate::param_type::seq_widths_computable;
use crate::param_type::EnumVariants;
use crate::param_type::ParamTypeV;
use vstd::prelude::*;
use vstd::utf8::encode_utf8;

verus! {

broadcast use vstd::seq::group_seq_axioms;

/// A chosen enum value: the discriminant, the payload carried by the chosen
/// variant, and the full variant universe of the enum type.  Carrying the
/// whole universe lets the encoder size the padding to the widest sibling
/// variant without any external type registry.
pub type EnumSelector = (u8, Token, EnumVariants);

/// A runtime value to encode, structurally mirroring a [`crate::ParamType`].
/// The encoder trusts that a token's shape matches its intended shape
/// descriptor; only enum discriminants are checked.
#[derive(Debug, PartialEq, Eq)]
pub enum Token {
    U8(u8),
    U16(u16),
    U32(u32),
    U64(u64),
    Byte(u8),
    Bool(bool),
    B256([u8; 32]),
    Array(Vec<Token>),
    String(String),
    Struct(Vec<Token>),
    Enum(Box<EnumSelector>),
    Tuple(Vec<Token>),
    Unit,
}

/// Mathematical model of a [`Token`]: the same value tree with `Seq` in place
/// of `Vec`, arrays and strings.
pub enum TokenV {
    U8(u8),
    U16(u16),
    U32(u32),
    U64(u64),
    Byte(u8),
    Bool(bool),
    B256(Seq<u8>),
    Array(Seq<TokenV>),
    String(Seq<char>),
    Struct(Seq<TokenV>),
    Enum(u8, Box<TokenV>, Seq<ParamTypeV>),
    Tuple(Seq<TokenV>),
    Unit,
}

/// The models of a sequence of tokens, element by element.
pub open spec fn token_views(s: Seq<Token>) -> Seq<TokenV>
    decreases s,
{
    if s.len() == 0 {
        Seq::empty()
    } else {
        token_views(s.subrange(0, s.len() - 1)).push(s.last()@)
    }
}

/// A token list and its model have the same length.
pub proof fn lemma_token_views_len(s: Seq<Token>)
    ensures
        token_views(s).len() == s.len(),
    decreases s.len(),
{
    if s.len() == 0 {
        assert(token_views(s).len() == 0);
    } else {
        lemma_token_views_len(s.subrange(0, s.len() - 1));
        assert(token_views(s) == token_views(s.subrange(0, s.len() - 1)).push(s.last()@));
    }
}

/// A token list is modelled element by element.
pub proof fn lemma_token_views_index(s: Seq<Token>, i: int)
    requires
        0 <= i < s.len(),
    ensures
        token_views(s)[i] == s[i]@,
    decreases s.len(),
{
    let prefix = s.subrange(0, s.len() - 1);
    lemma_token_views_len(prefix);
    assert(token_views(s) == token_views(prefix).push(s.last()@));
    if i < s.len() - 1 {
        lemma_token_views_index(prefix, i);
        assert(token_views(prefix).push(s.last()@)[i] == token_views(prefix)[i]);
        assert(prefix[i] == s[i]);
    } else {
        assert(token_views(prefix).push(s.last()@)[i] == s.last()@);
    }
}

impl View for Token {
    type V = TokenV;

    open spec fn view(&self) -> TokenV
        decreases self,
    {
        match self {
            Token::U8(x) => TokenV::U8(*x),
            Token::U16(x) => TokenV::U16(*x),
            Token::U32(x) => TokenV::U32(*x),
            Token::U64(x) => TokenV::U64(*x),
            Token::Byte(x) => TokenV::Byte(*x),
            Token::Bool(b) => TokenV::Bool(*b),
            Token::B256(bytes) => TokenV::B256(bytes@),
            Token::Array(elems) => TokenV::Array(token_views(elems@)),
            Token::String(text) => TokenV::String(text@),
            Token::Struct(members) => TokenV::Struct(token_views(members@)),
            Token::Enum(selector) => TokenV::Enum(
                (**selector).0,
                Box::new((**selector).1@),
                (**selector).2@,
            ),
            Token::Tuple(elems) => TokenV::Tuple(token_views(elems@)),
            Token::Unit => TokenV::Unit,
        }
    }
}

impl Clone for Token {
    /// Cloning preserves the modelled value.
    fn clone(&self) -> (r: Self)
        ensures
            r@ == self@,
        decreases self,
    {
        match self {
            Token::U8(x) => Token::U8(*x),
            Token::U16(x) => Token::U16(*x),
            Token::U32(x) => Token::U32(*x),
            Token::U64(x) => Token::U64(*x),
            Token::Byte(x) => Token::Byte(*x),
            Token::Bool(b) => Token::Bool(*b),
            Token::B256(bytes) => Token::B256(*bytes),
            Token::Array(elems) => Token::Array(clone_tokens(elems)),
            Token::String(text) => Token::String(text.clone()),
            Token::Struct(members) => Token::Struct(clone_tokens(members)),
            Token::Enum(selector) => Token::Enum(
                Box::new(((**selector).0, (**selector).1.clone(), (**selector).2.clone())),
            ),
            Token::Tuple(elems) => Token::Tuple(clone_tokens(elems)),
            Token::Unit => Token::Unit,
        }
    }
}

/// Clones a token list, preserving the model of every element.
fn clone_tokens(tokens: &Vec<Token>) -> (r: Vec<Token>)
    ensures
        token_views(r@) == token_views(tokens@),
        r@.len() == tokens@.len(),
    decreases tokens,
{
    let mut r: Vec<Token> = Vec::new();
    let n = tokens.len();
    let mut i: usize = 0;
    while i < n
        invariant
            i <= n,
            n == tokens@.len(),
            r@.len() == i,
            forall|j: int| 0 <= j < i ==> r@[j]@ == tokens@[j]@,
        decreases n - i,
    {
        r.push(tokens[i].clone());
        i = i + 1;
    }
    proof {
        lemma_token_views_len(r@);
        lemma_token_views_len(tokens@);
        assert forall|j: int| 0 <= j < r@.len() implies token_views(r@)[j] == token_views(
            tokens@,
        )[j] by {
            lemma_token_views_index(r@, j);
            lemma_token_views_index(tokens@, j);
        }
        assert(token_views(r@) =~= token_views(tokens@));
    }
    r
}

/// The first out-of-range enum discriminant met on a depth-first, left-to-right
/// walk of `t`, together with the variant universe it fails to index; `None`
/// when every discriminant in `t` is in range.
pub open spec fn first_invalid(t: TokenV) -> Option<(u8, Seq<ParamTypeV>)>
    decreases t, 0nat,
{
    match t {
        TokenV::Array(elems) => first_invalid_in(elems),
        TokenV::Struct(members) => first_invalid_in(members),
        TokenV::Tuple(elems) => first_invalid_in(elems),
        TokenV::Enum(discriminant, payload, variants) => if discriminant as int >= variants.len() {
            Some((discriminant, variants))
        } else {
            first_invalid(*payload)
        },
        _ => None,
    }
}

/// [`first_invalid`] over a token list, left to right.
pub open spec fn first_invalid_in(ts: Seq<TokenV>) -> Option<(u8, Seq<ParamTypeV>)>
    decreases ts, 1nat,
{
    if ts.len() == 0 {
        None
    } else if first_invalid(ts[0]) is Some {
        first_invalid(ts[0])
    } else {
        first_invalid_in(ts.subrange(1, ts.len() as int))
    }
}

/// Every enum discriminant in `t` indexes its variant universe: `t` encodes
/// without error.
pub open spec fn token_valid(t: TokenV) -> bool {
    first_invalid(t) is None
}

/// [`token_valid`], for every token in a list.
pub open spec fn tokens_valid(ts: Seq<TokenV>) -> bool {
    first_invalid_in(ts) is None
}

/// A walk of `ts` skips a prefix of valid tokens: the first failure in `ts`
/// is the first failure past the prefix.
pub proof fn lemma_first_invalid_in_split(ts: Seq<TokenV>, i: int)
    requires
        0 <= i <= ts.len(),
        forall|j: int| 0 <= j < i ==> token_valid(#[trigger] ts[j]),
    ensures
        first_invalid_in(ts) == first_invalid_in(ts.subrange(i, ts.len() as int)),
    decreases i,
{
    if i == 0 {
        assert(ts.subrange(0, ts.len() as int) =~= ts);
    } else {
        assert(token_valid(ts[0]));
        let tail = ts.subrange(1, ts.len() as int);
        assert(first_invalid_in(ts) == first_invalid_in(tail));
        assert forall|j: int| 0 <= j < i - 1 implies token_valid(#[trigger] tail[j]) by {
            assert(tail[j] == ts[j + 1]);
        }
        lemma_first_invalid_in_split(tail, i - 1);
        assert(tail.subrange(i - 1, tail.len() as int) =~= ts.subrange(i, ts.len() as int));
    }
}

/// A token list is valid exactly when each of its tokens is.
pub proof fn lemma_tokens_valid_pointwise(ts: Seq<TokenV>)
    ensures
        tokens_valid(ts) <==> (forall|j: int| 0 <= j < ts.len() ==> token_valid(#[trigger] ts[j])),
    decreases ts.len(),
{
    if ts.len() > 0 {
        let tail = ts.subrange(1, ts.len() as int);
        lemma_tokens_valid_pointwise(tail);
        if tokens_valid(ts) {
            assert(token_valid(ts[0]));
            assert(tokens_valid(tail));
            assert forall|j: int| 0 <= j < ts.len() implies token_valid(#[trigger] ts[j]) by {
                if j > 0 {
                    assert(tail[j - 1] == ts[j]);
                    assert(token_valid(tail[j - 1]));
                }
            }
        }
        if forall|j: int| 0 <= j < ts.len() ==> token_valid(#[trigger] ts[j]) {
            assert forall|j: int| 0 <= j < tail.len() implies token_valid(#[trigger] tail[j]) by {
                assert(tail[j] == ts[j + 1]);
            }
            assert(tokens_valid(tail));
            assert(token_valid(ts[0]));
            assert(first_invalid_in(ts) is None);
        }
    }
}

/// The shape of value `t` agrees with shape descriptor `p`.  The encoder does
/// not check this; it is the premise under which the wire-size laws hold.
pub open spec fn matches_type(t: TokenV, p: ParamTypeV) -> bool
    decreases t, 0nat,
{
    match t {
        TokenV::U8(_) => p is U8,
        TokenV::U16(_) => p is U16,
        TokenV::U32(_) => p is U32,
        TokenV::U64(_) => p is U64,
        TokenV::Byte(_) => p is Byte,
        TokenV::Bool(_) => p is Bool,
        TokenV::B256(bytes) => p is B256 && bytes.len() == 32,
        TokenV::Array(elems) => {
            &&& p matches ParamTypeV::Array(elem_type, n)
            &&& elems.len() == n
            &&& forall|i: int| 0 <= i < elems.len() ==> matches_type(#[trigger] elems[i], *elem_type)
        },
        TokenV::String(text) => {
            &&& p matches ParamTypeV::String(n)
            &&& encode_utf8(text).len() == n
        },
        TokenV::Struct(members) => {
            &&& p matches ParamTypeV::Struct(fields)
            &&& tokens_match(members, fields)
        },
        TokenV::Enum(discriminant, payload, variants) => {
            &&& p matches ParamTypeV::Enum(declared)
            &&& declared == variants
            &&& (discriminant as int) < variants.len()
            &&& matches_type(*payload, variants[discriminant as int])
        },
        TokenV::Tuple(elems) => {
            &&& p matches ParamTypeV::Tuple(member_types)
            &&& tokens_match(elems, member_types)
        },
        TokenV::Unit => p is Unit,
    }
}

/// Each token in `ts` matches the shape at the same position of `ps`.
pub open spec fn tokens_match(ts: Seq<TokenV>, ps: Seq<ParamTypeV>) -> bool
    decreases ts, 1nat,
{
    &&& ts.len() == ps.len()
    &&& forall|i: int| 0 <= i < ts.len() ==> matches_type(#[trigger] ts[i], ps[i])
}

/// No [`TokenV::Unit`] occurs anywhere in `t`.  A unit value occupies one
/// whole zero word on the wire although the unit shape is given width 0, so
/// the wire-size laws exclude it.
pub open spec fn unit_free(t: TokenV) -> bool
    decreases t, 0nat,
{
    match t {
        TokenV::Array(elems) => all_unit_free(elems),
        TokenV::Struct(members) => all_unit_free(members),
        TokenV::Tuple(elems) => all_unit_free(elems),
        TokenV::Enum(_, payload, _) => unit_free(*payload),
        TokenV::Unit => false,
        _ => true,
    }
}

/// [`unit_free`], for every token in a list.
pub open spec fn all_unit_free(ts: Seq<TokenV>) -> bool
    decreases ts, 1nat,
{
    forall|i: int| 0 <= i < ts.len() ==> unit_free(#[trigger] ts[i])
}

/// Machine-limit precondition of the encoder: along the walked path, every
/// enum whose discriminant is in range has a variant universe whose widths the
/// width calculator can compute, and whose total wire size in bytes fits in
/// `usize`.
pub open spec fn token_widths_fit(t: TokenV) -> bool
    decreases t, 0nat,
{
    match t {
        TokenV::Array(elems) => tokens_widths_fit(elems),
        TokenV::Struct(members) => tokens_widths_fit(members),
        TokenV::Tuple(elems) => tokens_widths_fit(elems),
        TokenV::Enum(discriminant, payload, variants) => (discriminant as int) < variants.len()
            ==> {
            &&& seq_widths_computable(variants)
            &&& (1 + max_width(variants)) * 8 <= usize::MAX
            &&& token_widths_fit(*payload)
        },
        _ => true,
    }
}

/// [`token_widths_fit`], for every token in a list.
pub open spec fn tokens_widths_fit(ts: Seq<TokenV>) -> bool
    decreases ts, 1nat,
{
    forall|i: int| 0 <= i < ts.len() ==> token_widths_fit(#[trigger] ts[i])
}

} // verus!
