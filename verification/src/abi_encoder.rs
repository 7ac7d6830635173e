use crate::encoding::be_word;
use crate::encoding::encoded_enum;
use crate::encoding::encoded_token;
use crate::encoding::encoded_tokens;
use crate::encoding::selector_bytes;
use crate::encoding::string_pad_len;
use crate::encoding::zero_bytes;
use crate::encoding_utils::encoding_width;
use crate::encoding_utils::max_by_encoding_width;
use crate::errors::CodecError;
use crate::hash::sha256_digest;
use crate::param_type::lemma_max_width_ge;
use crate::param_type::lemma_param_views_index;
use crate::param_type::lemma_param_views_len;
use crate::param_type::max_width;
use crate::param_type::seq_widths_computable;
use crate::param_type::width_computable;
use crate::param_type::width_of;
use crate::param_type::EnumVariants;
use crate::param_type::ParamType;
use crate::param_type::WORD_SIZE;
use crate::token::first_invalid;
use crate::token::first_invalid_in;
use crate::token::lemma_first_invalid_in_split;
use crate::token::lemma_token_views_index;
use crate::token::lemma_token_views_len;
use crate::token::lemma_tokens_valid_pointwise;
use crate::token::token_valid;
use crate::token::token_views;
use crate::token::token_widths_fit;
use crate::token::tokens_valid;
use crate::token::tokens_widths_fit;
use crate::token::EnumSelector;
use crate::token::Token;
use crate::token::TokenV;
use vstd::prelude::*;

verus! {

broadcast use
    vstd::seq::group_seq_axioms,
    vstd::std_specs::vec::group_vec_axioms,
    vstd::array::group_array_axioms,
;

/// An 8-byte function selector slot.
pub type ByteArray = [u8; 8];

/// Encodes token trees into the word-oriented wire format.  The instance owns
/// a byte buffer, refilled by each [`ABIEncoder::encode`] call, and an 8-byte
/// function selector fixed at construction.
pub struct ABIEncoder {
    pub function_selector: ByteArray,
    pub encoded_args: Vec<u8>,
}

impl ABIEncoder {
    /// An encoder with an all-zero selector and an empty buffer.
    pub fn new() -> (r: Self)
        ensures
            r.function_selector@ == zero_bytes(8),
            r.encoded_args@ == Seq::<u8>::empty(),
    {
        let r = ABIEncoder { function_selector: [0u8; 8], encoded_args: Vec::new() };
        proof {
            assert(r.function_selector@ =~= zero_bytes(8));
        }
        r
    }

    /// An encoder whose selector is derived from `signature`, with an empty
    /// buffer.
    pub fn new_with_fn_selector(signature: &[u8]) -> (r: Self)
        ensures
            r.function_selector@ == selector_bytes(signature@),
            r.encoded_args@ == Seq::<u8>::empty(),
    {
        ABIEncoder {
            function_selector: Self::encode_function_selector(signature),
            encoded_args: Vec::new(),
        }
    }

    /// Encodes `args` in order and returns the wire bytes.  The internal
    /// buffer is refilled from scratch on every call and the returned bytes
    /// are its full contents.  Fails with [`CodecError::InvalidData`] exactly
    /// when some enum discriminant in `args` is out of range for its variant
    /// list; the error carries the first such discriminant, in depth-first
    /// walk order, and its variant list.
    pub fn encode(&mut self, args: &Vec<Token>) -> (r: Result<Vec<u8>, CodecError>)
        requires
            tokens_widths_fit(token_views(args@)),
        ensures
            final(self).function_selector == old(self).function_selector,
            (r is Ok) <==> tokens_valid(token_views(args@)),
            r matches Ok(bytes) ==> bytes@ == encoded_tokens(token_views(args@))
                && final(self).encoded_args@ == bytes@,
            r matches Err(e) ==> (e matches CodecError::InvalidData(d, vs) && Some((d, vs@))
                == first_invalid_in(token_views(args@))),
    {
        self.encoded_args = Vec::new();
        match self.encode_tokens(args) {
            Ok(()) => {
                let bytes = clone_bytes(&self.encoded_args);
                Ok(bytes)
            },
            Err(e) => Err(e),
        }
    }

    /// Appends the encoding of each token of `args`, in order, stopping at the
    /// first out-of-range enum discriminant.
    fn encode_tokens(&mut self, args: &Vec<Token>) -> (r: Result<(), CodecError>)
        requires
            tokens_widths_fit(token_views(args@)),
        ensures
            final(self).function_selector == old(self).function_selector,
            (r is Ok) <==> tokens_valid(token_views(args@)),
            r is Ok ==> final(self).encoded_args@ == old(self).encoded_args@ + encoded_tokens(
                token_views(args@),
            ),
            r matches Err(e) ==> (e matches CodecError::InvalidData(d, vs) && Some((d, vs@))
                == first_invalid_in(token_views(args@))),
        decreases args, 1nat,
    {
        let ghost views = token_views(args@);
        let ghost entry_buf = self.encoded_args@;
        proof {
            lemma_token_views_len(args@);
        }
        let mut i: usize = 0;
        while i < args.len()
            invariant
                i <= args@.len(),
                views == token_views(args@),
                views.len() == args@.len(),
                tokens_widths_fit(views),
                forall|j: int| 0 <= j < i ==> token_valid(#[trigger] views[j]),
                self.encoded_args@ == entry_buf + encoded_tokens(views.subrange(0, i as int)),
                self.function_selector == old(self).function_selector,
            decreases args@.len() - i,
        {
            proof {
                lemma_token_views_index(args@, i as int);
                assert(token_widths_fit(views[i as int]));
            }
            let outcome = self.encode_token(&args[i]);
            match outcome {
                Ok(()) => {
                    proof {
                        let grown = views.subrange(0, i as int + 1);
                        assert(grown.subrange(0, i as int) =~= views.subrange(0, i as int));
                        assert(grown.last() == views[i as int]);
                        assert(self.encoded_args@ =~= entry_buf + encoded_tokens(grown));
                    }
                },
                Err(e) => {
                    proof {
                        lemma_first_invalid_in_split(views, i as int);
                        assert(views.subrange(i as int, views.len() as int)[0] == views[i as int]);
                    }
                    return Err(e);
                },
            }
            i = i + 1;
        }
        proof {
            assert(views.subrange(0, views.len() as int) =~= views);
            lemma_tokens_valid_pointwise(views);
        }
        Ok(())
    }

    /// Appends the encoding of one token.
    fn encode_token(&mut self, arg: &Token) -> (r: Result<(), CodecError>)
        requires
            token_widths_fit(arg@),
        ensures
            final(self).function_selector == old(self).function_selector,
            (r is Ok) <==> token_valid(arg@),
            r is Ok ==> final(self).encoded_args@ == old(self).encoded_args@ + encoded_token(arg@),
            r matches Err(e) ==> (e matches CodecError::InvalidData(d, vs) && Some((d, vs@))
                == first_invalid(arg@)),
        decreases arg, 0nat,
    {
        match arg {
            Token::U8(x) => {
                self.push_word(*x as u64);
                Ok(())
            },
            Token::U16(x) => {
                self.push_word(*x as u64);
                Ok(())
            },
            Token::U32(x) => {
                self.push_word(*x as u64);
                Ok(())
            },
            Token::U64(x) => {
                self.push_word(*x);
                Ok(())
            },
            Token::Byte(x) => {
                self.push_word(*x as u64);
                Ok(())
            },
            Token::Bool(b) => {
                self.push_word(
                    if *b {
                        1
                    } else {
                        0
                    },
                );
                Ok(())
            },
            Token::B256(bytes) => {
                self.push_byte_slice(bytes.as_slice());
                Ok(())
            },
            Token::Array(elems) => self.encode_tokens(elems),
            Token::String(text) => {
                let bytes = text.as_str().as_bytes();
                self.push_byte_slice(bytes);
                let rem = bytes.len() % WORD_SIZE;
                let pad = if rem == 0 {
                    0
                } else {
                    WORD_SIZE - rem
                };
                self.rightpad_with_zeroes(pad);
                proof {
                    assert(pad == string_pad_len(bytes@.len()));
                    assert(self.encoded_args@ =~= old(self).encoded_args@ + encoded_token(arg@));
                }
                Ok(())
            },
            Token::Struct(members) => self.encode_tokens(members),
            Token::Enum(selector) => self.encode_enum(&**selector),
            Token::Tuple(elems) => self.encode_tokens(elems),
            Token::Unit => {
                self.rightpad_with_zeroes(WORD_SIZE);
                Ok(())
            },
        }
    }

    /// Appends one enum value: the discriminant word, zero padding up to the
    /// widest sibling variant, then the payload.  Fails when the discriminant
    /// does not index the variant list.
    fn encode_enum(&mut self, selector: &EnumSelector) -> (r: Result<(), CodecError>)
        requires
            (selector.0 as int) < selector.2@.len() ==> seq_widths_computable(selector.2@) && (1
                + max_width(selector.2@)) * 8 <= usize::MAX && token_widths_fit(selector.1@),
        ensures
            final(self).function_selector == old(self).function_selector,
            (r is Ok) <==> ((selector.0 as int) < selector.2@.len() && token_valid(selector.1@)),
            r is Ok ==> final(self).encoded_args@ == old(self).encoded_args@ + encoded_enum(
                selector.0,
                selector.1@,
                selector.2@,
            ),
            r matches Err(e) ==> (e matches CodecError::InvalidData(d, vs) && ((selector.0 as int)
                >= selector.2@.len() ==> (d == selector.0 && vs@ == selector.2@)) && ((selector.0
                as int) < selector.2@.len() ==> Some((d, vs@)) == first_invalid(selector.1@))),
        decreases selector, 1nat,
    {
        let discriminant = selector.0;
        self.encode_discriminant(discriminant);
        let param_type = match Self::type_of_chosen_variant(discriminant, &selector.2) {
            Ok(p) => p,
            Err(e) => {
                return Err(e);
            },
        };
        proof {
            lemma_max_width_ge(selector.2@, discriminant as int);
        }
        self.add_enum_padding(&selector.2, param_type);
        match self.encode_token(&selector.1) {
            Ok(()) => {
                proof {
                    assert(self.encoded_args@ =~= old(self).encoded_args@ + encoded_enum(
                        selector.0,
                        selector.1@,
                        selector.2@,
                    ));
                }
                Ok(())
            },
            Err(e) => Err(e),
        }
    }

    /// Appends the zero padding between an enum's discriminant word and its
    /// payload: the width gap to the widest variant, in bytes.
    fn add_enum_padding(&mut self, variants: &EnumVariants, param_type: &ParamType)
        requires
            variants@.len() > 0,
            seq_widths_computable(variants@),
            (1 + max_width(variants@)) * 8 <= usize::MAX,
            width_computable(param_type@),
            width_of(param_type@) <= max_width(variants@),
        ensures
            final(self).function_selector == old(self).function_selector,
            final(self).encoded_args@ == old(self).encoded_args@ + zero_bytes(
                ((max_width(variants@) - width_of(param_type@)) * 8) as nat,
            ),
    {
        proof {
            lemma_param_views_len(variants.param_types@);
        }
        let biggest_variant_width = match max_by_encoding_width(&variants.param_types) {
            Some(w) => w,
            None => {
                proof {
                    assert(false);
                }
                0
            },
        };
        let variant_width = encoding_width(param_type);
        let padding_amount = (biggest_variant_width - variant_width) * WORD_SIZE;
        self.rightpad_with_zeroes(padding_amount);
    }

    /// The shape of the variant picked by `discriminant`, or the encoder's one
    /// error when `discriminant` does not index `variants`.
    fn type_of_chosen_variant<'a>(discriminant: u8, variants: &'a EnumVariants) -> (r: Result<
        &'a ParamType,
        CodecError,
    >)
        ensures
            (r is Ok) <==> (discriminant as int) < variants@.len(),
            r matches Ok(p) ==> p@ == variants@[discriminant as int],
            r matches Err(e) ==> (e matches CodecError::InvalidData(d, vs) && d == discriminant
                && vs@ == variants@),
    {
        proof {
            lemma_param_views_len(variants.param_types@);
        }
        if (discriminant as usize) < variants.param_types.len() {
            proof {
                lemma_param_views_index(variants.param_types@, discriminant as int);
            }
            Ok(&variants.param_types[discriminant as usize])
        } else {
            Err(CodecError::InvalidData(discriminant, variants.clone()))
        }
    }

    /// Appends the discriminant as one right-justified word.
    fn encode_discriminant(&mut self, discriminant: u8)
        ensures
            final(self).function_selector == old(self).function_selector,
            final(self).encoded_args@ == old(self).encoded_args@ + be_word(discriminant as u64),
    {
        self.push_word(discriminant as u64);
    }

    /// Appends `amount` zero bytes to the buffer.
    fn rightpad_with_zeroes(&mut self, amount: usize)
        ensures
            final(self).function_selector == old(self).function_selector,
            final(self).encoded_args@ == old(self).encoded_args@ + zero_bytes(amount as nat),
    {
        let mut i: usize = 0;
        while i < amount
            invariant
                i <= amount,
                self.encoded_args@ == old(self).encoded_args@ + zero_bytes(i as nat),
                self.function_selector == old(self).function_selector,
            decreases amount - i,
        {
            self.encoded_args.push(0u8);
            proof {
                assert(self.encoded_args@ =~= old(self).encoded_args@ + zero_bytes(
                    i as nat + 1,
                ));
            }
            i = i + 1;
        }
    }

    /// Appends one 8-byte word holding `x` big-endian.
    fn push_word(&mut self, x: u64)
        ensures
            final(self).function_selector == old(self).function_selector,
            final(self).encoded_args@ == old(self).encoded_args@ + be_word(x),
    {
        let b0: u8 = #[verifier::truncate] ((x >> 56) as u8);
        let b1: u8 = #[verifier::truncate] ((x >> 48) as u8);
        let b2: u8 = #[verifier::truncate] ((x >> 40) as u8);
        let b3: u8 = #[verifier::truncate] ((x >> 32) as u8);
        let b4: u8 = #[verifier::truncate] ((x >> 24) as u8);
        let b5: u8 = #[verifier::truncate] ((x >> 16) as u8);
        let b6: u8 = #[verifier::truncate] ((x >> 8) as u8);
        let b7: u8 = #[verifier::truncate] (x as u8);
        self.encoded_args.push(b0);
        self.encoded_args.push(b1);
        self.encoded_args.push(b2);
        self.encoded_args.push(b3);
        self.encoded_args.push(b4);
        self.encoded_args.push(b5);
        self.encoded_args.push(b6);
        self.encoded_args.push(b7);
        proof {
            assert(self.encoded_args@ =~= old(self).encoded_args@ + be_word(x));
        }
    }

    /// Appends every byte of `bytes` to the buffer, in order.
    fn push_byte_slice(&mut self, bytes: &[u8])
        ensures
            final(self).function_selector == old(self).function_selector,
            final(self).encoded_args@ == old(self).encoded_args@ + bytes@,
    {
        let mut i: usize = 0;
        while i < bytes.len()
            invariant
                i <= bytes@.len(),
                self.encoded_args@ == old(self).encoded_args@ + bytes@.subrange(0, i as int),
                self.function_selector == old(self).function_selector,
            decreases bytes@.len() - i,
        {
            self.encoded_args.push(bytes[i]);
            proof {
                assert(self.encoded_args@ =~= old(self).encoded_args@ + bytes@.subrange(
                    0,
                    i as int + 1,
                ));
            }
            i = i + 1;
        }
        proof {
            assert(bytes@.subrange(0, bytes@.len() as int) =~= bytes@);
        }
    }

    /// The 8-byte selector of a call signature: four zero bytes, then the
    /// first four bytes of the signature's SHA-256 digest.  Pure and total;
    /// distinct signatures may collide, which the format accepts.
    pub fn encode_function_selector(signature: &[u8]) -> (r: ByteArray)
        ensures
            r@ == selector_bytes(signature@),
    {
        let digest = sha256_digest(signature);
        let out = Self::selector_from_digest(&digest);
        proof {
            assert(out@ =~= selector_bytes(signature@));
        }
        out
    }

    /// Lays a digest out in a selector slot: four zero bytes, then the
    /// digest's first four bytes.
    pub fn selector_from_digest(digest: &Vec<u8>) -> (r: ByteArray)
        requires
            digest@.len() >= 4,
        ensures
            r@ == zero_bytes(4) + digest@.subrange(0, 4),
    {
        let out: ByteArray = [0, 0, 0, 0, digest[0], digest[1], digest[2], digest[3]];
        proof {
            assert(out@ =~= zero_bytes(4) + digest@.subrange(0, 4));
        }
        out
    }
}

impl Default for ABIEncoder {
    /// The default encoder is [`ABIEncoder::new`].
    fn default() -> (r: Self)
        ensures
            r.function_selector@ == zero_bytes(8),
            r.encoded_args@ == Seq::<u8>::empty(),
    {
        Self::new()
    }
}

/// Copies a byte buffer; byte vectors clone to spec-equal contents.
fn clone_bytes(bytes: &Vec<u8>) -> (r: Vec<u8>)
    ensures
        r@ == bytes@,
{
    let r = bytes.clone();
    proof {
        assert forall|i: int| 0 <= i < r@.len() implies r@[i] == bytes@[i] by {
            assert(cloned::<u8>(bytes@[i], r@[i]));
        }
        assert(r@ =~= bytes@);
    }
    r
}

} // verus!
