use crate::param_type::lemma_param_views_index;
use crate::param_type::lemma_param_views_len;
use crate::param_type::lemma_sum_widths_prefix;
use crate::param_type::max_width;
use crate::param_type::param_views;
use crate::param_type::seq_widths_computable;
use crate::param_type::sum_widths;
use crate::param_type::width_computable;
use crate::param_type::width_of;
use crate::param_type::ParamType;
use crate::param_type::ParamTypeV;
use vstd::prelude::*;

verus! {

broadcast use vstd::seq::group_seq_axioms, vstd::std_specs::vec::group_vec_axioms;

/// Width of the widest shape in `params`, in words; `None` when the list is
/// empty.  The encoder sizes an enum's padding with this.
pub fn max_by_encoding_width(params: &Vec<ParamType>) -> (r: Option<usize>)
    requires
        seq_widths_computable(param_views(params@)),
    ensures
        (r is Some) <==> params@.len() > 0,
        r matches Some(w) ==> w == max_width(param_views(params@)),
    decreases params,
{
    let ghost views = param_views(params@);
    proof {
        lemma_param_views_len(params@);
    }
    if params.len() == 0 {
        None
    } else {
        let mut widest: usize = 0;
        let mut i: usize = 0;
        while i < params.len()
            invariant
                i <= params@.len(),
                views == param_views(params@),
                views.len() == params@.len(),
                seq_widths_computable(views),
                widest == max_width(views.subrange(0, i as int)),
            decreases params@.len() - i,
        {
            proof {
                lemma_param_views_index(params@, i as int);
                assert(width_computable(views[i as int]));
            }
            let w = encoding_width(&params[i]);
            proof {
                let grown = views.subrange(0, i as int + 1);
                assert(grown.subrange(0, i as int) =~= views.subrange(0, i as int));
                assert(grown.last() == views[i as int]);
            }
            if w > widest {
                widest = w;
            }
            i = i + 1;
        }
        proof {
            assert(views.subrange(0, views.len() as int) =~= views);
        }
        Some(widest)
    }
}

/// Footprint of `param` on the wire, in words.
pub fn encoding_width(param: &ParamType) -> (r: usize)
    requires
        width_computable(param@),
    ensures
        r == width_of(param@),
    decreases param,
{
    match param {
        ParamType::Unit => 0,
        ParamType::U8 => 1,
        ParamType::U16 => 1,
        ParamType::U32 => 1,
        ParamType::U64 => 1,
        ParamType::Bool => 1,
        ParamType::Byte => 1,
        ParamType::B256 => 4,
        ParamType::Array(elem, count) => {
            let w = encoding_width(elem);
            w * *count
        },
        ParamType::String(len) => {
            let q = *len / 8;
            if *len % 8 == 0 {
                q
            } else {
                q + 1
            }
        },
        ParamType::Struct(fields) => sum_encoding_widths(fields),
        ParamType::Tuple(elems) => sum_encoding_widths(elems),
        ParamType::Enum(variants) => {
            proof {
                lemma_param_views_len(variants.param_types@);
                assert(param@ == ParamTypeV::Enum(variants@));
                assert(width_of(param@) == 1 + max_width(variants@));
                assert(seq_widths_computable(variants@));
            }
            let widest = max_by_encoding_width(&variants.param_types);
            match widest {
                Some(w) => 1 + w,
                None => {
                    proof {
                        assert(false);
                    }
                    0
                },
            }
        },
    }
}

/// Total footprint of a field list, in words.
fn sum_encoding_widths(fields: &Vec<ParamType>) -> (r: usize)
    requires
        seq_widths_computable(param_views(fields@)),
        sum_widths(param_views(fields@)) <= usize::MAX,
    ensures
        r == sum_widths(param_views(fields@)),
    decreases fields,
{
    let ghost views = param_views(fields@);
    proof {
        lemma_param_views_len(fields@);
    }
    let mut total: usize = 0;
    let mut i: usize = 0;
    while i < fields.len()
        invariant
            i <= fields@.len(),
            views == param_views(fields@),
            views.len() == fields@.len(),
            seq_widths_computable(views),
            sum_widths(views) <= usize::MAX,
            total == sum_widths(views.subrange(0, i as int)),
        decreases fields@.len() - i,
    {
        proof {
            lemma_param_views_index(fields@, i as int);
            assert(width_computable(views[i as int]));
            let grown = views.subrange(0, i as int + 1);
            assert(grown.subrange(0, i as int) =~= views.subrange(0, i as int));
            assert(grown.last() == views[i as int]);
            lemma_sum_widths_prefix(views, i as int + 1);
        }
        let w = encoding_width(&fields[i]);
        total = total + w;
        i = i + 1;
    }
    proof {
        assert(views.subrange(0, views.len() as int) =~= views);
    }
    total
}

} // verus!
