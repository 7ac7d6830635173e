use vstd::prelude::*;

verus! {

broadcast use vstd::seq::group_seq_axioms;

/// One word of the wire format is 8 bytes.
pub const WORD_SIZE: usize = 8;

/// Mathematical model of a [`ParamType`]: the same shape tree with `Seq` in
/// place of `Vec` and `nat` in place of `usize`.  Contracts and laws speak of
/// this type, through [`ParamType::view`].
pub enum ParamTypeV {
    Unit,
    U8,
    U16,
    U32,
    U64,
    Bool,
    Byte,
    B256,
    Array(Box<ParamTypeV>, nat),
    String(nat),
    Struct(Seq<ParamTypeV>),
    Enum(Seq<ParamTypeV>),
    Tuple(Seq<ParamTypeV>),
}

/// Static shape descriptor of an encodable value.  It carries no data; the
/// matching runtime data lives in a `Token` of the same shape.
#[derive(Debug, PartialEq, Eq)]
pub enum ParamType {
    Unit,
    U8,
    U16,
    U32,
    U64,
    Bool,
    Byte,
    B256,
    Array(Box<ParamType>, usize),
    String(usize),
    Struct(Vec<ParamType>),
    Enum(EnumVariants),
    Tuple(Vec<ParamType>),
}

/// The ordered variant universe of one enum type, indexed by discriminant.
/// An enum type is expected to have at least one variant; [`EnumVariants::new`]
/// is the checked constructor.
#[derive(Debug, PartialEq, Eq)]
pub struct EnumVariants {
    pub param_types: Vec<ParamType>,
}

/// The models of a sequence of shape descriptors, element by element.
pub open spec fn param_views(s: Seq<ParamType>) -> Seq<ParamTypeV>
    decreases s,
{
    if s.len() == 0 {
        Seq::empty()
    } else {
        param_views(s.subrange(0, s.len() - 1)).push(s.last()@)
    }
}

/// A shape list and its model have the same length.
pub proof fn lemma_param_views_len(s: Seq<ParamType>)
    ensures
        param_views(s).len() == s.len(),
    decreases s.len(),
{
    if s.len() == 0 {
        assert(param_views(s).len() == 0);
    } else {
        lemma_param_views_len(s.subrange(0, s.len() - 1));
        assert(param_views(s) == param_views(s.subrange(0, s.len() - 1)).push(s.last()@));
        assert(param_views(s).len() == param_views(s.subrange(0, s.len() - 1)).len() + 1);
    }
}

/// A shape list is modelled element by element.
pub proof fn lemma_param_views_index(s: Seq<ParamType>, i: int)
    requires
        0 <= i < s.len(),
    ensures
        param_views(s)[i] == s[i]@,
    decreases s.len(),
{
    let prefix = s.subrange(0, s.len() - 1);
    lemma_param_views_len(prefix);
    assert(param_views(s) == param_views(prefix).push(s.last()@));
    if i < s.len() - 1 {
        lemma_param_views_index(prefix, i);
        assert(param_views(prefix).push(s.last()@)[i] == param_views(prefix)[i]);
        assert(prefix[i] == s[i]);
    } else {
        assert(param_views(prefix).push(s.last()@)[i] == s.last()@);
    }
}

impl View for ParamType {
    type V = ParamTypeV;

    open spec fn view(&self) -> ParamTypeV
        decreases self,
    {
        match self {
            ParamType::Unit => ParamTypeV::Unit,
            ParamType::U8 => ParamTypeV::U8,
            ParamType::U16 => ParamTypeV::U16,
            ParamType::U32 => ParamTypeV::U32,
            ParamType::U64 => ParamTypeV::U64,
            ParamType::Bool => ParamTypeV::Bool,
            ParamType::Byte => ParamTypeV::Byte,
            ParamType::B256 => ParamTypeV::B256,
            ParamType::Array(elem, n) => ParamTypeV::Array(Box::new((**elem)@), *n as nat),
            ParamType::String(n) => ParamTypeV::String(*n as nat),
            ParamType::Struct(fields) => ParamTypeV::Struct(param_views(fields@)),
            ParamType::Enum(variants) => ParamTypeV::Enum(variants@),
            ParamType::Tuple(elems) => ParamTypeV::Tuple(param_views(elems@)),
        }
    }
}

impl View for EnumVariants {
    type V = Seq<ParamTypeV>;

    open spec fn view(&self) -> Seq<ParamTypeV>
        decreases self,
    {
        param_views(self.param_types@)
    }
}

impl EnumVariants {
    /// Wraps a non-empty variant list; an empty one has no valid discriminant
    /// and is rejected.
    pub fn new(param_types: Vec<ParamType>) -> (r: Option<EnumVariants>)
        ensures
            param_types@.len() > 0 ==> (r matches Some(v) && v@ == param_views(param_types@)),
            param_types@.len() == 0 ==> r is None,
    {
        if param_types.len() > 0 {
            Some(EnumVariants { param_types })
        } else {
            None
        }
    }

    /// The number of variants of the enum type.
    pub fn len(&self) -> (r: usize)
        ensures
            r == self@.len(),
    {
        proof {
            lemma_param_views_len(self.param_types@);
        }
        self.param_types.len()
    }
}

impl Clone for ParamType {
    /// Cloning preserves the modelled shape.
    fn clone(&self) -> (r: Self)
        ensures
            r@ == self@,
        decreases self,
    {
        match self {
            ParamType::Unit => ParamType::Unit,
            ParamType::U8 => ParamType::U8,
            ParamType::U16 => ParamType::U16,
            ParamType::U32 => ParamType::U32,
            ParamType::U64 => ParamType::U64,
            ParamType::Bool => ParamType::Bool,
            ParamType::Byte => ParamType::Byte,
            ParamType::B256 => ParamType::B256,
            ParamType::Array(elem, n) => ParamType::Array(Box::new((**elem).clone()), *n),
            ParamType::String(n) => ParamType::String(*n),
            ParamType::Struct(fields) => ParamType::Struct(clone_param_types(fields)),
            ParamType::Enum(variants) => ParamType::Enum(variants.clone()),
            ParamType::Tuple(elems) => ParamType::Tuple(clone_param_types(elems)),
        }
    }
}

/// Clones a shape list, preserving the model of every element.
fn clone_param_types(params: &Vec<ParamType>) -> (r: Vec<ParamType>)
    ensures
        param_views(r@) == param_views(params@),
        r@.len() == params@.len(),
    decreases params,
{
    let mut r: Vec<ParamType> = Vec::new();
    let n = params.len();
    let mut i: usize = 0;
    while i < n
        invariant
            i <= n,
            n == params@.len(),
            r@.len() == i,
            forall|j: int| 0 <= j < i ==> r@[j]@ == params@[j]@,
        decreases n - i,
    {
        r.push(params[i].clone());
        i = i + 1;
    }
    proof {
        lemma_param_views_len(r@);
        lemma_param_views_len(params@);
        assert forall|j: int| 0 <= j < r@.len() implies param_views(r@)[j] == param_views(
            params@,
        )[j] by {
            lemma_param_views_index(r@, j);
            lemma_param_views_index(params@, j);
        }
        assert(param_views(r@) =~= param_views(params@));
    }
    r
}

impl Clone for EnumVariants {
    /// Cloning preserves the modelled variant list.
    fn clone(&self) -> (r: Self)
        ensures
            r@ == self@,
        decreases self,
    {
        EnumVariants { param_types: clone_param_types(&self.param_types) }
    }
}

/// How many whole words cover `bytes` bytes: the byte count rounded up to the
/// next multiple of [`WORD_SIZE`], in words.
pub open spec fn word_count(bytes: nat) -> nat {
    bytes / 8 + if bytes % 8 == 0 {
        0nat
    } else {
        1nat
    }
}

/// Footprint of a shape on the wire, in words.  Enum footprints reserve one
/// word for the discriminant plus the width of the widest variant, so every
/// value of one enum type occupies the same space.
pub open spec fn width_of(t: ParamTypeV) -> nat
    decreases t,
{
    match t {
        ParamTypeV::Unit => 0,
        ParamTypeV::U8 => 1,
        ParamTypeV::U16 => 1,
        ParamTypeV::U32 => 1,
        ParamTypeV::U64 => 1,
        ParamTypeV::Bool => 1,
        ParamTypeV::Byte => 1,
        ParamTypeV::B256 => 4,
        ParamTypeV::Array(elem, n) => width_of(*elem) * n,
        ParamTypeV::String(n) => word_count(n),
        ParamTypeV::Struct(fields) => sum_widths(fields),
        ParamTypeV::Enum(variants) => 1 + max_width(variants),
        ParamTypeV::Tuple(elems) => sum_widths(elems),
    }
}

/// Total width of a field list, in words.
pub open spec fn sum_widths(s: Seq<ParamTypeV>) -> nat
    decreases s,
{
    if s.len() == 0 {
        0
    } else {
        sum_widths(s.subrange(0, s.len() - 1)) + width_of(s.last())
    }
}

/// Width of the widest shape in a list, in words; 0 for an empty list.
pub open spec fn max_width(s: Seq<ParamTypeV>) -> nat
    decreases s,
{
    if s.len() == 0 {
        0
    } else {
        let rest = max_width(s.subrange(0, s.len() - 1));
        if width_of(s.last()) >= rest {
            width_of(s.last())
        } else {
            rest
        }
    }
}

/// The width calculator's precondition: every node's width fits in `usize`
/// and every enum node has at least one variant.
pub open spec fn width_computable(t: ParamTypeV) -> bool
    decreases t,
{
    &&& width_of(t) <= usize::MAX
    &&& match t {
        ParamTypeV::Array(elem, _) => width_computable(*elem),
        ParamTypeV::Struct(fields) => seq_widths_computable(fields),
        ParamTypeV::Enum(variants) => variants.len() > 0 && seq_widths_computable(variants),
        ParamTypeV::Tuple(elems) => seq_widths_computable(elems),
        _ => true,
    }
}

/// [`width_computable`], for every shape in a list.
pub open spec fn seq_widths_computable(s: Seq<ParamTypeV>) -> bool
    decreases s,
{
    forall|i: int| 0 <= i < s.len() ==> width_computable(#[trigger] s[i])
}

/// A prefix of a field list never outweighs the whole list.
pub proof fn lemma_sum_widths_prefix(s: Seq<ParamTypeV>, j: int)
    requires
        0 <= j <= s.len(),
    ensures
        sum_widths(s.subrange(0, j)) <= sum_widths(s),
    decreases s.len() - j,
{
    if j == s.len() {
        assert(s.subrange(0, j) =~= s);
    } else {
        lemma_sum_widths_prefix(s, j + 1);
        assert(s.subrange(0, j + 1).subrange(0, j) =~= s.subrange(0, j));
        assert(s.subrange(0, j + 1).last() == s[j]);
    }
}

/// No shape in a list is wider than the list's maximum width.
pub proof fn lemma_max_width_ge(s: Seq<ParamTypeV>, i: int)
    requires
        0 <= i < s.len(),
    ensures
        width_of(s[i]) <= max_width(s),
    decreases s.len(),
{
    if i == s.len() - 1 {
    } else {
        lemma_max_width_ge(s.subrange(0, s.len() - 1), i);
        assert(s.subrange(0, s.len() - 1)[i] == s[i]);
    }
}

} // verus!
