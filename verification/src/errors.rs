use crate::param_type::EnumVariants;
use vstd::prelude::*;

verus! {

/// The one failure the encoder can report: an enum value whose discriminant
/// does not index any entry of its declared variant list.  The error carries
/// the offending discriminant and the full variant list for diagnostics.
#[derive(Debug, PartialEq, Eq)]
pub enum CodecError {
    InvalidData(u8, EnumVariants),
}

} // verus!
