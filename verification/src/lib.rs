pub mod abi_encoder;
pub mod encoding;
pub mod encoding_utils;
pub mod errors;
pub mod hash;
pub mod laws;
pub mod param_type;
pub mod token;

pub use abi_encoder::ABIEncoder;
pub use abi_encoder::ByteArray;
pub use encoding_utils::encoding_width;
pub use encoding_utils::max_by_encoding_width;
pub use errors::CodecError;
pub use param_type::EnumVariants;
pub use param_type::ParamType;
pub use token::EnumSelector;
pub use token::Token;
