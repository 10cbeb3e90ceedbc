//! Token-Oriented Object Notation (TOON).
//!
//! A compact, indentation-based textual notation for JSON-like value trees,
//! designed to keep the character count low while remaining human-readable.
//! The encoder is a total function from a normalized value tree and a set of
//! options to the output text; every encoding rule is stated in the function
//! contracts and proved.

use vstd::prelude::*;

mod encoders;
mod laws;
mod normalize;
mod primitives;
mod types;
mod writer;

pub use encoders::encode_array;
pub use encoders::encode_object;
pub use encoders::encode_value;
pub use encoders::spec_encode_value;
pub use normalize::is_array;
pub use normalize::is_array_of_arrays;
pub use normalize::is_array_of_objects;
pub use normalize::is_array_of_primitives;
pub use normalize::is_object;
pub use normalize::is_primitive;
pub use normalize::object_from_pairs;
pub use primitives::encode_key;
pub use primitives::encode_primitive;
pub use primitives::encode_string_literal;
pub use primitives::escape_string;
pub use primitives::format_header;
pub use primitives::is_padded_with_whitespace;
pub use primitives::is_safe_unquoted;
pub use primitives::join_encoded_values;

pub use types::Delimiter;
pub use types::EncodeOptions;
pub use types::JsonPrimitive;
pub use types::JsonValue;
pub use writer::LineWriter;

verus! {

/// The options an `encode` call runs with: the given ones, or the
/// defaults (two spaces, comma, no length marker).
pub open spec fn spec_options(options: Option<EncodeOptions>) -> EncodeOptions {
    match options {
        Some(o) => o,
        None => EncodeOptions { indent: 2, delimiter: Delimiter::Comma, length_marker: None },
    }
}

/// Encodes a value tree to its textual notation.  With `None`, the
/// default options are used.  The result is exactly the rendering that
/// [`spec_encode_value`] describes.
///
/// The encoder is total over any representation and renders each
/// object's pairs in their stored order; ascending lexical key order —
/// the canonical output this format promises — is therefore guaranteed
/// for well-formed values ([`JsonValue::wf`]), which
/// [`object_from_pairs`] establishes for any pair list.
pub fn encode(value: &JsonValue, options: Option<EncodeOptions>) -> (r: String)
    requires
        2 * value.height() + 2 <= usize::MAX as int,
    ensures
        r@ == spec_encode_value(*value, spec_options(options)),
{
    let opts = match options {
        Some(o) => o,
        None => EncodeOptions::default(),
    };
    encode_value(value, &opts)
}

} // verus!
