//! A schema-directed codec between a JSON-like external representation and
//! a closed, recursively typed value model: runtime type descriptors drive a
//! tree decoder, a token-stream decoder, an encoder that is total over
//! well-typed values, and a default-value synthesizer.

use vstd::prelude::*;

pub mod b64;
pub mod decimal;
pub mod decode;
pub mod error;
pub mod fpbits;
pub mod json;
pub mod laws;
pub mod model;
pub mod openapi;
pub mod ser;
pub mod stream;
pub mod strutil;
pub mod type_ext;
pub mod views;
pub mod wire;

pub use decode::json_to_val;
pub use error::DecodeError;
pub use json::{Json, JsonNum};
pub use model::{Type, Val};
pub use openapi::{build_openapi_doc, OperationSig, SchemaDoc};
pub use ser::{val_to_json, ValSerialize};
pub use stream::{deserialize_val, expect_exactly_one, Token};
pub use type_ext::TypeExt;
pub use wire::results_to_json;
