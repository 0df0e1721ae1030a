//! Base64 encoding of byte strings with the standard alphabet and `=` padding.
//!
//! The executable encoder lives in [`encode`]. What it computes is defined by the
//! mathematical model in [`model`] over the alphabet of [`alphabet`]; [`decode`]
//! proves that the encoding can always be read back, [`bits`] relates the encoder's
//! shifts and masks to the model's arithmetic, and [`text`] turns the encoded bytes
//! into a `String`.

pub mod alphabet;
pub mod bits;
pub mod text;
pub mod model;
pub mod decode;
pub mod encode;

pub use encode::{
    add_padding, checked_encode_size, checked_encode_slice, encode, encode_size, encode_slice,
    encode_to_slice, encode_with_padding,
};
