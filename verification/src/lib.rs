//! A self-describing binary struct codec: named, typed field values are
//! encoded into one compact tagged byte buffer, and that buffer is decoded
//! back into named fields without an externally shared schema.
//!
//! A wire buffer holds, in order: a 1-byte field count, a 1-byte struct-name
//! length, the struct name, two reserved zero bytes, and then one record per
//! field — each a 1-byte name length, the name, an 8-byte big-endian value
//! length, and the value bytes. The [`serializer::Serializer`] builds such a
//! buffer, the [`deserializer::Deserializer`] reads one back, and
//! [`wire`] states the layout mathematically and proves that decoding
//! inverts encoding and that truncated buffers are always detected.
//!
//! Design decisions, applied uniformly:
//! - Every read is checked against the buffer's actual length: a declared
//!   length that reaches past the end yields a typed [`DeserializeError`],
//!   never an out-of-bounds access, so untrusted buffers are safe to parse.
//! - Every struct-name parse validates the two reserved bytes; a nonzero
//!   byte there is reported, never skipped.
//! - A name longer than 255 bytes and a 256th field are rejected with an
//!   error, never truncated or wrapped silently.
use vstd::prelude::*;

pub mod bigendian;
pub mod deserializer;
pub mod serializer;
pub mod stdimpls;
pub mod wire;

verus! {

/// Errors reported while decoding a wire buffer.
///
/// The payload conventions are:
/// - `InvalidLength(k)`: the buffer ended before a fixed-width piece of `k`
///   bytes (a length byte, the two reserved bytes, an 8-byte value length, or
///   a leaf value of fixed width `k`), or a field counter would pass `k`.
/// - `WrongNameLength(m)`: a name's declared length `m` exceeds the bytes
///   that remain, or a name to encode is longer than `m` bytes.
/// - `WrongName(s)`: a name mismatched (`s` is the name actually decoded) or
///   a name was not valid UTF-8 (`s` is then empty).
/// - `UnexpectedByte(b)`: a reserved byte held `b` instead of zero.
/// - `InvalidFieldDataConversion`: a declared value length exceeds the bytes
///   that remain, or a decoded value does not fit the target type.
/// - `UnknownError(s)`: an internal condition not otherwise classified.
#[derive(Debug)]
pub enum DeserializeError {
    InvalidLength(u8),
    InvalidDataType(u8),
    WrongDataType(u8),
    WrongNameLength(u8),
    WrongName(String),
    UnexpectedByte(u8),
    UnknownError(String),
    InvalidFieldDataConversion,
}

/// The leaf codec capability: a type that can turn itself into bytes and be
/// recovered from them.
///
/// `spec_serial` is the mathematical byte encoding of a value; `serialize`
/// must produce exactly those bytes, and `deserialize` must recover any value
/// from its own encoding. A value with `serial_ok` false (such as a string
/// whose length does not fit the 4-byte prefix) cannot be encoded.
pub trait TSerializable: Sized + DeepView {
    /// The byte encoding of this value.
    spec fn spec_serial(&self) -> Seq<u8>;

    /// Whether this value can be encoded at all.
    spec fn serial_ok(&self) -> bool;

    fn serialize(&self) -> (r: Vec<u8>)
        requires
            self.serial_ok(),
        ensures
            r@ == self.spec_serial(),
    ;

    fn deserialize(s: &[u8]) -> (r: Result<Self, DeserializeError>)
        ensures
            forall|v: Self|
                v.serial_ok() && s@ == #[trigger] v.spec_serial() ==> (r matches Ok(w)
                    && w.deep_view() == v.deep_view()),
    ;
}

} // verus!
