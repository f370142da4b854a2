//! The leaf codecs: fixed-width big-endian integers, booleans, and
//! length-prefixed UTF-8 strings.
use crate::bigendian::be_enc;
use crate::bigendian::be_encode;
use crate::bigendian::be_decode;
use crate::bigendian::lemma_be_enc_len;
use crate::bigendian::lemma_be_val_bound;
use crate::bigendian::lemma_be_val_enc;
use crate::bigendian::lemma_pow256_values;
use crate::deserializer::utils::utf8_to_string;
use crate::DeserializeError;
use crate::TSerializable;
use vstd::prelude::*;
use vstd::slice::slice_subrange;
use vstd::utf8::decode_utf8;
use vstd::utf8::encode_utf8;
use vstd::utf8::encode_utf8_decode_utf8;
use vstd::utf8::encode_utf8_valid_utf8;

verus! {

/// The two's-complement bit pattern of an 8-bit signed value.
pub open spec fn i8_bits(x: i8) -> u8 {
    if x >= 0 {
        x as u8
    } else {
        (x + 0x100) as u8
    }
}

/// The two's-complement bit pattern of a 16-bit signed value.
pub open spec fn i16_bits(x: i16) -> u16 {
    if x >= 0 {
        x as u16
    } else {
        (x + 0x10000) as u16
    }
}

/// The two's-complement bit pattern of a 32-bit signed value.
pub open spec fn i32_bits(x: i32) -> u32 {
    if x >= 0 {
        x as u32
    } else {
        (x + 0x100000000) as u32
    }
}

/// The two's-complement bit pattern of a 64-bit signed value.
pub open spec fn i64_bits(x: i64) -> u64 {
    if x >= 0 {
        x as u64
    } else {
        (x + 0x10000000000000000) as u64
    }
}

/// The two's-complement bit pattern of a 128-bit signed value.
pub open spec fn i128_bits(x: i128) -> u128 {
    if x >= 0 {
        x as u128
    } else {
        (x + 0x100000000000000000000000000000000) as u128
    }
}

impl TSerializable for u8 {
    open spec fn spec_serial(&self) -> Seq<u8> {
        be_enc(*self as nat, 1)
    }

    open spec fn serial_ok(&self) -> bool {
        true
    }

    fn serialize(&self) -> (r: Vec<u8>) {
        be_encode(*self as u128, 1)
    }

    fn deserialize(s: &[u8]) -> (r: Result<Self, DeserializeError>) {
        proof {
            broadcast use lemma_be_enc_len;

            lemma_pow256_values();
        }
        if s.len() != 1 {
            return Err(DeserializeError::InvalidLength(1));
        }
        let wide = be_decode(s);
        proof {
            lemma_be_val_bound(s@);
            assert forall|v: u8| s@ == #[trigger] be_enc(v as nat, 1) implies wide as nat
                == v as nat by {
                lemma_be_val_enc(v as nat, 1);
            }
        }
        Ok(wide as u8)
    }
}

impl TSerializable for u16 {
    open spec fn spec_serial(&self) -> Seq<u8> {
        be_enc(*self as nat, 2)
    }

    open spec fn serial_ok(&self) -> bool {
        true
    }

    fn serialize(&self) -> (r: Vec<u8>) {
        be_encode(*self as u128, 2)
    }

    fn deserialize(s: &[u8]) -> (r: Result<Self, DeserializeError>) {
        proof {
            broadcast use lemma_be_enc_len;

            lemma_pow256_values();
        }
        if s.len() != 2 {
            return Err(DeserializeError::InvalidLength(2));
        }
        let wide = be_decode(s);
        proof {
            lemma_be_val_bound(s@);
            assert forall|v: u16| s@ == #[trigger] be_enc(v as nat, 2) implies wide as nat
                == v as nat by {
                lemma_be_val_enc(v as nat, 2);
            }
        }
        Ok(wide as u16)
    }
}

impl TSerializable for u32 {
    open spec fn spec_serial(&self) -> Seq<u8> {
        be_enc(*self as nat, 4)
    }

    open spec fn serial_ok(&self) -> bool {
        true
    }

    fn serialize(&self) -> (r: Vec<u8>) {
        be_encode(*self as u128, 4)
    }

    fn deserialize(s: &[u8]) -> (r: Result<Self, DeserializeError>) {
        proof {
            broadcast use lemma_be_enc_len;

            lemma_pow256_values();
        }
        if s.len() != 4 {
            return Err(DeserializeError::InvalidLength(4));
        }
        let wide = be_decode(s);
        proof {
            lemma_be_val_bound(s@);
            assert forall|v: u32| s@ == #[trigger] be_enc(v as nat, 4) implies wide as nat
                == v as nat by {
                lemma_be_val_enc(v as nat, 4);
            }
        }
        Ok(wide as u32)
    }
}

impl TSerializable for u64 {
    open spec fn spec_serial(&self) -> Seq<u8> {
        be_enc(*self as nat, 8)
    }

    open spec fn serial_ok(&self) -> bool {
        true
    }

    fn serialize(&self) -> (r: Vec<u8>) {
        be_encode(*self as u128, 8)
    }

    fn deserialize(s: &[u8]) -> (r: Result<Self, DeserializeError>) {
        proof {
            broadcast use lemma_be_enc_len;

            lemma_pow256_values();
        }
        if s.len() != 8 {
            return Err(DeserializeError::InvalidLength(8));
        }
        let wide = be_decode(s);
        proof {
            lemma_be_val_bound(s@);
            assert forall|v: u64| s@ == #[trigger] be_enc(v as nat, 8) implies wide as nat
                == v as nat by {
                lemma_be_val_enc(v as nat, 8);
            }
        }
        Ok(wide as u64)
    }
}

impl TSerializable for u128 {
    open spec fn spec_serial(&self) -> Seq<u8> {
        be_enc(*self as nat, 16)
    }

    open spec fn serial_ok(&self) -> bool {
        true
    }

    fn serialize(&self) -> (r: Vec<u8>) {
        be_encode(*self, 16)
    }

    fn deserialize(s: &[u8]) -> (r: Result<Self, DeserializeError>) {
        proof {
            broadcast use lemma_be_enc_len;

            lemma_pow256_values();
        }
        if s.len() != 16 {
            return Err(DeserializeError::InvalidLength(16));
        }
        let wide = be_decode(s);
        proof {
            lemma_be_val_bound(s@);
            assert forall|v: u128| s@ == #[trigger] be_enc(v as nat, 16) implies wide as nat
                == v as nat by {
                lemma_be_val_enc(v as nat, 16);
            }
        }
        Ok(wide)
    }
}

impl TSerializable for usize {
    open spec fn spec_serial(&self) -> Seq<u8> {
        be_enc(*self as nat, 8)
    }

    open spec fn serial_ok(&self) -> bool {
        true
    }

    fn serialize(&self) -> (r: Vec<u8>) {
        be_encode(*self as u128, 8)
    }

    fn deserialize(s: &[u8]) -> (r: Result<Self, DeserializeError>) {
        proof {
            broadcast use lemma_be_enc_len;

            lemma_pow256_values();
        }
        if s.len() != 8 {
            return Err(DeserializeError::InvalidLength(8));
        }
        let wide = be_decode(s);
        proof {
            lemma_be_val_bound(s@);
            assert forall|v: usize| s@ == #[trigger] be_enc(v as nat, 8) implies wide as nat
                == v as nat by {
                lemma_be_val_enc(v as nat, 8);
            }
        }
        if wide > usize::MAX as u128 {
            return Err(DeserializeError::InvalidFieldDataConversion);
        }
        Ok(wide as usize)
    }
}

impl TSerializable for i8 {
    open spec fn spec_serial(&self) -> Seq<u8> {
        be_enc(i8_bits(*self) as nat, 1)
    }

    open spec fn serial_ok(&self) -> bool {
        true
    }

    fn serialize(&self) -> (r: Vec<u8>) {
        let bits: u8 = if *self >= 0 {
            *self as u8
        } else {
            ((*self as i16) + 0x100) as u8
        };
        be_encode(bits as u128, 1)
    }

    fn deserialize(s: &[u8]) -> (r: Result<Self, DeserializeError>) {
        proof {
            broadcast use lemma_be_enc_len;

            lemma_pow256_values();
        }
        if s.len() != 1 {
            return Err(DeserializeError::InvalidLength(1));
        }
        let wide = be_decode(s);
        proof {
            lemma_be_val_bound(s@);
            assert forall|v: i8| s@ == #[trigger] be_enc(i8_bits(v) as nat, 1) implies wide as nat
                == i8_bits(v) as nat by {
                lemma_be_val_enc(i8_bits(v) as nat, 1);
            }
        }
        let bits = wide as u8;
        let v: i8 = if bits <= 0x7f {
            bits as i8
        } else {
            (((bits as i16) - 0x100) as i8)
        };
        Ok(v)
    }
}

impl TSerializable for i16 {
    open spec fn spec_serial(&self) -> Seq<u8> {
        be_enc(i16_bits(*self) as nat, 2)
    }

    open spec fn serial_ok(&self) -> bool {
        true
    }

    fn serialize(&self) -> (r: Vec<u8>) {
        let bits: u16 = if *self >= 0 {
            *self as u16
        } else {
            ((*self as i32) + 0x10000) as u16
        };
        be_encode(bits as u128, 2)
    }

    fn deserialize(s: &[u8]) -> (r: Result<Self, DeserializeError>) {
        proof {
            broadcast use lemma_be_enc_len;

            lemma_pow256_values();
        }
        if s.len() != 2 {
            return Err(DeserializeError::InvalidLength(2));
        }
        let wide = be_decode(s);
        proof {
            lemma_be_val_bound(s@);
            assert forall|v: i16| s@ == #[trigger] be_enc(i16_bits(v) as nat, 2) implies wide as nat
                == i16_bits(v) as nat by {
                lemma_be_val_enc(i16_bits(v) as nat, 2);
            }
        }
        let bits = wide as u16;
        let v: i16 = if bits <= 0x7fff {
            bits as i16
        } else {
            (((bits as i32) - 0x10000) as i16)
        };
        Ok(v)
    }
}

impl TSerializable for i32 {
    open spec fn spec_serial(&self) -> Seq<u8> {
        be_enc(i32_bits(*self) as nat, 4)
    }

    open spec fn serial_ok(&self) -> bool {
        true
    }

    fn serialize(&self) -> (r: Vec<u8>) {
        let bits: u32 = if *self >= 0 {
            *self as u32
        } else {
            ((*self as i64) + 0x100000000) as u32
        };
        be_encode(bits as u128, 4)
    }

    fn deserialize(s: &[u8]) -> (r: Result<Self, DeserializeError>) {
        proof {
            broadcast use lemma_be_enc_len;

            lemma_pow256_values();
        }
        if s.len() != 4 {
            return Err(DeserializeError::InvalidLength(4));
        }
        let wide = be_decode(s);
        proof {
            lemma_be_val_bound(s@);
            assert forall|v: i32| s@ == #[trigger] be_enc(i32_bits(v) as nat, 4) implies wide as nat
                == i32_bits(v) as nat by {
                lemma_be_val_enc(i32_bits(v) as nat, 4);
            }
        }
        let bits = wide as u32;
        let v: i32 = if bits <= 0x7fffffff {
            bits as i32
        } else {
            (((bits as i64) - 0x100000000) as i32)
        };
        Ok(v)
    }
}

impl TSerializable for i64 {
    open spec fn spec_serial(&self) -> Seq<u8> {
        be_enc(i64_bits(*self) as nat, 8)
    }

    open spec fn serial_ok(&self) -> bool {
        true
    }

    fn serialize(&self) -> (r: Vec<u8>) {
        let bits: u64 = if *self >= 0 {
            *self as u64
        } else {
            ((*self as i128) + 0x10000000000000000) as u64
        };
        be_encode(bits as u128, 8)
    }

    fn deserialize(s: &[u8]) -> (r: Result<Self, DeserializeError>) {
        proof {
            broadcast use lemma_be_enc_len;

            lemma_pow256_values();
        }
        if s.len() != 8 {
            return Err(DeserializeError::InvalidLength(8));
        }
        let wide = be_decode(s);
        proof {
            lemma_be_val_bound(s@);
            assert forall|v: i64| s@ == #[trigger] be_enc(i64_bits(v) as nat, 8) implies wide as nat
                == i64_bits(v) as nat by {
                lemma_be_val_enc(i64_bits(v) as nat, 8);
            }
        }
        let bits = wide as u64;
        let v: i64 = if bits <= 0x7fffffffffffffff {
            bits as i64
        } else {
            (((bits as i128) - 0x10000000000000000) as i64)
        };
        Ok(v)
    }
}

impl TSerializable for i128 {
    open spec fn spec_serial(&self) -> Seq<u8> {
        be_enc(i128_bits(*self) as nat, 16)
    }

    open spec fn serial_ok(&self) -> bool {
        true
    }

    fn serialize(&self) -> (r: Vec<u8>) {
        let bits: u128 = if *self >= 0 {
            *self as u128
        } else {
            ((*self - i128::MIN) as u128) + 0x80000000000000000000000000000000
        };
        proof {
            assert(bits == i128_bits(*self));
        }
        be_encode(bits, 16)
    }

    fn deserialize(s: &[u8]) -> (r: Result<Self, DeserializeError>) {
        proof {
            broadcast use lemma_be_enc_len;

            lemma_pow256_values();
        }
        if s.len() != 16 {
            return Err(DeserializeError::InvalidLength(16));
        }
        let bits = be_decode(s);
        proof {
            lemma_be_val_bound(s@);
            assert forall|v: i128| s@ == #[trigger] be_enc(i128_bits(v) as nat, 16) implies
                bits as nat == i128_bits(v) as nat by {
                lemma_be_val_enc(i128_bits(v) as nat, 16);
            }
        }
        let v: i128 = if bits <= 0x7fffffffffffffffffffffffffffffff {
            bits as i128
        } else {
            ((bits - 0x80000000000000000000000000000000) as i128) + i128::MIN
        };
        Ok(v)
    }
}

impl TSerializable for bool {
    open spec fn spec_serial(&self) -> Seq<u8> {
        if *self {
            seq![1u8]
        } else {
            seq![0u8]
        }
    }

    open spec fn serial_ok(&self) -> bool {
        true
    }

    fn serialize(&self) -> (r: Vec<u8>) {
        let mut buf: Vec<u8> = Vec::new();
        if *self {
            buf.push(1);
        } else {
            buf.push(0);
        }
        proof {
            assert(buf@ =~= self.spec_serial());
        }
        buf
    }

    fn deserialize(s: &[u8]) -> (r: Result<Self, DeserializeError>) {
        if s.len() == 0 {
            return Err(DeserializeError::InvalidLength(1));
        }
        Ok(s[0] != 0)
    }
}

impl TSerializable for String {
    open spec fn spec_serial(&self) -> Seq<u8> {
        be_enc(encode_utf8(self@).len() as nat, 4) + encode_utf8(self@)
    }

    open spec fn serial_ok(&self) -> bool {
        encode_utf8(self@).len() < 0x100000000
    }

    fn serialize(&self) -> (r: Vec<u8>) {
        let bytes = self.as_str().as_bytes();
        let mut buf = be_encode(bytes.len() as u128, 4);
        buf.extend_from_slice(bytes);
        proof {
            assert(buf@ =~= self.spec_serial());
        }
        buf
    }

    fn deserialize(s: &[u8]) -> (r: Result<Self, DeserializeError>) {
        proof {
            broadcast use lemma_be_enc_len;

            lemma_pow256_values();
        }
        if s.len() < 4 {
            return Err(DeserializeError::InvalidLength(4));
        }
        let len_bytes = slice_subrange(s, 0, 4);
        let wide = be_decode(len_bytes);
        proof {
            lemma_be_val_bound(len_bytes@);
            assert forall|v: String|
                v.serial_ok() && s@ == #[trigger] v.spec_serial() implies wide as nat
                == encode_utf8(v@).len() && s@.len() == 4 + encode_utf8(v@).len() by {
                assert(len_bytes@ =~= be_enc(encode_utf8(v@).len() as nat, 4));
                lemma_be_val_enc(encode_utf8(v@).len() as nat, 4);
            }
        }
        let remaining = s.len() - 4;
        if wide > remaining as u128 {
            return Err(DeserializeError::InvalidFieldDataConversion);
        }
        let len = wide as usize;
        let body = slice_subrange(s, 4, 4 + len);
        proof {
            assert forall|v: String| v.serial_ok() && s@ == #[trigger] v.spec_serial() implies body@
                == encode_utf8(v@) && vstd::utf8::valid_utf8(body@) && decode_utf8(body@) == v@ by {
                assert(body@ =~= encode_utf8(v@));
                encode_utf8_valid_utf8(v@);
                encode_utf8_decode_utf8(v@);
            }
        }
        match utf8_to_string(body) {
            Some(st) => Ok(st),
            None => Err(DeserializeError::UnknownError("invalid utf8 string".to_owned())),
        }
    }
}

} // verus!
