//! Shared parsing routines: field count, reserved bytes, length-prefixed
//! names, and whole field records.
use crate::bigendian::be_decode;
use crate::bigendian::lemma_be_val_bound;
use crate::wire::name_at;
use crate::wire::name_at_ok;
use crate::wire::name_byte_missing;
use crate::wire::name_end;
use crate::wire::name_truncated;
use crate::wire::rec_len;
use crate::wire::rec_len_truncated;
use crate::wire::rec_name;
use crate::wire::rec_ok;
use crate::wire::rec_value;
use crate::wire::rec_value_end;
use crate::wire::rec_value_truncated;
use crate::DeserializeError;
use crate::TSerializable;
use vstd::prelude::*;
use vstd::slice::slice_subrange;
use vstd::string::StringSliceAdditionalSpecFns;
use vstd::utf8::decode_utf8;
use vstd::utf8::valid_utf8;

verus! {

/// Relies on core::str::from_utf8, which succeeds exactly when the bytes are
/// valid UTF-8, and on str::to_owned: the returned string's characters are
/// the UTF-8 decoding of the input bytes.
#[verifier::external_body]
pub(crate) fn utf8_to_string(bytes: &[u8]) -> (r: Option<String>)
    ensures
        r is Some <==> valid_utf8(bytes@),
        r matches Some(s) ==> s@ == decode_utf8(bytes@),
{
    match core::str::from_utf8(bytes) {
        Ok(s) => Some(s.to_owned()),
        Err(_) => None,
    }
}

/// Byte-for-byte slice comparison.
fn bytes_eq(a: &[u8], b: &[u8]) -> (r: bool)
    ensures
        r <==> a@ == b@,
{
    if a.len() != b.len() {
        return false;
    }
    let mut i: usize = 0;
    while i < a.len()
        invariant
            i <= a@.len(),
            a@.len() == b@.len(),
            forall|j: int| 0 <= j < i ==> a@[j] == b@[j],
        decreases a@.len() - i,
    {
        if a[i] != b[i] {
            return false;
        }
        i = i + 1;
    }
    proof {
        assert(a@ =~= b@);
    }
    true
}

/// Reads the 1-byte field count at the given offset and advances past it.
/// Every count 0..=255 is accepted as it stands.
pub fn read_field_count(data: &[u8], offset: &mut usize) -> (count: u8)
    requires
        *old(offset) < data@.len(),
    ensures
        count == data@[*old(offset) as int],
        *final(offset) == *old(offset) + 1,
{
    let count = data[*offset];
    *offset = *offset + 1;
    count
}

/// Checks that the two reserved bytes at the given offset are both zero and
/// advances past them; reports the first offending byte otherwise. The
/// offset is left unchanged on any error.
pub fn ensure_separator(data: &[u8], offset: &mut usize) -> (r: Result<(), DeserializeError>)
    ensures
        ({
            let b = data@;
            let o = *old(offset) as int;
            &&& (o + 2 > b.len() ==> r == Err::<(), _>(DeserializeError::InvalidLength(2u8))
                && *final(offset) == *old(offset))
            &&& (o + 2 <= b.len() && b[o] != 0 ==> r == Err::<(), _>(
                DeserializeError::UnexpectedByte(b[o]),
            ) && *final(offset) == *old(offset))
            &&& (o + 2 <= b.len() && b[o] == 0 && b[o + 1] != 0 ==> r == Err::<(), _>(
                DeserializeError::UnexpectedByte(b[o + 1]),
            ) && *final(offset) == *old(offset))
            &&& (o + 2 <= b.len() && b[o] == 0 && b[o + 1] == 0 ==> r == Ok::<(), DeserializeError>(
                ()) && *final(offset) == *old(offset) + 2)
        }),
{
    let o = *offset;
    if o >= data.len() || o + 1 >= data.len() {
        return Err(DeserializeError::InvalidLength(2));
    }
    if data[o] != 0 {
        return Err(DeserializeError::UnexpectedByte(data[o]));
    }
    if data[o + 1] != 0 {
        return Err(DeserializeError::UnexpectedByte(data[o + 1]));
    }
    *offset = o + 2;
    Ok(())
}

/// Reads a length-prefixed name at the given offset. When an expected name
/// is supplied and the decoded name differs, fails with a name-mismatch
/// error carrying the name actually decoded. The offset is advanced past the
/// name only on success.
pub fn read_struct_name(data: &[u8], offset: &mut usize, expected_name: Option<&str>) -> (r: Result<
    String,
    DeserializeError,
>)
    ensures
        ({
            let b = data@;
            let o = *old(offset) as int;
            &&& (name_byte_missing(b, o) ==> r == Err::<String, _>(DeserializeError::InvalidLength(
                1u8,
            )))
            &&& (name_truncated(b, o) ==> r == Err::<String, _>(DeserializeError::WrongNameLength(
                b[o],
            )))
            &&& (name_at_ok(b, o) && !valid_utf8(name_at(b, o)) ==> (r matches Err(e) && e matches
                DeserializeError::WrongName(m) && m@ == Seq::<char>::empty()))
            &&& (name_at_ok(b, o) && valid_utf8(name_at(b, o)) && (expected_name matches Some(e)
                && name_at(b, o) != e.spec_bytes()) ==> (r matches Err(err) && err matches
                DeserializeError::WrongName(m) && m@ == decode_utf8(name_at(b, o))))
            &&& (name_at_ok(b, o) && valid_utf8(name_at(b, o)) && (expected_name is None
                || name_at(b, o) == expected_name->Some_0.spec_bytes()) ==> (r matches Ok(s) && s@
                == decode_utf8(name_at(b, o)) && *final(offset) == name_end(b, o)))
            &&& (r is Err ==> *final(offset) == *old(offset))
        }),
{
    let o = *offset;
    if o >= data.len() {
        return Err(DeserializeError::InvalidLength(1));
    }
    let name_len = data[o] as usize;
    if name_len > data.len() - (o + 1) {
        return Err(DeserializeError::WrongNameLength(data[o]));
    }
    let name_bytes = slice_subrange(data, o + 1, o + 1 + name_len);
    let name = match utf8_to_string(name_bytes) {
        Some(s) => s,
        None => {
            return Err(DeserializeError::WrongName(String::new()));
        },
    };
    if let Some(expected) = expected_name {
        if !bytes_eq(name_bytes, expected.as_bytes()) {
            return Err(DeserializeError::WrongName(name));
        }
    }
    *offset = o + 1 + name_len;
    Ok(name)
}

/// Reads one field record at the given offset: name length, name bytes,
/// 8-byte value length, then the value bytes, which the target type's codec
/// decodes. Advances the offset past the whole record on success and leaves
/// it unchanged on any error. Every declared length is checked against the
/// bytes that remain, so a truncated or malformed buffer yields a typed
/// error, never an out-of-bounds read.
pub fn read_field<T: TSerializable>(data: &[u8], offset_bytes: &mut usize) -> (r: Result<
    (String, T),
    DeserializeError,
>)
    ensures
        ({
            let b = data@;
            let o = *old(offset_bytes) as int;
            &&& (name_byte_missing(b, o) ==> r == Err::<(String, T), _>(
                DeserializeError::InvalidLength(1u8),
            ))
            &&& (name_truncated(b, o) ==> r == Err::<(String, T), _>(
                DeserializeError::WrongNameLength(b[o]),
            ))
            &&& (rec_len_truncated(b, o) ==> r == Err::<(String, T), _>(
                DeserializeError::InvalidLength(8u8),
            ))
            &&& (rec_value_truncated(b, o) ==> r == Err::<(String, T), _>(
                DeserializeError::InvalidFieldDataConversion,
            ))
            &&& (rec_ok(b, o) && !valid_utf8(rec_name(b, o)) ==> (r matches Err(e) && e matches
                DeserializeError::WrongName(m) && m@ == Seq::<char>::empty()))
            &&& (r matches Ok(p) ==> rec_ok(b, o) && valid_utf8(rec_name(b, o)) && p.0@
                == decode_utf8(rec_name(b, o)) && *final(offset_bytes) == rec_value_end(b, o))
            &&& (forall|v: T|
                rec_ok(b, o) && valid_utf8(rec_name(b, o)) && v.serial_ok() && rec_value(b, o)
                    == #[trigger] v.spec_serial() ==> (r matches Ok(p) && p.1.deep_view()
                    == v.deep_view()))
            &&& (r is Err ==> *final(offset_bytes) == *old(offset_bytes))
        }),
{
    let o = *offset_bytes;
    if o >= data.len() {
        return Err(DeserializeError::InvalidLength(1));
    }
    let name_len = data[o] as usize;
    if name_len > data.len() - (o + 1) {
        return Err(DeserializeError::WrongNameLength(data[o]));
    }
    let name_start = o + 1;
    let len_start = name_start + name_len;
    if data.len() - len_start < 8 {
        return Err(DeserializeError::InvalidLength(8));
    }
    let len_bytes = slice_subrange(data, len_start, len_start + 8);
    let field_size_wide = be_decode(len_bytes);
    proof {
        assert(len_bytes@ == data@.subrange(
            name_end(data@, o as int),
            name_end(data@, o as int) + 8,
        ));
        lemma_be_val_bound(len_bytes@);
        assert(field_size_wide as nat == rec_len(data@, o as int));
    }
    let value_start = len_start + 8;
    let remaining = data.len() - value_start;
    if field_size_wide > remaining as u128 {
        return Err(DeserializeError::InvalidFieldDataConversion);
    }
    let field_size = field_size_wide as usize;
    let name_bytes = slice_subrange(data, name_start, len_start);
    let name = match utf8_to_string(name_bytes) {
        Some(s) => s,
        None => {
            return Err(DeserializeError::WrongName(String::new()));
        },
    };
    let value_bytes = slice_subrange(data, value_start, value_start + field_size);
    proof {
        assert(value_bytes@ == rec_value(data@, o as int));
    }
    let x: T = match T::deserialize(value_bytes) {
        Ok(x) => x,
        Err(e) => {
            return Err(e);
        },
    };
    *offset_bytes = value_start + field_size;
    Ok((name, x))
}

} // verus!
