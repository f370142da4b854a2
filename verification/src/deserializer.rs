//! The parser: owns a copy of a wire buffer, recovers the struct's name and
//! field count, and hands out a cursor over its fields region.
use self::fielditerator::FieldIterator;
use self::utils::ensure_separator;
use self::utils::read_field_count;
use self::utils::read_struct_name;
use crate::wire::fields_start;
use crate::wire::header_ok;
use crate::wire::name_at;
use crate::wire::name_at_ok;
use crate::wire::name_byte_missing;
use crate::wire::name_end;
use crate::wire::name_truncated;
use crate::wire::spec_field_count;
use crate::DeserializeError;
use vstd::prelude::*;
use vstd::slice::slice_subrange;
use vstd::utf8::decode_utf8;
use vstd::utf8::valid_utf8;

pub mod fielditerator;
pub mod utils;

verus! {

/// Parses a wire buffer. The buffer is copied in on construction; the
/// offset where the fields region begins is computed once, on the first
/// successful struct-name parse, and cached for reuse.
pub struct Deserializer {
    data: Vec<u8>,
    offset_field_count: usize,
    offset_struct_name: usize,
    lazy_offset_fields_begin: Option<usize>,
}

impl Deserializer {
    /// The bytes this parser reads.
    pub closed spec fn bytes(&self) -> Seq<u8> {
        self.data@
    }

    /// The cached offset of the fields region, once computed.
    pub closed spec fn fields_cached(&self) -> Option<int> {
        match self.lazy_offset_fields_begin {
            Some(o) => Some(o as int),
            None => None,
        }
    }

    /// The parser's invariant: the fixed offsets hold their defined values,
    /// and a cached fields offset is only ever the true start of the fields
    /// region of a well-formed header.
    pub closed spec fn wf(&self) -> bool {
        &&& self.offset_field_count == 0
        &&& self.offset_struct_name == 1
        &&& (self.lazy_offset_fields_begin matches Some(o) ==> header_ok(self.data@) && o
            == fields_start(self.data@))
    }

    /// Takes a private copy of the input bytes; nothing is parsed yet.
    pub fn new(data: &[u8]) -> (r: Self)
        ensures
            r.wf(),
            r.bytes() == data@,
            r.fields_cached() is None,
    {
        Deserializer {
            data: vstd::slice::slice_to_vec(data),
            offset_field_count: 0,
            offset_struct_name: 1,
            lazy_offset_fields_begin: None,
        }
    }

    /// Parses the struct name at its fixed offset and checks the two
    /// reserved bytes after it; on success the fields-region offset is
    /// cached. Calling this again re-reads the same bytes and returns the
    /// same result. Errors, in the order the buffer is read: too short for
    /// the name length, name truncated, name not UTF-8, reserved bytes
    /// missing, reserved byte not zero.
    pub fn struct_name(&mut self) -> (r: Result<String, DeserializeError>)
        requires
            old(self).wf(),
        ensures
            final(self).wf(),
            final(self).bytes() == old(self).bytes(),
            ({
                let b = old(self).bytes();
                &&& (name_byte_missing(b, 1) ==> r == Err::<String, _>(
                    DeserializeError::InvalidLength(1u8),
                ))
                &&& (name_truncated(b, 1) ==> r == Err::<String, _>(
                    DeserializeError::WrongNameLength(b[1]),
                ))
                &&& (name_at_ok(b, 1) && !valid_utf8(name_at(b, 1)) ==> (r matches Err(e)
                    && e matches DeserializeError::WrongName(m) && m@ == Seq::<char>::empty()))
                &&& (name_at_ok(b, 1) && valid_utf8(name_at(b, 1)) && name_end(b, 1) + 2 > b.len()
                    ==> r == Err::<String, _>(DeserializeError::InvalidLength(2u8)))
                &&& (name_at_ok(b, 1) && valid_utf8(name_at(b, 1)) && name_end(b, 1) + 2 <= b.len()
                    && b[name_end(b, 1)] != 0 ==> r == Err::<String, _>(
                    DeserializeError::UnexpectedByte(b[name_end(b, 1)]),
                ))
                &&& (name_at_ok(b, 1) && valid_utf8(name_at(b, 1)) && name_end(b, 1) + 2 <= b.len()
                    && b[name_end(b, 1)] == 0 && b[name_end(b, 1) + 1] != 0 ==> r == Err::<
                    String,
                    _,
                >(DeserializeError::UnexpectedByte(b[name_end(b, 1) + 1])))
                &&& (header_ok(b) ==> (r matches Ok(s) && s@ == decode_utf8(name_at(b, 1))
                    && final(self).fields_cached() == Some(fields_start(b))))
                &&& (r is Err ==> final(self).fields_cached() == old(self).fields_cached())
            }),
    {
        let mut offset = self.offset_struct_name;
        let name = match read_struct_name(self.data.as_slice(), &mut offset, None) {
            Ok(s) => s,
            Err(e) => {
                return Err(e);
            },
        };
        match ensure_separator(self.data.as_slice(), &mut offset) {
            Ok(()) => {},
            Err(e) => {
                return Err(e);
            },
        }
        self.lazy_offset_fields_begin = Some(offset);
        Ok(name)
    }

    /// Reads the field count from its fixed offset 0; header parsing is not
    /// needed, and an empty buffer counts as zero fields.
    pub fn field_count(&self) -> (r: u8)
        requires
            self.wf(),
        ensures
            r == spec_field_count(self.bytes()),
    {
        if self.data.len() == 0 {
            return 0;
        }
        let mut offset = self.offset_field_count;
        read_field_count(self.data.as_slice(), &mut offset)
    }

    /// Returns a cursor over the fields region, computing the region's
    /// offset first if no struct-name parse has cached it yet. On a buffer
    /// whose header cannot be parsed the offset stays unknown and a
    /// descriptive internal error is returned.
    pub fn fields<'b>(&'b mut self) -> (r: Result<FieldIterator<'b>, DeserializeError>)
        requires
            old(self).wf(),
        ensures
            final(self).wf(),
            final(self).bytes() == old(self).bytes(),
            ({
                let b = old(self).bytes();
                &&& (header_ok(b) ==> (r matches Ok(it) && it.bytes() == b.subrange(
                    fields_start(b),
                    b.len() as int,
                ) && it.cursor() == 0 && final(self).fields_cached() == Some(fields_start(b))))
                &&& (!header_ok(b) ==> (r matches Err(e) && e matches DeserializeError::UnknownError(
                    m,
                ) && m@ == "could not compute fields offset"@))
            }),
    {
        if self.lazy_offset_fields_begin.is_none() {
            let _ = self.struct_name();
        }
        if let Some(offset) = self.lazy_offset_fields_begin {
            let region = slice_subrange(self.data.as_slice(), offset, self.data.len());
            Ok(FieldIterator::new(region, 0))
        } else {
            Err(DeserializeError::UnknownError("could not compute fields offset".to_owned()))
        }
    }
}

} // verus!
