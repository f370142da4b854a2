//! The field cursor: a sequential reader over the fields region of a wire
//! buffer.
use super::utils::read_field;
use crate::wire::name_byte_missing;
use crate::wire::name_truncated;
use crate::wire::rec_len_truncated;
use crate::wire::rec_name;
use crate::wire::rec_ok;
use crate::wire::rec_value;
use crate::wire::rec_value_end;
use crate::wire::rec_value_truncated;
use crate::DeserializeError;
use crate::TSerializable;
use vstd::prelude::*;
use vstd::utf8::decode_utf8;
use vstd::utf8::valid_utf8;

verus! {

/// A non-owning view of a fields region plus the offset of the next record;
/// it is valid only while the buffer it borrows lives.
pub struct FieldIterator<'a> {
    data: &'a [u8],
    offset: usize,
}

impl<'a> FieldIterator<'a> {
    /// The bytes of the fields region this cursor walks.
    pub closed spec fn bytes(&self) -> Seq<u8> {
        self.data@
    }

    /// The offset, within the fields region, of the next record to read.
    pub closed spec fn cursor(&self) -> int {
        self.offset as int
    }

    pub fn new(data: &'a [u8], offset: usize) -> (r: Self)
        ensures
            r.bytes() == data@,
            r.cursor() == offset,
    {
        FieldIterator { data, offset }
    }

    /// Decodes exactly one field record at the cursor, advancing it past the
    /// record; on any error the cursor is left where it stood. The clauses
    /// mirror `read_field`: each way a record can be truncated or malformed
    /// yields its typed error, and a record that frames a value's own
    /// encoding is owed success.
    pub fn next<T: TSerializable>(&mut self) -> (r: Result<(String, T), DeserializeError>)
        ensures
            final(self).bytes() == old(self).bytes(),
            ({
                let b = old(self).bytes();
                let o = old(self).cursor();
                &&& (name_byte_missing(b, o) ==> r == Err::<(String, T), _>(
                    DeserializeError::InvalidLength(1u8),
                ))
                &&& (name_truncated(b, o) ==> r == Err::<(String, T), _>(
                    DeserializeError::WrongNameLength(b[o]),
                ))
                &&& (rec_len_truncated(b, o) ==> r == Err::<(String, T), _>(
                    DeserializeError::InvalidLength(8u8),
                ))
                &&& (rec_value_truncated(b, o) ==> r == Err::<(String, T), _>(
                    DeserializeError::InvalidFieldDataConversion,
                ))
                &&& (rec_ok(b, o) && !valid_utf8(rec_name(b, o)) ==> (r matches Err(e) && e matches
                    DeserializeError::WrongName(m) && m@ == Seq::<char>::empty()))
                &&& (r matches Ok(p) ==> rec_ok(b, o) && valid_utf8(rec_name(b, o)) && p.0@
                    == decode_utf8(rec_name(b, o)) && final(self).cursor() == rec_value_end(b, o))
                &&& (forall|v: T|
                    rec_ok(b, o) && valid_utf8(rec_name(b, o)) && v.serial_ok() && rec_value(b, o)
                        == #[trigger] v.spec_serial() ==> (r matches Ok(p) && p.1.deep_view()
                        == v.deep_view()))
                &&& (r is Err ==> final(self).cursor() == old(self).cursor())
            }),
    {
        read_field(self.data, &mut self.offset)
    }

    /// True while the cursor has not reached the end of the region; callers
    /// use it to bound iteration.
    pub fn has_next(&self) -> (r: bool)
        ensures
            r == (self.cursor() < self.bytes().len()),
    {
        self.offset < self.data.len()
    }
}

} // verus!
