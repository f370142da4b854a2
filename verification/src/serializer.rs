//! The builder: accumulates one wire buffer, a field record at a time.
use crate::bigendian::be_encode;
use crate::bigendian::lemma_pow256_values;
use crate::wire::field_fits;
use crate::wire::fields_fit;
use crate::wire::lemma_records_take_succ;
use crate::wire::record_bytes;
use crate::wire::records_bytes;
use crate::wire::wire_bytes;
use crate::DeserializeError;
use crate::TSerializable;
use vstd::pervasive::VecAdditionalExecFns;
use vstd::prelude::*;
use vstd::string::StringSliceAdditionalSpecFns;
use vstd::utf8::encode_utf8_valid_utf8;
use vstd::utf8::valid_utf8;

verus! {

/// Builds a wire buffer: the header is written on construction, fields are
/// appended one at a time, and `done` patches the field count in and hands
/// the buffer over.
pub struct Serializer {
    data: Vec<u8>,
    field_count: u8,
    name_model: Ghost<Seq<u8>>,
    fields_model: Ghost<Seq<(Seq<u8>, Seq<u8>)>>,
}

impl Serializer {
    /// The UTF-8 bytes of the struct name this builder was given.
    pub closed spec fn spec_struct_name(&self) -> Seq<u8> {
        self.name_model@
    }

    /// The fields added so far: for each, its name's UTF-8 bytes and its
    /// value's encoding, in the order they were added.
    pub closed spec fn spec_fields(&self) -> Seq<(Seq<u8>, Seq<u8>)> {
        self.fields_model@
    }

    /// The builder's invariant: its buffer is exactly the wire form of the
    /// name and fields recorded so far, with the count byte still zero.
    pub closed spec fn wf(&self) -> bool {
        &&& self.name_model@.len() <= 255
        &&& valid_utf8(self.name_model@)
        &&& fields_fit(self.fields_model@)
        &&& self.fields_model@.len() == self.field_count
        &&& self.data@ == wire_bytes(0, self.name_model@, self.fields_model@)
    }

    /// Starts a buffer for a struct of the given name: count placeholder,
    /// name length, name bytes, two reserved zero bytes. A name of more than
    /// 255 bytes cannot be framed and is rejected.
    pub fn new(struct_name: &str) -> (r: Result<Self, DeserializeError>)
        ensures
            struct_name.spec_bytes().len() <= 255 ==> (r matches Ok(s) && s.wf()
                && s.spec_struct_name() == struct_name.spec_bytes() && s.spec_fields()
                == Seq::<(Seq<u8>, Seq<u8>)>::empty()),
            struct_name.spec_bytes().len() > 255 ==> r == Err::<Self, _>(
                DeserializeError::WrongNameLength(255u8),
            ),
    {
        let name_bytes = struct_name.as_bytes();
        if name_bytes.len() > 255 {
            return Err(DeserializeError::WrongNameLength(255));
        }
        let mut data: Vec<u8> = Vec::new();
        data.push(0);
        data.push(name_bytes.len() as u8);
        data.extend_from_slice(name_bytes);
        data.push(0);
        data.push(0);
        let s = Serializer {
            data,
            field_count: 0,
            name_model: Ghost(struct_name.spec_bytes()),
            fields_model: Ghost(Seq::empty()),
        };
        proof {
            encode_utf8_valid_utf8(struct_name@);
            assert(records_bytes(Seq::empty()) == Seq::<u8>::empty());
            assert(s.data@ =~= wire_bytes(0, struct_name.spec_bytes(), Seq::empty()));
        }
        Ok(s)
    }

    /// Appends one field record: name length, name bytes, the value's
    /// encoding behind its 8-byte length. A name of more than 255 bytes is
    /// rejected, and so is a 256th field; the builder is left untouched in
    /// either case.
    pub fn add_field<V: TSerializable>(&mut self, name: &str, value: V) -> (r: Result<
        (),
        DeserializeError,
    >)
        requires
            old(self).wf(),
            value.serial_ok(),
        ensures
            final(self).wf(),
            name.spec_bytes().len() > 255 ==> (r == Err::<(), _>(DeserializeError::WrongNameLength(
                255u8,
            )) && *final(self) == *old(self)),
            name.spec_bytes().len() <= 255 && old(self).spec_fields().len() == 255 ==> (r == Err::<
                (),
                _,
            >(DeserializeError::InvalidLength(255u8)) && *final(self) == *old(self)),
            name.spec_bytes().len() <= 255 && old(self).spec_fields().len() < 255 ==> (r
                == Ok::<(), DeserializeError>(())
                && final(self).spec_struct_name() == old(self).spec_struct_name()
                && final(self).spec_fields() == old(self).spec_fields().push(
                (name.spec_bytes(), value.spec_serial()),
            )),
    {
        let name_bytes = name.as_bytes();
        if name_bytes.len() > 255 {
            return Err(DeserializeError::WrongNameLength(255));
        }
        if self.field_count == 255 {
            return Err(DeserializeError::InvalidLength(255));
        }
        let field_data = value.serialize();
        self.data.push(name_bytes.len() as u8);
        self.data.extend_from_slice(name_bytes);
        let mut length_bytes = be_encode(field_data.len() as u128, 8);
        self.data.append(&mut length_bytes);
        let mut value_bytes = field_data;
        self.data.append(&mut value_bytes);
        self.field_count = self.field_count + 1;
        proof {
            let nb = name.spec_bytes();
            let vb = value.spec_serial();
            encode_utf8_valid_utf8(name@);
            lemma_pow256_values();
            let fs = old(self).spec_fields().push((nb, vb));
            self.fields_model@ = fs;
            assert(field_fits(nb, vb));
            lemma_records_take_succ(fs, fs.len() - 1);
            assert(fs.take(fs.len() as int) =~= fs);
            assert(fs.take(fs.len() - 1) =~= old(self).spec_fields());
            assert(records_bytes(fs) == records_bytes(old(self).spec_fields()) + record_bytes(
                nb,
                vb,
            ));
            assert(self.data@ =~= wire_bytes(0, self.name_model@, fs));
        }
        Ok(())
    }

    /// Patches the final field count into the first byte and returns the
    /// finished buffer; the builder is consumed.
    pub fn done(self) -> (r: Vec<u8>)
        requires
            self.wf(),
        ensures
            r@ == wire_bytes(
                self.spec_fields().len() as u8,
                self.spec_struct_name(),
                self.spec_fields(),
            ),
    {
        let mut data = self.data;
        data.set(0, self.field_count);
        proof {
            assert(data@ =~= wire_bytes(
                self.spec_fields().len() as u8,
                self.spec_struct_name(),
                self.spec_fields(),
            ));
        }
        data
    }
}

} // verus!
