//! The wire layout: how a struct's name, field count and field records are
//! framed into one byte buffer, and how that layout is read back.
//!
//! The functions here are the mathematical model that the builder and the
//! parser are verified against: `wire_bytes` is the buffer the builder
//! produces, and the `header_*` / `rec_*` functions describe what the parser
//! finds at each offset of an arbitrary buffer.
use crate::bigendian::be_enc;
use crate::bigendian::be_val;
use crate::bigendian::lemma_be_enc_len;
use crate::bigendian::lemma_be_val_enc;
use crate::bigendian::pow256;
use vstd::prelude::*;
use vstd::utf8::decode_utf8;
use vstd::utf8::encode_utf8;
use vstd::utf8::encode_utf8_decode_utf8;
use vstd::utf8::encode_utf8_valid_utf8;
use vstd::utf8::valid_utf8;

verus! {

/// Whether one field's name and value bytes can be framed: the name length
/// must fit its 1-byte prefix and be text, the value length its 8-byte
/// prefix.
pub open spec fn field_fits(name: Seq<u8>, value: Seq<u8>) -> bool {
    &&& name.len() <= 255
    &&& valid_utf8(name)
    &&& value.len() < pow256(8)
}

pub open spec fn fields_fit(fs: Seq<(Seq<u8>, Seq<u8>)>) -> bool {
    forall|i: int| 0 <= i < fs.len() ==> #[trigger] field_fits(fs[i].0, fs[i].1)
}

/// One field record: name length, name, 8-byte big-endian value length,
/// value.
pub open spec fn record_bytes(name: Seq<u8>, value: Seq<u8>) -> Seq<u8> {
    seq![name.len() as u8] + name + be_enc(value.len() as nat, 8) + value
}

/// The fields region: all records back to back, in order.
pub open spec fn records_bytes(fs: Seq<(Seq<u8>, Seq<u8>)>) -> Seq<u8>
    decreases fs.len(),
{
    if fs.len() == 0 {
        Seq::empty()
    } else {
        record_bytes(fs.first().0, fs.first().1) + records_bytes(fs.drop_first())
    }
}

/// The header: field count, struct-name length, struct name, two reserved
/// zero bytes.
pub open spec fn header_bytes(count: u8, name: Seq<u8>) -> Seq<u8> {
    seq![count, name.len() as u8] + name + seq![0u8, 0u8]
}

/// A whole wire buffer.
pub open spec fn wire_bytes(count: u8, name: Seq<u8>, fs: Seq<(Seq<u8>, Seq<u8>)>) -> Seq<u8> {
    header_bytes(count, name) + records_bytes(fs)
}

/// Whether a length-prefixed name starting at offset `o` of `b` lies within
/// the buffer.
pub open spec fn name_at_ok(b: Seq<u8>, o: int) -> bool {
    &&& 0 <= o
    &&& o + 1 <= b.len()
    &&& o + 1 + b[o] <= b.len()
}

/// The bytes of the length-prefixed name starting at offset `o`.
pub open spec fn name_at(b: Seq<u8>, o: int) -> Seq<u8> {
    b.subrange(o + 1, o + 1 + b[o])
}

/// The offset just past the length-prefixed name starting at offset `o`.
pub open spec fn name_end(b: Seq<u8>, o: int) -> int {
    o + 1 + b[o]
}

/// Whether the header of buffer `b` is well formed: the struct name lies
/// within the buffer, is text, and the two reserved bytes after it are zero.
pub open spec fn header_ok(b: Seq<u8>) -> bool {
    &&& name_at_ok(b, 1)
    &&& name_end(b, 1) + 2 <= b.len()
    &&& b[name_end(b, 1)] == 0
    &&& b[name_end(b, 1) + 1] == 0
    &&& valid_utf8(name_at(b, 1))
}

/// Where the fields region of buffer `b` begins.
pub open spec fn fields_start(b: Seq<u8>) -> int {
    name_end(b, 1) + 2
}

/// The field count that the fixed offset 0 of buffer `b` holds; an empty
/// buffer counts as zero fields.
pub open spec fn spec_field_count(b: Seq<u8>) -> u8 {
    if b.len() == 0 {
        0
    } else {
        b[0]
    }
}

/// The value length that the record starting at offset `o` declares.
pub open spec fn rec_len(b: Seq<u8>, o: int) -> nat {
    be_val(b.subrange(name_end(b, o), name_end(b, o) + 8))
}

/// Where the value bytes of the record starting at offset `o` begin.
pub open spec fn rec_value_start(b: Seq<u8>, o: int) -> int {
    name_end(b, o) + 8
}

/// Where the record starting at offset `o` ends.
pub open spec fn rec_value_end(b: Seq<u8>, o: int) -> int {
    rec_value_start(b, o) + rec_len(b, o)
}

/// Whether the record starting at offset `o` lies within the buffer: its
/// name, its 8-byte value length, and the value bytes it declares.
pub open spec fn rec_ok(b: Seq<u8>, o: int) -> bool {
    &&& name_at_ok(b, o)
    &&& name_end(b, o) + 8 <= b.len()
    &&& rec_value_end(b, o) <= b.len()
}

/// The name bytes of the record starting at offset `o`.
pub open spec fn rec_name(b: Seq<u8>, o: int) -> Seq<u8> {
    name_at(b, o)
}

/// The value bytes of the record starting at offset `o`.
pub open spec fn rec_value(b: Seq<u8>, o: int) -> Seq<u8> {
    b.subrange(rec_value_start(b, o), rec_value_end(b, o))
}

/// The buffer ends before the name-length byte at offset `o`.
pub open spec fn name_byte_missing(b: Seq<u8>, o: int) -> bool {
    o + 1 > b.len()
}

/// The name-length byte at offset `o` declares more bytes than remain.
pub open spec fn name_truncated(b: Seq<u8>, o: int) -> bool {
    o + 1 <= b.len() && o + 1 + b[o] > b.len()
}

/// The name at offset `o` fits, but the 8-byte value length after it does
/// not.
pub open spec fn rec_len_truncated(b: Seq<u8>, o: int) -> bool {
    name_at_ok(b, o) && name_end(b, o) + 8 > b.len()
}

/// The value length at offset `o` declares more value bytes than remain.
pub open spec fn rec_value_truncated(b: Seq<u8>, o: int) -> bool {
    name_at_ok(b, o) && name_end(b, o) + 8 <= b.len() && rec_value_end(b, o) > b.len()
}

/// The offset, within the fields region, at which the `k`-th record starts.
pub open spec fn rec_offset(fs: Seq<(Seq<u8>, Seq<u8>)>, k: int) -> int {
    records_bytes(fs.take(k)).len() as int
}

/// Framing one more field appends one record.
pub proof fn lemma_records_take_succ(fs: Seq<(Seq<u8>, Seq<u8>)>, k: int)
    requires
        0 <= k < fs.len(),
    ensures
        records_bytes(fs.take(k + 1)) == records_bytes(fs.take(k)) + record_bytes(
            fs[k].0,
            fs[k].1,
        ),
    decreases k,
{
    if k == 0 {
        let t = fs.take(1);
        assert(t.drop_first() =~= fs.take(0));
        assert(records_bytes(fs.take(0)) == Seq::<u8>::empty());
        assert(records_bytes(t) == record_bytes(fs[0].0, fs[0].1) + records_bytes(fs.take(0)));
        assert(records_bytes(fs.take(1)) =~= records_bytes(fs.take(0)) + record_bytes(
            fs[0].0,
            fs[0].1,
        ));
    } else {
        let d = fs.drop_first();
        lemma_records_take_succ(d, k - 1);
        assert(fs.take(k + 1).drop_first() =~= d.take(k));
        assert(fs.take(k).drop_first() =~= d.take(k - 1));
        assert(fs.take(k + 1).first() == fs[0]);
        assert(fs.take(k).first() == fs[0]);
        assert(d[k - 1] == fs[k]);
        assert(records_bytes(fs.take(k + 1)) == record_bytes(fs[0].0, fs[0].1) + records_bytes(
            d.take(k),
        ));
        assert(records_bytes(fs.take(k)) == record_bytes(fs[0].0, fs[0].1) + records_bytes(
            d.take(k - 1),
        ));
        assert(record_bytes(fs[0].0, fs[0].1) + (records_bytes(d.take(k - 1)) + record_bytes(
            fs[k].0,
            fs[k].1,
        )) =~= (record_bytes(fs[0].0, fs[0].1) + records_bytes(d.take(k - 1))) + record_bytes(
            fs[k].0,
            fs[k].1,
        ));
    }
}

/// A record that stands, byte for byte, at offset `o` of a buffer parses
/// back to the very name and value it frames.
pub proof fn lemma_rec_parse(b: Seq<u8>, o: int, name: Seq<u8>, value: Seq<u8>)
    requires
        0 <= o,
        field_fits(name, value),
        o + 1 + name.len() + 8 + value.len() <= b.len(),
        b.subrange(o, o + 1 + name.len() + 8 + value.len()) == record_bytes(name, value),
    ensures
        rec_ok(b, o),
        rec_name(b, o) == name,
        rec_len(b, o) == value.len(),
        rec_value(b, o) == value,
        rec_value_end(b, o) == o + 1 + name.len() + 8 + value.len(),
{
    broadcast use lemma_be_enc_len;

    let n = name.len() as int;
    let l = value.len() as int;
    let e = o + 1 + n + 8 + l;
    let r = record_bytes(name, value);
    assert(r.len() == 1 + n + 8 + l);
    assert(b[o] == b.subrange(o, e)[0]);
    assert(r[0] == name.len() as u8);
    assert(b[o] == name.len() as u8);
    assert forall|i: int| 0 <= i < n implies b[o + 1 + i] == name[i] by {
        assert(b[o + 1 + i] == b.subrange(o, e)[1 + i]);
        assert(r[1 + i] == name[i]);
    }
    assert(name_at(b, o) =~= name);
    assert(name_end(b, o) == o + 1 + n);
    let lenbytes = be_enc(value.len() as nat, 8);
    assert forall|i: int| 0 <= i < 8 implies b[o + 1 + n + i] == lenbytes[i] by {
        assert(b[o + 1 + n + i] == b.subrange(o, e)[1 + n + i]);
        assert(r[1 + n + i] == lenbytes[i]);
    }
    assert(b.subrange(name_end(b, o), name_end(b, o) + 8) =~= lenbytes);
    lemma_be_val_enc(value.len() as nat, 8);
    assert(rec_len(b, o) == value.len());
    assert forall|i: int| 0 <= i < l implies b[o + 1 + n + 8 + i] == value[i] by {
        assert(b[o + 1 + n + 8 + i] == b.subrange(o, e)[1 + n + 8 + i]);
        assert(r[1 + n + 8 + i] == value[i]);
    }
    assert(rec_value(b, o) =~= value);
}

/// The fields region past the `k`-th record frames the fields past `k`.
proof fn lemma_records_suffix(rb: Seq<u8>, fs: Seq<(Seq<u8>, Seq<u8>)>, k: int)
    requires
        rb == records_bytes(fs),
        fields_fit(fs),
        0 <= k <= fs.len(),
    ensures
        0 <= rec_offset(fs, k) <= rb.len(),
        rb.subrange(rec_offset(fs, k), rb.len() as int) == records_bytes(fs.skip(k)),
    decreases k,
{
    broadcast use lemma_be_enc_len;

    if k == 0 {
        assert(fs.take(0) =~= Seq::<(Seq<u8>, Seq<u8>)>::empty());
        assert(rec_offset(fs, 0) == 0);
        assert(fs.skip(0) =~= fs);
        assert(rb.subrange(0, rb.len() as int) =~= rb);
    } else {
        lemma_records_suffix(rb, fs, k - 1);
        lemma_records_take_succ(fs, k - 1);
        let o0 = rec_offset(fs, k - 1);
        let skip0 = fs.skip(k - 1);
        assert(skip0.first() == fs[k - 1]);
        assert(skip0.drop_first() =~= fs.skip(k));
        assert(records_bytes(skip0) == record_bytes(fs[k - 1].0, fs[k - 1].1) + records_bytes(
            fs.skip(k),
        ));
        let rl = record_bytes(fs[k - 1].0, fs[k - 1].1).len() as int;
        assert(rec_offset(fs, k) == o0 + rl);
        assert(rb.subrange(o0, rb.len() as int).len() == records_bytes(skip0).len());
        assert(rb.subrange(o0 + rl, rb.len() as int) =~= records_bytes(fs.skip(k))) by {
            assert forall|i: int| 0 <= i < rb.len() - o0 - rl implies rb[o0 + rl + i]
                == records_bytes(fs.skip(k))[i] by {
                assert(rb[o0 + rl + i] == rb.subrange(o0, rb.len() as int)[rl + i]);
                assert(records_bytes(skip0)[rl + i] == records_bytes(fs.skip(k))[i]);
            }
        }
    }
}

/// Reading the `k`-th record of a fields region yields the `k`-th field that
/// was framed, and leaves the cursor at the start of the next one; after the
/// last record the cursor stands exactly at the end of the region.
pub proof fn lemma_records_parse(rb: Seq<u8>, fs: Seq<(Seq<u8>, Seq<u8>)>, k: int)
    requires
        rb == records_bytes(fs),
        fields_fit(fs),
        0 <= k < fs.len(),
    ensures
        0 <= rec_offset(fs, k) < rb.len(),
        rec_ok(rb, rec_offset(fs, k)),
        rec_name(rb, rec_offset(fs, k)) == fs[k].0,
        rec_value(rb, rec_offset(fs, k)) == fs[k].1,
        rec_value_end(rb, rec_offset(fs, k)) == rec_offset(fs, k + 1),
        rec_offset(fs, k + 1) <= rb.len(),
        rec_offset(fs, fs.len() as int) == rb.len(),
{
    broadcast use lemma_be_enc_len;

    lemma_records_suffix(rb, fs, k);
    lemma_records_suffix(rb, fs, k + 1);
    lemma_records_take_succ(fs, k);
    let o = rec_offset(fs, k);
    let name = fs[k].0;
    let value = fs[k].1;
    let skipk = fs.skip(k);
    assert(skipk.first() == fs[k]);
    assert(skipk.drop_first() =~= fs.skip(k + 1));
    assert(records_bytes(skipk) == record_bytes(name, value) + records_bytes(fs.skip(k + 1)));
    let rl = record_bytes(name, value).len() as int;
    assert(rl == 1 + name.len() + 8 + value.len());
    assert(field_fits(name, value));
    assert(o + rl <= rb.len());
    assert(rb.subrange(o, o + rl) =~= record_bytes(name, value)) by {
        assert forall|i: int| 0 <= i < rl implies rb[o + i] == record_bytes(name, value)[i] by {
            assert(rb[o + i] == rb.subrange(o, rb.len() as int)[i]);
            assert(records_bytes(skipk)[i] == record_bytes(name, value)[i]);
        }
    }
    lemma_rec_parse(rb, o, name, value);
    assert(rec_offset(fs, k + 1) == o + rl);
    assert(fs.take(fs.len() as int) =~= fs);
}

/// Parsing recovers what the builder framed: the field count stands at
/// offset 0, the header is well formed and carries the struct name, and the
/// bytes past the header are exactly the framed fields region.
pub proof fn lemma_header_parse(count: u8, name: Seq<u8>, fs: Seq<(Seq<u8>, Seq<u8>)>)
    requires
        name.len() <= 255,
        valid_utf8(name),
        fields_fit(fs),
    ensures
        spec_field_count(wire_bytes(count, name, fs)) == count,
        header_ok(wire_bytes(count, name, fs)),
        name_at(wire_bytes(count, name, fs), 1) == name,
        fields_start(wire_bytes(count, name, fs)) == 4 + name.len(),
        wire_bytes(count, name, fs).subrange(
            fields_start(wire_bytes(count, name, fs)),
            wire_bytes(count, name, fs).len() as int,
        ) == records_bytes(fs),
{
    let b = wire_bytes(count, name, fs);
    let h = header_bytes(count, name);
    let n = name.len() as int;
    assert(h.len() == 4 + n);
    assert(b[0] == count);
    assert(b[1] == name.len() as u8);
    assert forall|i: int| 0 <= i < n implies b[2 + i] == name[i] by {
        assert(h[2 + i] == name[i]);
        assert(b[2 + i] == h[2 + i]);
    }
    assert(name_at(b, 1) =~= name);
    assert(name_end(b, 1) == 2 + n);
    assert(h[2 + n] == 0u8);
    assert(h[3 + n] == 0u8);
    assert(b[2 + n] == 0u8);
    assert(b[3 + n] == 0u8);
    assert(b.subrange(4 + n, b.len() as int) =~= records_bytes(fs));
}

/// Round trip: a wire buffer built from a struct name and a sequence of
/// framed fields parses back to the same field count, the same name, and a
/// fields region holding exactly those fields; `lemma_records_parse` then
/// gives each field back, in the order it was added.
pub proof fn lemma_wire_round_trip(count: u8, name: Seq<char>, fs: Seq<(Seq<u8>, Seq<u8>)>)
    requires
        encode_utf8(name).len() <= 255,
        fields_fit(fs),
        fs.len() == count,
    ensures
        ({
            let b = wire_bytes(count, encode_utf8(name), fs);
            &&& spec_field_count(b) == count
            &&& header_ok(b)
            &&& decode_utf8(name_at(b, 1)) == name
            &&& fields_start(b) == 4 + encode_utf8(name).len()
            &&& b.subrange(fields_start(b), b.len() as int) == records_bytes(fs)
        }),
{
    encode_utf8_valid_utf8(name);
    encode_utf8_decode_utf8(name);
    lemma_header_parse(count, encode_utf8(name), fs);
}

/// A struct with no fields carries field count zero and an empty fields
/// region: a cursor over it has nothing to read from its first step.
pub proof fn lemma_empty_struct(name: Seq<char>)
    requires
        encode_utf8(name).len() <= 255,
    ensures
        ({
            let b = wire_bytes(0, encode_utf8(name), Seq::empty());
            &&& spec_field_count(b) == 0
            &&& header_ok(b)
            &&& b.subrange(fields_start(b), b.len() as int) == Seq::<u8>::empty()
        }),
{
    lemma_wire_round_trip(0, name, Seq::empty());
}

/// Cutting a buffer anywhere inside its header leaves no well-formed header:
/// the truncation is detected, never read past.
pub proof fn lemma_header_truncation(b: Seq<u8>, t: int)
    requires
        header_ok(b),
        0 <= t < fields_start(b),
    ensures
        !header_ok(b.take(t)),
{
    let c = b.take(t);
    if t < 2 {
        assert(!name_at_ok(c, 1));
    } else {
        assert(c[1] == b[1]);
        assert(name_end(c, 1) == name_end(b, 1));
        assert(name_end(c, 1) + 2 > c.len());
    }
}

/// Cutting a buffer anywhere inside a record leaves no well-formed record at
/// that offset: a declared length never reaches past the truncated end.
pub proof fn lemma_record_truncation(b: Seq<u8>, o: int, t: int)
    requires
        rec_ok(b, o),
        0 <= o <= t < rec_value_end(b, o),
    ensures
        !rec_ok(b.take(t), o),
{
    let c = b.take(t);
    if o + 1 > t {
        assert(!name_at_ok(c, o));
    } else {
        assert(c[o] == b[o]);
        if name_end(b, o) > t {
            assert(!name_at_ok(c, o));
        } else if name_end(b, o) + 8 > t {
            assert(name_end(c, o) == name_end(b, o));
        } else {
            assert(name_end(c, o) == name_end(b, o));
            assert(c.subrange(name_end(c, o), name_end(c, o) + 8) =~= b.subrange(
                name_end(b, o),
                name_end(b, o) + 8,
            ));
            assert(rec_len(c, o) == rec_len(b, o));
            assert(rec_value_end(c, o) > c.len());
        }
    }
}

} // verus!
