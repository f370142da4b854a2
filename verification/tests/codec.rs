use structcodec::deserializer::fielditerator::FieldIterator;
use structcodec::deserializer::utils::ensure_separator;
use structcodec::deserializer::utils::read_field;
use structcodec::deserializer::utils::read_field_count;
use structcodec::deserializer::utils::read_struct_name;
use structcodec::deserializer::Deserializer;
use structcodec::serializer::Serializer;
use structcodec::DeserializeError;
use structcodec::TSerializable;

fn encode_point() -> Vec<u8> {
    let mut s = Serializer::new("Point").unwrap();
    s.add_field("x", 1.5f64.to_bits()).unwrap();
    s.add_field("y", 2.5f64.to_bits()).unwrap();
    s.done()
}

#[test]
fn point_scenario_exact_bytes() {
    let buf = encode_point();
    let mut expected: Vec<u8> = vec![0x02, 0x05, b'P', b'o', b'i', b'n', b't', 0x00, 0x00];
    expected.extend_from_slice(&[0x01, b'x', 0, 0, 0, 0, 0, 0, 0, 8]);
    expected.extend_from_slice(&1.5f64.to_be_bytes());
    expected.extend_from_slice(&[0x01, b'y', 0, 0, 0, 0, 0, 0, 0, 8]);
    expected.extend_from_slice(&2.5f64.to_be_bytes());
    assert_eq!(buf, expected);
}

#[test]
fn point_scenario_decodes() {
    let buf = encode_point();
    let mut d = Deserializer::new(&buf);
    assert_eq!(d.struct_name().unwrap(), "Point");
    assert_eq!(d.field_count(), 2);
    let mut it = d.fields().unwrap();
    assert!(it.has_next());
    let (name_x, bits_x): (String, u64) = it.next().unwrap();
    assert_eq!(name_x, "x");
    assert_eq!(f64::from_bits(bits_x), 1.5);
    assert!(it.has_next());
    let (name_y, bits_y): (String, u64) = it.next().unwrap();
    assert_eq!(name_y, "y");
    assert_eq!(f64::from_bits(bits_y), 2.5);
    assert!(!it.has_next());
}

#[test]
fn round_trip_every_leaf_type() {
    let mut s = Serializer::new("Leaves").unwrap();
    s.add_field("a", 0xABu8).unwrap();
    s.add_field("b", 0xA1B2u16).unwrap();
    s.add_field("c", 0xA1B2C3D4u32).unwrap();
    s.add_field("d", 0xA1B2C3D4E5F60718u64).unwrap();
    s.add_field("e", 0xA1B2C3D4E5F60718293A4B5C6D7E8F90u128).unwrap();
    s.add_field("f", -7i8).unwrap();
    s.add_field("g", -1234i16).unwrap();
    s.add_field("h", -123456789i32).unwrap();
    s.add_field("i", -1234567890123456789i64).unwrap();
    s.add_field("j", -123456789012345678901234567890i128).unwrap();
    s.add_field("k", true).unwrap();
    s.add_field("l", false).unwrap();
    s.add_field("m", 987654321usize).unwrap();
    s.add_field("n", String::from("hello, codec")).unwrap();
    let buf = s.done();

    let mut d = Deserializer::new(&buf);
    assert_eq!(d.struct_name().unwrap(), "Leaves");
    assert_eq!(d.field_count(), 14);
    let mut it = d.fields().unwrap();
    let (n, v): (String, u8) = it.next().unwrap();
    assert_eq!((n.as_str(), v), ("a", 0xABu8));
    let (n, v): (String, u16) = it.next().unwrap();
    assert_eq!((n.as_str(), v), ("b", 0xA1B2u16));
    let (n, v): (String, u32) = it.next().unwrap();
    assert_eq!((n.as_str(), v), ("c", 0xA1B2C3D4u32));
    let (n, v): (String, u64) = it.next().unwrap();
    assert_eq!((n.as_str(), v), ("d", 0xA1B2C3D4E5F60718u64));
    let (n, v): (String, u128) = it.next().unwrap();
    assert_eq!((n.as_str(), v), ("e", 0xA1B2C3D4E5F60718293A4B5C6D7E8F90u128));
    let (n, v): (String, i8) = it.next().unwrap();
    assert_eq!((n.as_str(), v), ("f", -7i8));
    let (n, v): (String, i16) = it.next().unwrap();
    assert_eq!((n.as_str(), v), ("g", -1234i16));
    let (n, v): (String, i32) = it.next().unwrap();
    assert_eq!((n.as_str(), v), ("h", -123456789i32));
    let (n, v): (String, i64) = it.next().unwrap();
    assert_eq!((n.as_str(), v), ("i", -1234567890123456789i64));
    let (n, v): (String, i128) = it.next().unwrap();
    assert_eq!((n.as_str(), v), ("j", -123456789012345678901234567890i128));
    let (n, v): (String, bool) = it.next().unwrap();
    assert_eq!((n.as_str(), v), ("k", true));
    let (n, v): (String, bool) = it.next().unwrap();
    assert_eq!((n.as_str(), v), ("l", false));
    let (n, v): (String, usize) = it.next().unwrap();
    assert_eq!((n.as_str(), v), ("m", 987654321usize));
    let (n, v): (String, String) = it.next().unwrap();
    assert_eq!((n.as_str(), v.as_str()), ("n", "hello, codec"));
    assert!(!it.has_next());
}

#[test]
fn field_order_is_preserved() {
    let mut s = Serializer::new("Ordered").unwrap();
    let mut i: u32 = 0;
    while i < 40 {
        s.add_field(&format!("f{}", i), i).unwrap();
        i += 1;
    }
    let buf = s.done();
    let mut d = Deserializer::new(&buf);
    let mut it = d.fields().unwrap();
    let mut k: u32 = 0;
    while it.has_next() {
        let (name, value): (String, u32) = it.next().unwrap();
        assert_eq!(name, format!("f{}", k));
        assert_eq!(value, k);
        k += 1;
    }
    assert_eq!(k, 40);
}

#[test]
fn round_trip_255_fields() {
    let mut s = Serializer::new("Big").unwrap();
    let mut i: u32 = 0;
    while i < 255 {
        s.add_field(&format!("f{}", i), i).unwrap();
        i += 1;
    }
    let buf = s.done();
    let mut d = Deserializer::new(&buf);
    assert_eq!(d.field_count(), 255);
    let mut it = d.fields().unwrap();
    let mut k: u32 = 0;
    while it.has_next() {
        let (name, value): (String, u32) = it.next().unwrap();
        assert_eq!(name, format!("f{}", k));
        assert_eq!(value, k);
        k += 1;
    }
    assert_eq!(k, 255);
}

#[test]
fn empty_struct() {
    let s = Serializer::new("Empty").unwrap();
    let buf = s.done();
    let mut d = Deserializer::new(&buf);
    assert_eq!(d.field_count(), 0);
    assert_eq!(d.struct_name().unwrap(), "Empty");
    let it = d.fields().unwrap();
    assert!(!it.has_next());
}

#[test]
fn name_mismatch_reports_actual_name() {
    let buf = encode_point();
    let mut offset: usize = 1;
    let r = read_struct_name(&buf, &mut offset, Some("Other"));
    assert!(matches!(r, Err(DeserializeError::WrongName(ref m)) if m == "Point"));
    assert_eq!(offset, 1);
    let ok = read_struct_name(&buf, &mut offset, Some("Point"));
    assert_eq!(ok.unwrap(), "Point");
    assert_eq!(offset, 7);
}

#[test]
fn field_count_bound_rejects_256th() {
    let mut s = Serializer::new("Full").unwrap();
    let mut i: u32 = 0;
    while i < 255 {
        s.add_field("f", i).unwrap();
        i += 1;
    }
    let r = s.add_field("overflow", 0u32);
    assert!(matches!(r, Err(DeserializeError::InvalidLength(255))));
    let buf = s.done();
    assert_eq!(buf[0], 255);
    let d = Deserializer::new(&buf);
    assert_eq!(d.field_count(), 255);
}

#[test]
fn long_struct_name_rejected() {
    let name = "n".repeat(256);
    let r = Serializer::new(&name);
    assert!(matches!(r, Err(DeserializeError::WrongNameLength(255))));
    let ok = Serializer::new(&"n".repeat(255));
    assert!(ok.is_ok());
}

#[test]
fn long_field_name_rejected() {
    let mut s = Serializer::new("S").unwrap();
    let r = s.add_field(&"n".repeat(256), 1u8);
    assert!(matches!(r, Err(DeserializeError::WrongNameLength(255))));
    s.add_field(&"n".repeat(255), 1u8).unwrap();
    let buf = s.done();
    let mut d = Deserializer::new(&buf);
    let mut it = d.fields().unwrap();
    let (n, v): (String, u8) = it.next().unwrap();
    assert_eq!(n.len(), 255);
    assert_eq!(v, 1);
}

#[test]
fn truncation_always_yields_typed_error() {
    let buf = encode_point();
    assert_eq!(buf.len(), 45);
    // record boundaries of the fields region: 9 (start), 27, 45 (end)
    let mut t: usize = 0;
    while t < buf.len() {
        let mut d = Deserializer::new(&buf[..t]);
        if t < 9 {
            assert!(d.struct_name().is_err());
            assert!(d.fields().is_err());
        } else {
            let mut it = d.fields().unwrap();
            let mut saw_err = false;
            let mut n_fields: usize = 0;
            while it.has_next() {
                match it.next::<u64>() {
                    Ok(_) => n_fields += 1,
                    Err(_) => {
                        saw_err = true;
                        break;
                    }
                }
            }
            if t == 9 {
                assert!(!saw_err && n_fields == 0);
            } else if t == 27 {
                assert!(!saw_err && n_fields == 1);
            } else {
                assert!(saw_err);
            }
        }
        t += 1;
    }
}

#[test]
fn separator_byte_must_be_zero() {
    // field count 0, name "A", first reserved byte is 7
    let buf: Vec<u8> = vec![0, 1, b'A', 7, 0];
    let mut d = Deserializer::new(&buf);
    assert!(matches!(d.struct_name(), Err(DeserializeError::UnexpectedByte(7))));
    // second reserved byte is 9
    let buf2: Vec<u8> = vec![0, 1, b'A', 0, 9];
    let mut d2 = Deserializer::new(&buf2);
    assert!(matches!(d2.struct_name(), Err(DeserializeError::UnexpectedByte(9))));
}

#[test]
fn separator_helper() {
    let data: Vec<u8> = vec![0, 0, 3];
    let mut off: usize = 0;
    assert!(ensure_separator(&data, &mut off).is_ok());
    assert_eq!(off, 2);
    let mut off2: usize = 1;
    assert!(matches!(ensure_separator(&data, &mut off2), Err(DeserializeError::UnexpectedByte(3))));
    assert_eq!(off2, 1);
    let mut off3: usize = 2;
    assert!(matches!(ensure_separator(&data, &mut off3), Err(DeserializeError::InvalidLength(2))));
}

#[test]
fn field_count_helper() {
    let data: Vec<u8> = vec![42, 1, 2];
    let mut off: usize = 0;
    assert_eq!(read_field_count(&data, &mut off), 42);
    assert_eq!(off, 1);
}

#[test]
fn struct_name_errors() {
    // empty buffer: nothing to read
    let mut d = Deserializer::new(&[]);
    assert!(matches!(d.struct_name(), Err(DeserializeError::InvalidLength(1))));
    assert_eq!(d.field_count(), 0);
    // name length claims more than remains
    let mut d2 = Deserializer::new(&[0, 5, b'A']);
    assert!(matches!(d2.struct_name(), Err(DeserializeError::WrongNameLength(5))));
    // name bytes are not UTF-8
    let mut d3 = Deserializer::new(&[0, 1, 0xFF, 0, 0]);
    assert!(matches!(d3.struct_name(), Err(DeserializeError::WrongName(ref m)) if m.is_empty()));
    // reserved bytes missing entirely
    let mut d4 = Deserializer::new(&[0, 1, b'A', 0]);
    assert!(matches!(d4.struct_name(), Err(DeserializeError::InvalidLength(2))));
    // fields() on an unparsable header gives the internal error
    let mut d5 = Deserializer::new(&[0, 5, b'A']);
    assert!(matches!(d5.fields(), Err(DeserializeError::UnknownError(_))));
}

#[test]
fn field_record_errors() {
    // value length claims more than remains
    let region: Vec<u8> = vec![1, b'x', 0, 0, 0, 0, 0, 0, 0, 9, 1, 2];
    let mut off: usize = 0;
    let r: Result<(String, u8), DeserializeError> = read_field(&region, &mut off);
    assert!(matches!(r, Err(DeserializeError::InvalidFieldDataConversion)));
    assert_eq!(off, 0);
    // 8-byte value length truncated
    let region2: Vec<u8> = vec![1, b'x', 0, 0];
    let mut off2: usize = 0;
    let r2: Result<(String, u8), DeserializeError> = read_field(&region2, &mut off2);
    assert!(matches!(r2, Err(DeserializeError::InvalidLength(8))));
    // field name is not UTF-8
    let region3: Vec<u8> = vec![1, 0xC0, 0, 0, 0, 0, 0, 0, 0, 1, 7];
    let mut off3: usize = 0;
    let r3: Result<(String, u8), DeserializeError> = read_field(&region3, &mut off3);
    assert!(matches!(r3, Err(DeserializeError::WrongName(ref m)) if m.is_empty()));
    // a well-formed record through the iterator built by hand
    let region4: Vec<u8> = vec![1, b'x', 0, 0, 0, 0, 0, 0, 0, 1, 7];
    let mut it = FieldIterator::new(&region4, 0);
    assert!(it.has_next());
    let (n, v): (String, u8) = it.next().unwrap();
    assert_eq!((n.as_str(), v), ("x", 7));
    assert!(!it.has_next());
}

#[test]
fn leaf_exact_encodings() {
    assert_eq!(TSerializable::serialize(&0x01u8), vec![1]);
    assert_eq!(TSerializable::serialize(&0x0102u16), vec![1, 2]);
    assert_eq!(TSerializable::serialize(&0x01020304u32), vec![1, 2, 3, 4]);
    assert_eq!(
        TSerializable::serialize(&0x0102030405060708u64),
        vec![1, 2, 3, 4, 5, 6, 7, 8]
    );
    assert_eq!(
        TSerializable::serialize(&0x0102030405060708090A0B0C0D0E0F10u128),
        vec![1, 2, 3, 4, 5, 6, 7, 8, 9, 10, 11, 12, 13, 14, 15, 16]
    );
    assert_eq!(TSerializable::serialize(&-1i8), vec![0xFF]);
    assert_eq!(TSerializable::serialize(&-2i16), vec![0xFF, 0xFE]);
    assert_eq!(TSerializable::serialize(&-1i32), vec![0xFF, 0xFF, 0xFF, 0xFF]);
    assert_eq!(
        TSerializable::serialize(&i64::MIN),
        vec![0x80, 0, 0, 0, 0, 0, 0, 0]
    );
    assert_eq!(
        TSerializable::serialize(&-1i128),
        vec![0xFF; 16]
    );
    assert_eq!(TSerializable::serialize(&true), vec![1]);
    assert_eq!(TSerializable::serialize(&false), vec![0]);
    assert_eq!(
        TSerializable::serialize(&5usize),
        vec![0, 0, 0, 0, 0, 0, 0, 5]
    );
    assert_eq!(
        TSerializable::serialize(&String::from("hi")),
        vec![0, 0, 0, 2, b'h', b'i']
    );
}

#[test]
fn leaf_exact_decodings() {
    assert_eq!(u8::deserialize(&[0xAB]).unwrap(), 0xABu8);
    assert_eq!(u16::deserialize(&[1, 2]).unwrap(), 0x0102u16);
    assert_eq!(u32::deserialize(&[1, 2, 3, 4]).unwrap(), 0x01020304u32);
    assert_eq!(
        u64::deserialize(&[1, 2, 3, 4, 5, 6, 7, 8]).unwrap(),
        0x0102030405060708u64
    );
    assert_eq!(i8::deserialize(&[0xFF]).unwrap(), -1i8);
    assert_eq!(i16::deserialize(&[0xFF, 0xFE]).unwrap(), -2i16);
    assert_eq!(i32::deserialize(&[0x80, 0, 0, 0]).unwrap(), i32::MIN);
    assert_eq!(i64::deserialize(&[0xFF; 8]).unwrap(), -1i64);
    assert_eq!(i128::deserialize(&[0xFF; 16]).unwrap(), -1i128);
    assert_eq!(bool::deserialize(&[0]).unwrap(), false);
    assert_eq!(bool::deserialize(&[1]).unwrap(), true);
    // any nonzero byte decodes as true
    assert_eq!(bool::deserialize(&[2]).unwrap(), true);
    assert_eq!(usize::deserialize(&[0, 0, 0, 0, 0, 0, 0, 5]).unwrap(), 5usize);
    assert_eq!(
        String::deserialize(&[0, 0, 0, 2, b'h', b'i']).unwrap(),
        "hi"
    );
}

#[test]
fn leaf_insufficient_bytes_fail() {
    assert!(matches!(u8::deserialize(&[]), Err(DeserializeError::InvalidLength(1))));
    assert!(matches!(u16::deserialize(&[1]), Err(DeserializeError::InvalidLength(2))));
    assert!(matches!(u32::deserialize(&[1, 2]), Err(DeserializeError::InvalidLength(4))));
    assert!(matches!(u64::deserialize(&[1; 7]), Err(DeserializeError::InvalidLength(8))));
    assert!(matches!(u128::deserialize(&[1; 15]), Err(DeserializeError::InvalidLength(16))));
    assert!(matches!(i8::deserialize(&[]), Err(DeserializeError::InvalidLength(1))));
    assert!(matches!(i16::deserialize(&[1]), Err(DeserializeError::InvalidLength(2))));
    assert!(matches!(i32::deserialize(&[1, 2, 3]), Err(DeserializeError::InvalidLength(4))));
    assert!(matches!(i64::deserialize(&[1; 7]), Err(DeserializeError::InvalidLength(8))));
    assert!(matches!(i128::deserialize(&[1; 15]), Err(DeserializeError::InvalidLength(16))));
    assert!(matches!(bool::deserialize(&[]), Err(DeserializeError::InvalidLength(1))));
    assert!(matches!(usize::deserialize(&[1; 7]), Err(DeserializeError::InvalidLength(8))));
    assert!(matches!(String::deserialize(&[0, 0, 0]), Err(DeserializeError::InvalidLength(4))));
    // a string body shorter than its declared length
    assert!(matches!(
        String::deserialize(&[0, 0, 0, 3, b'h', b'i']),
        Err(DeserializeError::InvalidFieldDataConversion)
    ));
    // a string body that is not UTF-8
    assert!(matches!(
        String::deserialize(&[0, 0, 0, 1, 0xFF]),
        Err(DeserializeError::UnknownError(_))
    ));
}

#[test]
fn multibyte_utf8_names_round_trip() {
    let mut s = Serializer::new("Päivä").unwrap();
    s.add_field("müü", 9u8).unwrap();
    let buf = s.done();
    let mut d = Deserializer::new(&buf);
    assert_eq!(d.struct_name().unwrap(), "Päivä");
    let mut it = d.fields().unwrap();
    let (n, v): (String, u8) = it.next().unwrap();
    assert_eq!((n.as_str(), v), ("müü", 9));
}

#[test]
fn struct_name_is_idempotent_and_fields_first_works() {
    let buf = encode_point();
    let mut d = Deserializer::new(&buf);
    // fields() without a prior struct_name() call computes the offset itself
    {
        let mut it = d.fields().unwrap();
        assert!(it.has_next());
        let (n, _): (String, u64) = it.next().unwrap();
        assert_eq!(n, "x");
    }
    assert_eq!(d.struct_name().unwrap(), "Point");
    assert_eq!(d.struct_name().unwrap(), "Point");
}
