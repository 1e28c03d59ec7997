use paragon_proto::{
    dataframe_deserialize, dataframe_serialize, package_deserialize,
    package_encrypted_deserialize, package_encrypted_serialize, package_serialize,
    ppsp_deserialize, ppsp_serialize, proto_parse_header, validate_dataframe_packages,
    EncryptionType, FieldType, Header, ParagonDataFrame, ParagonPackage, ParagonPackageEncrypted,
    ParagonPreStructuredPackage, ParseError, PreStructuredField, MAGIC, PPSP_MIME_TYPE,
};

fn hv<const N: usize>(b: &[u8]) -> heapless::Vec<u8, N> {
    heapless::Vec::from_slice(b).unwrap()
}

fn blank_package() -> ParagonPackage {
    ParagonPackage {
        version: [0; 4],
        mime_type: heapless::Vec::new(),
        raw_data: heapless::Vec::new(),
        sign: heapless::Vec::new(),
    }
}

fn blank_frame() -> ParagonDataFrame {
    ParagonDataFrame {
        packages: heapless::Vec::new(),
        class: heapless::Vec::new(),
        destination: heapless::Vec::new(),
        enc: EncryptionType::NoEncryption,
    }
}

fn field(name: &[u8], desc: &[u8], t: FieldType, value: &[u8]) -> PreStructuredField {
    PreStructuredField {
        name: hv(name),
        description: hv(desc),
        field_type: t,
        value: hv(value),
    }
}

fn ppsp_package(fields: &[PreStructuredField]) -> ParagonPackageEncrypted {
    let mut ppsp = ParagonPreStructuredPackage { fields: heapless::Vec::new() };
    for f in fields {
        ppsp.fields.push(f.clone()).unwrap();
    }
    let mut buf = [0u8; 1024];
    let n = ppsp_serialize(&ppsp, &mut buf).unwrap();
    ParagonPackageEncrypted {
        version: [1, 0, 0, 0],
        mime_type: hv(&PPSP_MIME_TYPE),
        encrypted_data: hv(&buf[..n]),
        sign: heapless::Vec::new(),
    }
}

#[test]
fn header_errors_in_order() {
    let mut header = Header { magic: 7, version: 7, flags: 7, payload_len: 7 };
    assert_eq!(proto_parse_header(&[0x41, 0x4E, 0x41], &mut header), ParseError::TooShort as u8);
    let mut buf = [0u8; 12];
    buf[0..4].copy_from_slice(&MAGIC.to_le_bytes());
    buf[4..6].copy_from_slice(&2u16.to_le_bytes());
    assert_eq!(proto_parse_header(&buf, &mut header), ParseError::BadVersion as u8);
    assert_eq!(header.magic, 7);
    assert_eq!(header.payload_len, 7);
    buf[4] = 1;
    buf[6] = 0x34;
    buf[7] = 0x12;
    buf[8..12].copy_from_slice(&0xDEADBEEFu32.to_le_bytes());
    assert_eq!(proto_parse_header(&buf, &mut header), 0);
    assert_eq!(header.flags, 0x1234);
    assert_eq!(header.payload_len, 0xDEADBEEF);
    assert_eq!(header.magic, 0x47414E41);
}

#[test]
fn package_bytes_are_laid_out_exactly() {
    let pkg = ParagonPackage {
        version: [1, 2, 3, 4],
        mime_type: hv(b"ab"),
        raw_data: hv(b"xyz"),
        sign: hv(b"s"),
    };
    let mut buffer = [0xEEu8; 20];
    let mut out_len = 99;
    assert_eq!(package_serialize(&pkg, &mut buffer, &mut out_len), 0);
    assert_eq!(out_len, 4 + 1 + 2 + 2 + 3 + 1 + 1);
    assert_eq!(&buffer[..out_len], &[1, 2, 3, 4, 2, b'a', b'b', 3, 0, b'x', b'y', b'z', 1, b's']);
    assert_eq!(&buffer[out_len..], &[0xEE; 6]);
}

#[test]
fn package_too_big_for_buffer_is_refused_untouched() {
    let pkg = ParagonPackage {
        version: [1, 0, 0, 0],
        mime_type: hv(b"text/plain"),
        raw_data: hv(b"data"),
        sign: heapless::Vec::new(),
    };
    let mut buffer = [7u8; 10];
    let mut out_len = 5;
    assert_eq!(package_serialize(&pkg, &mut buffer, &mut out_len), 1);
    assert_eq!(buffer, [7u8; 10]);
    assert_eq!(out_len, 5);

    let epkg = ParagonPackageEncrypted {
        version: [1, 0, 0, 0],
        mime_type: hv(b"text/plain"),
        encrypted_data: hv(b"data"),
        sign: heapless::Vec::new(),
    };
    assert_eq!(package_encrypted_serialize(&epkg, &mut buffer), Err(1));
    assert_eq!(buffer, [7u8; 10]);
    let mut big = [0u8; 22];
    assert_eq!(package_encrypted_serialize(&epkg, &mut big), Ok(22));
}

#[test]
fn package_read_keeps_what_it_got_before_failing() {
    // version, then a MIME type announced as 70 bytes (more than the 64 a package holds)
    let mut buf = vec![9, 8, 7, 6, 70];
    buf.extend(std::iter::repeat(b'm').take(70));
    let mut pkg = blank_package();
    pkg.raw_data = hv(b"old data");
    assert_eq!(package_deserialize(&buf, &mut pkg), 1);
    assert_eq!(pkg.version, [9, 8, 7, 6]);
    assert_eq!(pkg.mime_type.len(), 64);
    assert_eq!(&pkg.raw_data[..], b"old data");

    // too short for a version: nothing changes
    let mut pkg2 = blank_package();
    pkg2.version = [5, 5, 5, 5];
    assert_eq!(package_deserialize(&[1, 2, 3], &mut pkg2), 1);
    assert_eq!(pkg2.version, [5, 5, 5, 5]);

    // MIME type announced longer than the buffer: MIME type left as it was
    let mut pkg3 = blank_package();
    pkg3.mime_type = hv(b"keep");
    assert_eq!(package_deserialize(&[1, 1, 1, 1, 10, b'a'], &mut pkg3), 1);
    assert_eq!(&pkg3.mime_type[..], b"keep");
}

#[test]
fn encrypted_package_reports_bytes_taken_and_ignores_trailing() {
    let bytes = [1, 0, 0, 0, 1, b'a', 2, 0, b'h', b'i', 0, 0xFF, 0xFF];
    let mut pkg = ParagonPackageEncrypted {
        version: [0; 4],
        mime_type: heapless::Vec::new(),
        encrypted_data: heapless::Vec::new(),
        sign: heapless::Vec::new(),
    };
    assert_eq!(package_encrypted_deserialize(&bytes, &mut pkg), Ok(11));
    assert_eq!(&pkg.mime_type[..], b"a");
    assert_eq!(&pkg.encrypted_data[..], b"hi");
    assert!(pkg.sign.is_empty());
    assert_eq!(package_encrypted_deserialize(&bytes[..10], &mut pkg), Err(1));
}

#[test]
fn ppsp_bytes_are_laid_out_exactly() {
    let mut ppsp = ParagonPreStructuredPackage { fields: heapless::Vec::new() };
    ppsp.fields.push(field(b"n", b"d", FieldType::Bool, b"v")).unwrap();
    let mut buf = [0u8; 16];
    assert_eq!(ppsp_serialize(&ppsp, &mut buf), Ok(9));
    assert_eq!(&buf[..9], &[1, 4, 1, b'n', 1, b'd', 1, 0, b'v']);
    assert_eq!(&buf[9..], &[0u8; 7]);
}

#[test]
fn ppsp_write_stops_at_the_first_field_that_does_not_fit() {
    let mut ppsp = ParagonPreStructuredPackage { fields: heapless::Vec::new() };
    ppsp.fields.push(field(b"a", b"", FieldType::Int, b"1")).unwrap();
    ppsp.fields.push(field(b"b", b"", FieldType::Int, b"2")).unwrap();
    let mut buf = [0xAAu8; 12];
    assert_eq!(ppsp_serialize(&ppsp, &mut buf), Err(1));
    assert_eq!(&buf[..9], &[2, 2, 1, b'a', 0, 1, 0, b'1', 0xAA][..9]);
    assert_eq!(&buf[8..], &[0xAA; 4]);
    let mut empty: [u8; 0] = [];
    assert_eq!(ppsp_serialize(&ppsp, &mut empty), Err(1));
}

#[test]
fn ppsp_read_rejects_bad_input() {
    let mut ppsp = ParagonPreStructuredPackage { fields: heapless::Vec::new() };
    // unknown field type 9
    assert_eq!(ppsp_deserialize(&[1, 9, 0, 0, 0, 0], &mut ppsp), Err(1));
    assert!(ppsp.fields.is_empty());
    // empty buffer leaves the old fields
    ppsp.fields.push(field(b"x", b"", FieldType::Bytes, b"")).unwrap();
    assert_eq!(ppsp_deserialize(&[], &mut ppsp), Err(1));
    assert_eq!(ppsp.fields.len(), 1);
    // 17 announced fields: the first 16 are kept, then it fails
    let mut buf = vec![17u8];
    for _ in 0..17 {
        buf.extend_from_slice(&[3, 0, 0, 0, 0]);
    }
    assert_eq!(ppsp_deserialize(&buf, &mut ppsp), Err(1));
    assert_eq!(ppsp.fields.len(), 16);
    assert_eq!(ppsp.fields[15].field_type, FieldType::Float);
    // exactly 16 are fine
    buf[0] = 16;
    assert_eq!(ppsp_deserialize(&buf, &mut ppsp), Ok(()));
    assert_eq!(ppsp.fields.len(), 16);
}

#[test]
fn package_rule_errors() {
    let a = ppsp_package(&[field(b"age", b"user age", FieldType::Int, b"1")]);
    let other_type = ppsp_package(&[field(b"age", b"user age", FieldType::String, b"1")]);
    let broken = ParagonPackageEncrypted {
        version: [1, 0, 0, 0],
        mime_type: hv(&PPSP_MIME_TYPE),
        encrypted_data: hv(&[1, 77]),
        sign: heapless::Vec::new(),
    };
    let mut df = blank_frame();
    df.destination = hv(b"a.b");
    assert_eq!(validate_dataframe_packages(&df), Ok(()));
    df.packages.push(a.clone()).unwrap();
    df.packages.push(other_type).unwrap();
    assert_eq!(validate_dataframe_packages(&df), Err(ParseError::StructuralMismatch as u8));

    let mut df2 = blank_frame();
    df2.packages.push(a.clone()).unwrap();
    df2.packages.push(broken.clone()).unwrap();
    assert_eq!(validate_dataframe_packages(&df2), Err(ParseError::InvalidPpsp as u8));

    let mut df3 = blank_frame();
    df3.packages.push(broken).unwrap();
    assert_eq!(validate_dataframe_packages(&df3), Err(ParseError::InvalidPpsp as u8));

    let mut plain = a.clone();
    plain.mime_type = hv(b"text/plain");
    let mut df4 = blank_frame();
    df4.packages.push(plain.clone()).unwrap();
    df4.packages.push(plain).unwrap();
    assert_eq!(validate_dataframe_packages(&df4), Ok(()));
}

#[test]
fn frame_write_checks_before_writing() {
    let mut buf = [3u8; 64];
    let mut out_len = 11;
    let mut df = blank_frame();
    df.class = hv(b"C");
    df.destination = hv(b"service..node");
    assert_eq!(dataframe_serialize(&df, &mut buf, &mut out_len), ParseError::InvalidDestination as u8);
    assert_eq!(buf, [3u8; 64]);
    assert_eq!(out_len, 11);

    df.destination = hv(b"service.node");
    let p = ppsp_package(&[field(b"k", b"", FieldType::Int, b"1")]);
    let mut q = p.clone();
    q.mime_type = hv(b"text/plain");
    df.packages.push(p).unwrap();
    df.packages.push(q).unwrap();
    assert_eq!(dataframe_serialize(&df, &mut buf, &mut out_len), ParseError::InvalidPackageMix as u8);
    assert_eq!(buf, [3u8; 64]);

    let mut empty: [u8; 0] = [];
    let df_ok = {
        let mut d = blank_frame();
        d.destination = hv(b"a.b");
        d
    };
    assert_eq!(dataframe_serialize(&df_ok, &mut empty, &mut out_len), 1);
}

#[test]
fn frame_bytes_are_laid_out_exactly() {
    let mut df = blank_frame();
    df.class = hv(b"K");
    df.destination = hv(b"a.b");
    df.enc = EncryptionType::X25519Aes256Gcm;
    df.packages
        .push(ParagonPackageEncrypted {
            version: [1, 0, 0, 0],
            mime_type: hv(b"t"),
            encrypted_data: hv(b"d"),
            sign: heapless::Vec::new(),
        })
        .unwrap();
    let mut buf = [0u8; 64];
    let mut out_len = 0;
    assert_eq!(dataframe_serialize(&df, &mut buf, &mut out_len), 0);
    let expected: &[u8] = &[
        1, 10, 0, 1, 0, 0, 0, 1, b't', 1, 0, b'd', 0, 2, 1, b'K', 3, b'a', b'.', b'b',
    ];
    assert_eq!(&buf[..out_len], expected);

    let mut back = blank_frame();
    assert_eq!(dataframe_deserialize(&buf[..out_len], &mut back), 0);
    assert!(matches!(back.enc, EncryptionType::X25519Aes256Gcm));
    assert_eq!(back.packages.len(), 1);
    assert_eq!(&back.packages[0].encrypted_data[..], b"d");
    assert_eq!(&back.class[..], b"K");

    // a buffer too short for the tail keeps the count and the package
    let mut short = [0xCCu8; 16];
    assert_eq!(dataframe_serialize(&df, &mut short, &mut out_len), 1);
    assert_eq!(&short[..13], &expected[..13]);
    assert_eq!(&short[13..], &[0xCC; 3]);
}

#[test]
fn oversized_package_cannot_be_framed() {
    let mut df = blank_frame();
    df.destination = hv(b"a.b");
    let big = vec![0u8; 4096];
    df.packages
        .push(ParagonPackageEncrypted {
            version: [1, 0, 0, 0],
            mime_type: hv(b"x"),
            encrypted_data: hv(&big),
            sign: heapless::Vec::new(),
        })
        .unwrap();
    let mut buf = vec![0u8; 8192];
    let mut out_len = 0;
    assert_eq!(dataframe_serialize(&df, &mut buf, &mut out_len), 1);
    assert_eq!(buf[0], 1);
    assert!(buf[1..].iter().all(|b| *b == 0));
}

#[test]
fn frame_read_errors() {
    let mut df = blank_frame();
    df.class = hv(b"old");
    assert_eq!(dataframe_deserialize(&[], &mut df), 1);
    assert_eq!(&df.class[..], b"old");
    // no packages, bad encryption byte
    assert_eq!(dataframe_deserialize(&[0, 9, 0, 0], &mut df), 1);
    assert!(matches!(df.enc, EncryptionType::NoEncryption));
    // no packages, valid tail but destination without a dot
    assert_eq!(dataframe_deserialize(&[0, 1, 1, b'C', 2, b'a', b'b'], &mut df), ParseError::InvalidDestination as u8);
    assert_eq!(&df.class[..], b"C");
    assert_eq!(&df.destination[..], b"ab");
    assert!(matches!(df.enc, EncryptionType::X25519ChaCha20Poly1305));
    // one announced package that is not there
    assert_eq!(dataframe_deserialize(&[1, 5, 0], &mut df), 1);
    assert!(df.packages.is_empty());
}

#[test]
fn frame_read_applies_the_package_rule() {
    let p = ppsp_package(&[field(b"k", b"", FieldType::Int, b"1")]);
    let mut q = p.clone();
    q.mime_type = hv(b"text/plain");
    // write the two packages by hand around a valid tail
    let mut bytes = vec![2u8];
    for pkg in [&p, &q] {
        let mut b = [0u8; 256];
        let n = package_encrypted_serialize(pkg, &mut b).unwrap();
        bytes.extend_from_slice(&(n as u16).to_le_bytes());
        bytes.extend_from_slice(&b[..n]);
    }
    bytes.extend_from_slice(&[0, 0, 3, b'a', b'.', b'b']);
    let mut df = blank_frame();
    assert_eq!(dataframe_deserialize(&bytes, &mut df), ParseError::InvalidPackageMix as u8);
    assert_eq!(df.packages.len(), 2);
    assert_eq!(&df.destination[..], b"a.b");
}

#[test]
fn clones_are_equal() {
    let p = ppsp_package(&[field(b"k", b"d", FieldType::Bytes, b"v")]);
    let c = p.clone();
    assert_eq!(c.version, p.version);
    assert_eq!(c.mime_type, p.mime_type);
    assert_eq!(c.encrypted_data, p.encrypted_data);
    let mut df = blank_frame();
    df.packages.push(p).unwrap();
    df.class = hv(b"x");
    let d = df.clone();
    assert_eq!(d.packages.len(), 1);
    assert_eq!(d.class, df.class);
    let pkg = ParagonPackage { version: [1, 2, 3, 4], mime_type: hv(b"m"), raw_data: hv(b"r"), sign: hv(b"s") };
    let pc = pkg.clone();
    assert_eq!(pc.raw_data, pkg.raw_data);
}

#[test]
fn every_strict_prefix_of_a_frame_is_refused() {
    let mut df = blank_frame();
    df.class = hv(b"Cls");
    df.destination = hv(b"node.service");
    df.enc = EncryptionType::X25519ChaCha20Poly1305;
    df.packages.push(ppsp_package(&[field(b"age", b"user age", FieldType::Int, b"30")])).unwrap();
    df.packages.push(ppsp_package(&[field(b"age", b"user age", FieldType::Int, b"25")])).unwrap();
    let mut buf = [0u8; 512];
    let mut out_len = 0;
    assert_eq!(dataframe_serialize(&df, &mut buf, &mut out_len), 0);
    for k in 0..out_len {
        let mut back = blank_frame();
        assert_eq!(dataframe_deserialize(&buf[..k], &mut back), 1, "prefix of {} bytes", k);
    }
    let mut back = blank_frame();
    assert_eq!(dataframe_deserialize(&buf[..out_len], &mut back), 0);
}
