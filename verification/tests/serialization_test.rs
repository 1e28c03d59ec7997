use paragon_proto::{
    dataframe_deserialize, dataframe_serialize, package_deserialize,
    package_encrypted_deserialize, package_encrypted_serialize, package_serialize,
    ppsp_deserialize, ppsp_serialize, proto_parse_header, validate_dataframe_packages,
    EncryptionType, FieldType, Header, ParagonDataFrame, ParagonPackage, ParagonPackageEncrypted,
    ParagonPreStructuredPackage, ParseError, PreStructuredField, HEADER_SIZE, MAGIC,
    PPSP_MIME_TYPE, VERSION,
};

#[test]
fn test_proto_parse_header() {
    let mut buf = [0u8; HEADER_SIZE];
    buf[0..4].copy_from_slice(&MAGIC.to_le_bytes());
    buf[4..6].copy_from_slice(&VERSION.to_le_bytes());
    buf[6..8].copy_from_slice(&0u16.to_le_bytes());
    buf[8..12].copy_from_slice(&100u32.to_le_bytes());

    let mut header = Header {
        magic: 0,
        version: 0,
        flags: 0,
        payload_len: 0,
    };

    let res = proto_parse_header(&buf, &mut header);
    assert_eq!(res, ParseError::Success as u8);
    assert_eq!(header.magic, MAGIC);
    assert_eq!(header.version, VERSION);
    assert_eq!(header.payload_len, 100);

    // Test bad magic
    buf[0] = 0;
    let res = proto_parse_header(&buf, &mut header);
    assert_eq!(res, ParseError::BadMagic as u8);
}

#[test]
fn test_package_serialization() {
    let pkg = ParagonPackage {
        version: [1, 0, 0, 0],
        mime_type: heapless::Vec::from_slice(b"application/json").unwrap(),
        raw_data: heapless::Vec::from_slice(b"test data").unwrap(),
        sign: heapless::Vec::from_slice(b"signature").unwrap(),
    };

    let mut buffer = [0u8; 512];
    let mut out_len = 0;

    let res = package_serialize(&pkg, &mut buffer, &mut out_len);
    assert_eq!(res, 0);
    assert!(out_len > 0);

    let mut deserialized_pkg = ParagonPackage {
        version: [0; 4],
        mime_type: heapless::Vec::new(),
        raw_data: heapless::Vec::new(),
        sign: heapless::Vec::new(),
    };

    let des_res = package_deserialize(&buffer[..out_len], &mut deserialized_pkg);
    assert_eq!(des_res, 0);
    assert_eq!(deserialized_pkg.version, pkg.version);
    assert_eq!(deserialized_pkg.mime_type, pkg.mime_type);
    assert_eq!(deserialized_pkg.raw_data, pkg.raw_data);
    assert_eq!(deserialized_pkg.sign, pkg.sign);
}

#[test]
fn test_dataframe_serialization() {
    let df = ParagonDataFrame {
        packages: heapless::Vec::new(),
        class: heapless::Vec::from_slice(b"TestClass").unwrap(),
        destination: heapless::Vec::from_slice(b"node.service").unwrap(),
        enc: EncryptionType::X25519ChaCha20Poly1305,
    };

    let mut buffer = [0u8; 256];
    let mut out_len = 0;

    let res = dataframe_serialize(&df, &mut buffer, &mut out_len);
    assert_eq!(res, 0);
    assert!(out_len > 0);

    let mut des_df = ParagonDataFrame {
        packages: heapless::Vec::new(),
        class: heapless::Vec::new(),
        destination: heapless::Vec::new(),
        enc: EncryptionType::NoEncryption,
    };

    let des_res = dataframe_deserialize(&buffer[..out_len], &mut des_df);
    assert_eq!(des_res, 0);
    assert_eq!(des_df.class, df.class);
    assert_eq!(des_df.destination, df.destination);
    assert!(matches!(des_df.enc, EncryptionType::X25519ChaCha20Poly1305));
}

#[test]
fn test_ppsp_serialization_and_validation() {
    let mut ppsp1 = ParagonPreStructuredPackage {
        fields: heapless::Vec::new(),
    };
    ppsp1
        .fields
        .push(PreStructuredField {
            name: heapless::Vec::from_slice(b"age").unwrap(),
            description: heapless::Vec::from_slice(b"user age").unwrap(),
            field_type: FieldType::Int,
            value: heapless::Vec::from_slice(b"30").unwrap(),
        })
        .unwrap();

    let mut ppsp_buf = [0u8; 512];
    let ppsp_len = ppsp_serialize(&ppsp1, &mut ppsp_buf).unwrap();

    let mut ppsp_des = ParagonPreStructuredPackage {
        fields: heapless::Vec::new(),
    };
    ppsp_deserialize(&ppsp_buf[..ppsp_len], &mut ppsp_des).unwrap();
    assert_eq!(ppsp_des.fields.len(), 1);
    assert_eq!(ppsp_des.fields[0].name, ppsp1.fields[0].name);
    assert_eq!(ppsp_des.fields[0].field_type, FieldType::Int);

    let mut ppsp2 = ParagonPreStructuredPackage {
        fields: heapless::Vec::new(),
    };
    ppsp2
        .fields
        .push(PreStructuredField {
            name: heapless::Vec::from_slice(b"age").unwrap(),
            description: heapless::Vec::from_slice(b"user age").unwrap(),
            field_type: FieldType::Int,
            value: heapless::Vec::from_slice(b"25").unwrap(),
        })
        .unwrap();
    let mut ppsp_buf2 = [0u8; 512];
    let ppsp_len2 = ppsp_serialize(&ppsp2, &mut ppsp_buf2).unwrap();

    let pkg1 = ParagonPackageEncrypted {
        version: [1, 0, 0, 0],
        mime_type: heapless::Vec::from_slice(&PPSP_MIME_TYPE).unwrap(),
        encrypted_data: heapless::Vec::from_slice(&ppsp_buf[..ppsp_len]).unwrap(),
        sign: heapless::Vec::new(),
    };

    let pkg2 = ParagonPackageEncrypted {
        version: [1, 0, 0, 0],
        mime_type: heapless::Vec::from_slice(&PPSP_MIME_TYPE).unwrap(),
        encrypted_data: heapless::Vec::from_slice(&ppsp_buf2[..ppsp_len2]).unwrap(),
        sign: heapless::Vec::new(),
    };

    let mut df = ParagonDataFrame {
        packages: heapless::Vec::new(),
        class: heapless::Vec::from_slice(b"ClassPPSP").unwrap(),
        destination: heapless::Vec::from_slice(b"node.ppsp").unwrap(),
        enc: EncryptionType::NoEncryption,
    };
    df.packages.push(pkg1.clone()).unwrap();
    df.packages.push(pkg2.clone()).unwrap();

    assert!(validate_dataframe_packages(&df).is_ok());

    let mut df_buf = [0u8; 1024];
    let mut df_out_len = 0;
    let ser_res = dataframe_serialize(&df, &mut df_buf, &mut df_out_len);
    assert_eq!(ser_res, 0);

    let mut des_df = ParagonDataFrame {
        packages: heapless::Vec::new(),
        class: heapless::Vec::new(),
        destination: heapless::Vec::new(),
        enc: EncryptionType::NoEncryption,
    };
    let des_res = dataframe_deserialize(&df_buf[..df_out_len], &mut des_df);
    assert_eq!(des_res, 0);
    assert_eq!(des_df.packages.len(), 2);

    // Test Invalid DataFrame: mixing PPSP package and free text package
    let free_text_pkg = ParagonPackageEncrypted {
        version: [1, 0, 0, 0],
        mime_type: heapless::Vec::from_slice(b"text/plain").unwrap(),
        encrypted_data: heapless::Vec::from_slice(b"free text").unwrap(),
        sign: heapless::Vec::new(),
    };
    let mut mixed_df = ParagonDataFrame {
        packages: heapless::Vec::new(),
        class: heapless::Vec::from_slice(b"ClassMixed").unwrap(),
        destination: heapless::Vec::from_slice(b"node.mix").unwrap(),
        enc: EncryptionType::NoEncryption,
    };
    mixed_df.packages.push(pkg1.clone()).unwrap();
    mixed_df.packages.push(free_text_pkg).unwrap();

    let mix_res = validate_dataframe_packages(&mixed_df);
    assert_eq!(mix_res, Err(ParseError::InvalidPackageMix as u8));

    // Test Invalid DataFrame: structural mismatch
    let mut ppsp_mismatch = ParagonPreStructuredPackage {
        fields: heapless::Vec::new(),
    };
    ppsp_mismatch
        .fields
        .push(PreStructuredField {
            name: heapless::Vec::from_slice(b"age").unwrap(),
            description: heapless::Vec::from_slice(b"user age different description").unwrap(),
            field_type: FieldType::Int,
            value: heapless::Vec::from_slice(b"30").unwrap(),
        })
        .unwrap();
    let mut mismatch_buf = [0u8; 512];
    let mismatch_len = ppsp_serialize(&ppsp_mismatch, &mut mismatch_buf).unwrap();

    let pkg_mismatch = ParagonPackageEncrypted {
        version: [1, 0, 0, 0],
        mime_type: heapless::Vec::from_slice(&PPSP_MIME_TYPE).unwrap(),
        encrypted_data: heapless::Vec::from_slice(&mismatch_buf[..mismatch_len]).unwrap(),
        sign: heapless::Vec::new(),
    };

    let mut mismatch_df = ParagonDataFrame {
        packages: heapless::Vec::new(),
        class: heapless::Vec::from_slice(b"ClassMismatch").unwrap(),
        destination: heapless::Vec::from_slice(b"node.mismatch").unwrap(),
        enc: EncryptionType::NoEncryption,
    };
    mismatch_df.packages.push(pkg1.clone()).unwrap();
    mismatch_df.packages.push(pkg_mismatch).unwrap();

    let mismatch_res = validate_dataframe_packages(&mismatch_df);
    assert_eq!(mismatch_res, Err(ParseError::StructuralMismatch as u8));
}
