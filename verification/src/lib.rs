//! A binary protocol for structured data: frames of packages, pre-structured
//! packages of typed fields, and the X25519 / ChaCha20-Poly1305 primitives that
//! protect them.
//!
//! `wire` states the format as mathematics, `serialization` reads and writes
//! it against that statement, and `roundtrip` proves that what is written
//! reads back.
pub mod bounded;
pub mod crypto;
pub mod roundtrip;
pub mod rules;
pub mod serialization;
pub mod types;
pub mod validation;
pub mod wire;

pub use crypto::{
    crypto_decrypt_chacha20poly1305, crypto_derive_shared_secret, crypto_encrypt_chacha20poly1305,
    crypto_generate_keypair,
};
pub use serialization::{
    dataframe_deserialize, dataframe_serialize, package_deserialize,
    package_encrypted_deserialize, package_encrypted_serialize, package_serialize,
    ppsp_deserialize, ppsp_serialize, proto_parse_header, proto_version,
    validate_dataframe_packages,
};
pub use types::{
    EncryptionType, FieldType, FieldView, FrameView, Header, KeyPair, PackageView,
    ParagonDataFrame, ParagonPackage, ParagonPackageEncrypted, ParagonPreStructuredPackage,
    ParseError, PreStructuredField, CLASS_MAX_LEN, DATA_MAX_LEN, DESTINATION_MAX_LEN,
    FIELD_DESC_MAX_LEN, FIELD_NAME_MAX_LEN, FIELD_VALUE_MAX_LEN, HEADER_SIZE, KEY_SIZE, MAGIC,
    MAX_PRE_STRUCTURED_FIELDS, MIME_MAX_LEN, NONCE_SIZE, PACKAGES_MAX_COUNT, PPSP_MIME_TYPE,
    SIGN_MAX_LEN, VERSION,
};
pub use validation::validate_destination;
