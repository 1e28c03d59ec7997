//! The records of the protocol, their limits and the codes they travel with,
//! and the mathematical values (views) that the contracts speak of.
use vstd::prelude::*;
use crate::bounded::{
    bytes128, bytes128_as_slice, bytes128_from_slice, bytes32, bytes32_as_slice,
    bytes32_from_slice, bytes4096, bytes4096_as_slice, bytes4096_from_slice, bytes64,
    bytes64_as_slice, bytes64_from_slice, field_list, field_list_as_slice, field_list_new,
    field_list_push, package_list, package_list_as_slice, package_list_new, package_list_push,
};

verus! {

pub const MIME_MAX_LEN: usize = 64;

pub const SIGN_MAX_LEN: usize = 64;

pub const DATA_MAX_LEN: usize = 4096;

pub const DESTINATION_MAX_LEN: usize = 128;

pub const CLASS_MAX_LEN: usize = 64;

pub const PACKAGES_MAX_COUNT: usize = 16;

pub const KEY_SIZE: usize = 32;

pub const NONCE_SIZE: usize = 12;

pub const FIELD_NAME_MAX_LEN: usize = 32;

pub const FIELD_DESC_MAX_LEN: usize = 64;

pub const FIELD_VALUE_MAX_LEN: usize = 128;

pub const MAX_PRE_STRUCTURED_FIELDS: usize = 16;

/// The MIME type that marks a package whose payload is a pre-structured
/// package: the ASCII bytes of `application/vnd.paragon.ppsp`.
pub const PPSP_MIME_TYPE: [u8; 28] = [
    97, 112, 112, 108, 105, 99, 97, 116, 105, 111, 110, 47, 118, 110, 100, 46, 112, 97, 114, 97,
    103, 111, 110, 46, 112, 112, 115, 112,
];

/// The first four bytes of a frame header, little endian: `ANAG` read as a `u32`.
pub const MAGIC: u32 = 0x47414E41;

/// The protocol version this library speaks.
pub const VERSION: u16 = 1;

/// Bytes in a frame header: magic (4), version (2), flags (2), payload length (4).
pub const HEADER_SIZE: usize = 12;

/// What the value of a pre-structured field means.
#[derive(Debug, Copy, Clone, PartialEq, Eq, Structural)]
pub enum FieldType {
    String,
    Int,
    Float,
    Bool,
    Bytes,
}

impl FieldType {
    /// The byte that stands for this type on the wire (1 to 5).
    pub open spec fn spec_code(self) -> u8 {
        match self {
            FieldType::String => 1,
            FieldType::Int => 2,
            FieldType::Float => 3,
            FieldType::Bool => 4,
            FieldType::Bytes => 5,
        }
    }

    /// The type that a wire byte stands for, if any.
    pub open spec fn spec_from_code(b: u8) -> Option<FieldType> {
        if b == 1 {
            Some(FieldType::String)
        } else if b == 2 {
            Some(FieldType::Int)
        } else if b == 3 {
            Some(FieldType::Float)
        } else if b == 4 {
            Some(FieldType::Bool)
        } else if b == 5 {
            Some(FieldType::Bytes)
        } else {
            None
        }
    }

    pub fn code(self) -> (c: u8)
        ensures
            c == self.spec_code(),
    {
        match self {
            FieldType::String => 1,
            FieldType::Int => 2,
            FieldType::Float => 3,
            FieldType::Bool => 4,
            FieldType::Bytes => 5,
        }
    }

    pub fn from_code(b: u8) -> (t: Option<FieldType>)
        ensures
            t == Self::spec_from_code(b),
    {
        if b == 1 {
            Some(FieldType::String)
        } else if b == 2 {
            Some(FieldType::Int)
        } else if b == 3 {
            Some(FieldType::Float)
        } else if b == 4 {
            Some(FieldType::Bool)
        } else if b == 5 {
            Some(FieldType::Bytes)
        } else {
            None
        }
    }
}

/// One named, described and typed value of a pre-structured package.
#[derive(Debug)]
pub struct PreStructuredField {
    pub name: heapless::Vec<u8, FIELD_NAME_MAX_LEN>,
    pub description: heapless::Vec<u8, FIELD_DESC_MAX_LEN>,
    pub field_type: FieldType,
    pub value: heapless::Vec<u8, FIELD_VALUE_MAX_LEN>,
}

/// A field as the contracts see it.
#[verifier::ext_equal]
pub struct FieldView {
    pub field_type: FieldType,
    pub name: Seq<u8>,
    pub description: Seq<u8>,
    pub value: Seq<u8>,
}

impl View for PreStructuredField {
    type V = FieldView;

    open spec fn view(&self) -> FieldView {
        FieldView {
            field_type: self.field_type,
            name: bytes32(self.name),
            description: bytes64(self.description),
            value: bytes128(self.value),
        }
    }
}

/// A package whose payload is a list of typed fields.
#[derive(Debug)]
pub struct ParagonPreStructuredPackage {
    pub fields: heapless::Vec<PreStructuredField, MAX_PRE_STRUCTURED_FIELDS>,
}

impl View for ParagonPreStructuredPackage {
    type V = Seq<FieldView>;

    open spec fn view(&self) -> Seq<FieldView> {
        field_list(self.fields).map_values(|f: PreStructuredField| f@)
    }
}

/// A frame header.
pub struct Header {
    pub magic: u32,
    pub version: u16,
    pub flags: u16,
    pub payload_len: u32,
}

/// A package in the clear: version, MIME type, payload and signature.
#[derive(Debug)]
pub struct ParagonPackage {
    pub version: [u8; 4],
    pub mime_type: heapless::Vec<u8, MIME_MAX_LEN>,
    pub raw_data: heapless::Vec<u8, DATA_MAX_LEN>,
    pub sign: heapless::Vec<u8, SIGN_MAX_LEN>,
}

/// A package as the contracts see it; both package records share this
/// shape, the clear one holding its payload in `raw_data` and the
/// encrypted one in `encrypted_data`.
#[verifier::ext_equal]
pub struct PackageView {
    pub version: Seq<u8>,
    pub mime_type: Seq<u8>,
    pub data: Seq<u8>,
    pub sign: Seq<u8>,
}

impl View for ParagonPackage {
    type V = PackageView;

    open spec fn view(&self) -> PackageView {
        PackageView {
            version: self.version@,
            mime_type: bytes64(self.mime_type),
            data: bytes4096(self.raw_data),
            sign: bytes64(self.sign),
        }
    }
}

/// A package whose payload has been encrypted (or is carried as is).
#[derive(Debug)]
pub struct ParagonPackageEncrypted {
    pub version: [u8; 4],
    pub mime_type: heapless::Vec<u8, MIME_MAX_LEN>,
    pub encrypted_data: heapless::Vec<u8, DATA_MAX_LEN>,
    pub sign: heapless::Vec<u8, SIGN_MAX_LEN>,
}

impl View for ParagonPackageEncrypted {
    type V = PackageView;

    open spec fn view(&self) -> PackageView {
        PackageView {
            version: self.version@,
            mime_type: bytes64(self.mime_type),
            data: bytes4096(self.encrypted_data),
            sign: bytes64(self.sign),
        }
    }
}

/// How the packages of a frame are encrypted.
#[derive(Debug, Copy, Clone)]
pub enum EncryptionType {
    NoEncryption,
    X25519ChaCha20Poly1305,
    X25519Aes256Gcm,
}

impl EncryptionType {
    /// The byte that stands for this scheme on the wire (0 to 2).
    pub open spec fn spec_code(self) -> u8 {
        match self {
            EncryptionType::NoEncryption => 0,
            EncryptionType::X25519ChaCha20Poly1305 => 1,
            EncryptionType::X25519Aes256Gcm => 2,
        }
    }

    /// The scheme that a wire byte stands for, if any.
    pub open spec fn spec_from_code(b: u8) -> Option<EncryptionType> {
        if b == 0 {
            Some(EncryptionType::NoEncryption)
        } else if b == 1 {
            Some(EncryptionType::X25519ChaCha20Poly1305)
        } else if b == 2 {
            Some(EncryptionType::X25519Aes256Gcm)
        } else {
            None
        }
    }

    pub fn code(self) -> (c: u8)
        ensures
            c == self.spec_code(),
    {
        match self {
            EncryptionType::NoEncryption => 0,
            EncryptionType::X25519ChaCha20Poly1305 => 1,
            EncryptionType::X25519Aes256Gcm => 2,
        }
    }

    pub fn from_code(b: u8) -> (e: Option<EncryptionType>)
        ensures
            e == Self::spec_from_code(b),
    {
        if b == 0 {
            Some(EncryptionType::NoEncryption)
        } else if b == 1 {
            Some(EncryptionType::X25519ChaCha20Poly1305)
        } else if b == 2 {
            Some(EncryptionType::X25519Aes256Gcm)
        } else {
            None
        }
    }
}

/// A frame: its packages, its class, where it goes and how it is encrypted.
#[derive(Debug)]
pub struct ParagonDataFrame {
    pub packages: heapless::Vec<ParagonPackageEncrypted, PACKAGES_MAX_COUNT>,
    pub class: heapless::Vec<u8, CLASS_MAX_LEN>,
    pub destination: heapless::Vec<u8, DESTINATION_MAX_LEN>,
    pub enc: EncryptionType,
}

/// A frame as the contracts see it.
#[verifier::ext_equal]
pub struct FrameView {
    pub packages: Seq<PackageView>,
    pub class: Seq<u8>,
    pub destination: Seq<u8>,
    pub enc: EncryptionType,
}

impl View for ParagonDataFrame {
    type V = FrameView;

    open spec fn view(&self) -> FrameView {
        FrameView {
            packages: package_list(self.packages).map_values(|p: ParagonPackageEncrypted| p@),
            class: bytes64(self.class),
            destination: bytes128(self.destination),
            enc: self.enc,
        }
    }
}

/// The outcomes of parsing and checking, numbered as they travel (0 to 7).
#[derive(Copy, Clone, PartialEq, Eq, Structural)]
pub enum ParseError {
    Success,
    BadMagic,
    BadVersion,
    TooShort,
    InvalidDestination,
    InvalidPackageMix,
    StructuralMismatch,
    InvalidPpsp,
}

impl ParseError {
    /// The number that stands for this outcome.
    pub open spec fn spec_code(self) -> u8 {
        match self {
            ParseError::Success => 0,
            ParseError::BadMagic => 1,
            ParseError::BadVersion => 2,
            ParseError::TooShort => 3,
            ParseError::InvalidDestination => 4,
            ParseError::InvalidPackageMix => 5,
            ParseError::StructuralMismatch => 6,
            ParseError::InvalidPpsp => 7,
        }
    }

    pub fn code(self) -> (c: u8)
        ensures
            c == self.spec_code(),
    {
        match self {
            ParseError::Success => 0,
            ParseError::BadMagic => 1,
            ParseError::BadVersion => 2,
            ParseError::TooShort => 3,
            ParseError::InvalidDestination => 4,
            ParseError::InvalidPackageMix => 5,
            ParseError::StructuralMismatch => 6,
            ParseError::InvalidPpsp => 7,
        }
    }
}

/// An X25519 key pair.
pub struct KeyPair {
    pub public: [u8; 32],
    pub private: [u8; 32],
}

impl Clone for PreStructuredField {
    fn clone(&self) -> (r: Self)
        ensures
            r@ == self@,
    {
        PreStructuredField {
            name: bytes32_from_slice(bytes32_as_slice(&self.name)).unwrap(),
            description: bytes64_from_slice(bytes64_as_slice(&self.description)).unwrap(),
            field_type: self.field_type,
            value: bytes128_from_slice(bytes128_as_slice(&self.value)).unwrap(),
        }
    }
}

impl Clone for ParagonPreStructuredPackage {
    fn clone(&self) -> (r: Self)
        ensures
            r@ == self@,
    {
        let src = field_list_as_slice(&self.fields);
        let mut fields = field_list_new();
        let mut i: usize = 0;
        while i < src.len()
            invariant
                i <= src@.len(),
                src@ == field_list(self.fields),
                src@.len() <= 16,
                field_list(fields).len() == i,
                forall|j: int| 0 <= j < i ==> (#[trigger] field_list(fields)[j])@ == src@[j]@,
            decreases src@.len() - i,
        {
            let f = src[i].clone();
            let ghost before = field_list(fields);
            let ok = field_list_push(&mut fields, f);
            assert(ok);
            assert(field_list(fields) == before.push(f));
            i += 1;
        }
        let r = ParagonPreStructuredPackage { fields };
        assert(r@ =~= self@);
        r
    }
}

impl Clone for ParagonPackage {
    fn clone(&self) -> (r: Self)
        ensures
            r@ == self@,
    {
        ParagonPackage {
            version: self.version,
            mime_type: bytes64_from_slice(bytes64_as_slice(&self.mime_type)).unwrap(),
            raw_data: bytes4096_from_slice(bytes4096_as_slice(&self.raw_data)).unwrap(),
            sign: bytes64_from_slice(bytes64_as_slice(&self.sign)).unwrap(),
        }
    }
}

impl Clone for ParagonPackageEncrypted {
    fn clone(&self) -> (r: Self)
        ensures
            r@ == self@,
    {
        ParagonPackageEncrypted {
            version: self.version,
            mime_type: bytes64_from_slice(bytes64_as_slice(&self.mime_type)).unwrap(),
            encrypted_data: bytes4096_from_slice(bytes4096_as_slice(&self.encrypted_data)).unwrap(),
            sign: bytes64_from_slice(bytes64_as_slice(&self.sign)).unwrap(),
        }
    }
}

impl Clone for ParagonDataFrame {
    fn clone(&self) -> (r: Self)
        ensures
            r@ == self@,
    {
        let src = package_list_as_slice(&self.packages);
        let mut packages = package_list_new();
        let mut i: usize = 0;
        while i < src.len()
            invariant
                i <= src@.len(),
                src@ == package_list(self.packages),
                src@.len() <= 16,
                package_list(packages).len() == i,
                forall|j: int| 0 <= j < i ==> (#[trigger] package_list(packages)[j])@ == src@[j]@,
            decreases src@.len() - i,
        {
            let p = src[i].clone();
            let ghost before = package_list(packages);
            let ok = package_list_push(&mut packages, p);
            assert(ok);
            assert(package_list(packages) == before.push(p));
            i += 1;
        }
        let r = ParagonDataFrame {
            packages,
            class: bytes64_from_slice(bytes64_as_slice(&self.class)).unwrap(),
            destination: bytes128_from_slice(bytes128_as_slice(&self.destination)).unwrap(),
            enc: self.enc,
        };
        assert(r@.packages =~= self@.packages);
        r
    }
}

} // verus!
