//! The wire format, stated as mathematics: what each record becomes as
//! bytes, and what reading a byte string does to a record.
//!
//! Lengths are written in front of the bytes they count: one byte for MIME
//! types, signatures, names, descriptions, classes and destinations; two bytes,
//! little endian, for payloads, field values and framed packages.
use vstd::prelude::*;
use crate::types::{
    EncryptionType, FieldType, FieldView, FrameView, Header, PackageView, HEADER_SIZE, MAGIC,
    PPSP_MIME_TYPE, VERSION,
};
use crate::validation::is_valid_destination;

verus! {

/// `w` written over the front of `orig`: what a buffer holds after `w` was
/// written at its start.
pub open spec fn spliced(orig: Seq<u8>, w: Seq<u8>) -> Seq<u8> {
    w + orig.skip(w.len() as int)
}

/// The two little-endian bytes of a 16-bit length.
pub open spec fn le16_bytes(n: nat) -> Seq<u8> {
    seq![(n % 256) as u8, (n / 256) as u8]
}

/// The number that two little-endian bytes stand for.
pub open spec fn le16_value(lo: u8, hi: u8) -> nat {
    lo as nat + 256 * (hi as nat)
}

/// A byte string behind a one-byte length.
pub open spec fn blob8(b: Seq<u8>) -> Seq<u8> {
    seq![b.len() as u8] + b
}

/// A byte string behind a two-byte little-endian length.
pub open spec fn blob16(b: Seq<u8>) -> Seq<u8> {
    le16_bytes(b.len()) + b
}

/// A package on the wire: version, MIME type, payload, signature.
pub open spec fn package_bytes(p: PackageView) -> Seq<u8> {
    p.version + blob8(p.mime_type) + blob16(p.data) + blob8(p.sign)
}

/// The number of bytes a package takes on the wire.
pub open spec fn package_len(p: PackageView) -> nat {
    4 + 1 + p.mime_type.len() + 2 + p.data.len() + 1 + p.sign.len()
}

/// A package that its record can hold.
pub open spec fn package_wf(p: PackageView) -> bool {
    &&& p.version.len() == 4
    &&& p.mime_type.len() <= 64
    &&& p.data.len() <= 4096
    &&& p.sign.len() <= 64
}

/// The byte string behind a one-byte length at `off`, and the offset after it.
pub open spec fn read_blob8(buf: Seq<u8>, off: int) -> Option<(Seq<u8>, int)> {
    if 0 <= off < buf.len() && off + 1 + buf[off] <= buf.len() {
        Some((buf.subrange(off + 1, off + 1 + buf[off]), off + 1 + buf[off]))
    } else {
        None
    }
}

/// The byte string behind a two-byte length at `off`, and the offset after it.
pub open spec fn read_blob16(buf: Seq<u8>, off: int) -> Option<(Seq<u8>, int)> {
    if 0 <= off && off + 2 <= buf.len() && off + 2 + le16_value(buf[off], buf[off + 1])
        <= buf.len() {
        Some(
            (
                buf.subrange(off + 2, off + 2 + le16_value(buf[off], buf[off + 1])),
                off + 2 + le16_value(buf[off], buf[off + 1]),
            ),
        )
    } else {
        None
    }
}

/// Whether a string was read and fits in `cap` bytes.
pub open spec fn fits(r: Option<(Seq<u8>, int)>, cap: nat) -> bool {
    r matches Some((b, _)) && b.len() <= cap
}

/// What a bounded vector holds after a string was copied into it byte by
/// byte: the string, cut at the capacity; or its old contents where no
/// string could be read.
pub open spec fn fill(old: Seq<u8>, r: Option<(Seq<u8>, int)>, cap: nat) -> Seq<u8> {
    match r {
        Some((b, _)) => if b.len() <= cap {
            b
        } else {
            b.take(cap as int)
        },
        None => old,
    }
}

/// Reading a package out of `buf` into a record that held `old`: the record
/// afterwards, and the offset after the package if the whole package was
/// read. The fields are taken in order and each is written as far as it got,
/// so a failed read leaves the earlier fields read and the later ones as
/// they were.
#[verifier::opaque]
pub open spec fn read_package(old: PackageView, buf: Seq<u8>) -> (PackageView, Option<int>) {
    if buf.len() < 4 {
        (old, None)
    } else {
        let version = buf.take(4);
        let m = read_blob8(buf, 4);
        let mime_type = fill(old.mime_type, m, 64);
        if !fits(m, 64) {
            (PackageView { version, mime_type, data: old.data, sign: old.sign }, None)
        } else {
            let d = read_blob16(buf, m.unwrap().1);
            let data = fill(old.data, d, 4096);
            if !fits(d, 4096) {
                (PackageView { version, mime_type, data, sign: old.sign }, None)
            } else {
                let s = read_blob8(buf, d.unwrap().1);
                let sign = fill(old.sign, s, 64);
                (
                    PackageView { version, mime_type, data, sign },
                    if fits(s, 64) {
                        Some(s.unwrap().1)
                    } else {
                        None
                    },
                )
            }
        }
    }
}

/// A field on the wire: type, name, description, value.
pub open spec fn field_bytes(f: FieldView) -> Seq<u8> {
    seq![f.field_type.spec_code()] + blob8(f.name) + blob8(f.description) + blob16(f.value)
}

/// The fields on the wire, one after the other.
#[verifier::opaque]
pub open spec fn fields_bytes(fs: Seq<FieldView>) -> Seq<u8>
    decreases fs.len(),
{
    if fs.len() == 0 {
        Seq::empty()
    } else {
        fields_bytes(fs.drop_last()) + field_bytes(fs.last())
    }
}

/// A pre-structured package on the wire: the number of fields, then the fields.
pub open spec fn ppsp_bytes(fs: Seq<FieldView>) -> Seq<u8> {
    seq![fs.len() as u8] + fields_bytes(fs)
}

/// A field that its record can hold.
pub open spec fn field_wf(f: FieldView) -> bool {
    &&& f.name.len() <= 32
    &&& f.description.len() <= 64
    &&& f.value.len() <= 128
}

/// A list of fields that a pre-structured package can hold.
pub open spec fn fields_wf(fs: Seq<FieldView>) -> bool {
    &&& fs.len() <= 16
    &&& forall|i: int| 0 <= i < fs.len() ==> field_wf(#[trigger] fs[i])
}

/// The field at `off`, and the offset after it, where it can be read and fits
/// its record.
#[verifier::opaque]
pub open spec fn read_field(buf: Seq<u8>, off: int) -> Option<(FieldView, int)> {
    if 0 <= off < buf.len() {
        match FieldType::spec_from_code(buf[off]) {
            Some(t) => {
                let n = read_blob8(buf, off + 1);
                if fits(n, 32) {
                    let d = read_blob8(buf, n.unwrap().1);
                    if fits(d, 64) {
                        let v = read_blob16(buf, d.unwrap().1);
                        if fits(v, 128) {
                            Some(
                                (
                                    FieldView {
                                        field_type: t,
                                        name: n.unwrap().0,
                                        description: d.unwrap().0,
                                        value: v.unwrap().0,
                                    },
                                    v.unwrap().1,
                                ),
                            )
                        } else {
                            None
                        }
                    } else {
                        None
                    }
                } else {
                    None
                }
            },
            None => None,
        }
    } else {
        None
    }
}

/// The first `k` fields of a pre-structured package, read from offset 1 on,
/// and the offset after them.
pub open spec fn read_fields(buf: Seq<u8>, k: nat) -> Option<(Seq<FieldView>, int)>
    decreases k,
{
    if k == 0 {
        Some((Seq::empty(), 1))
    } else {
        match read_fields(buf, (k - 1) as nat) {
            Some((fs, off)) => match read_field(buf, off) {
                Some((f, next)) => Some((fs.push(f), next)),
                None => None,
            },
            None => None,
        }
    }
}

/// The most fields, at most `k`, that can be read one after the other.
pub open spec fn fields_readable(buf: Seq<u8>, k: nat) -> nat
    decreases k,
{
    if k == 0 || read_fields(buf, k) is Some {
        k
    } else {
        fields_readable(buf, (k - 1) as nat)
    }
}

/// Reading a pre-structured package out of `buf` into one that held `old`:
/// the fields it holds afterwards, and whether the whole package was read.
/// Fields are appended as they are read, up to the 16 the record holds.
pub open spec fn read_ppsp(old: Seq<FieldView>, buf: Seq<u8>) -> (Seq<FieldView>, bool) {
    if buf.len() < 1 {
        (old, false)
    } else {
        let n = buf[0] as nat;
        let cap: nat = if n <= 16 {
            n
        } else {
            16
        };
        (
            read_fields(buf, fields_readable(buf, cap)).unwrap().0,
            n <= 16 && read_fields(buf, n) is Some,
        )
    }
}

/// The fields of a pre-structured package, where `buf` holds a whole one.
pub open spec fn ppsp_content(buf: Seq<u8>) -> Option<Seq<FieldView>> {
    let r = read_ppsp(Seq::empty(), buf);
    if r.1 {
        Some(r.0)
    } else {
        None
    }
}

/// A package whose MIME type announces a pre-structured payload.
pub open spec fn is_ppsp_package(p: PackageView) -> bool {
    p.mime_type == PPSP_MIME_TYPE@
}

/// How many of the packages announce a pre-structured payload.
pub open spec fn ppsp_count(ps: Seq<PackageView>) -> nat
    decreases ps.len(),
{
    if ps.len() == 0 {
        0
    } else {
        ppsp_count(ps.drop_last()) + if is_ppsp_package(ps.last()) {
            1nat
        } else {
            0nat
        }
    }
}

/// Two lists of fields with the same types, names and descriptions, in the
/// same order (values may differ).
pub open spec fn same_structure(a: Seq<FieldView>, b: Seq<FieldView>) -> bool {
    &&& a.len() == b.len()
    &&& forall|i: int|
        0 <= i < a.len() ==> {
            &&& (#[trigger] a[i]).field_type == b[i].field_type
            &&& a[i].name == b[i].name
            &&& a[i].description == b[i].description
        }
}

/// Checking the first `k` packages, in order, as pre-structured packages
/// shaped like the first one: the first that cannot be read gives
/// `InvalidPpsp` (7), the first shaped otherwise `StructuralMismatch` (6).
pub open spec fn ppsp_check_upto(ps: Seq<PackageView>, k: nat) -> Result<(), u8>
    decreases k,
{
    if k == 0 {
        Ok(())
    } else {
        match ppsp_check_upto(ps, (k - 1) as nat) {
            Err(e) => Err(e),
            Ok(()) => match ppsp_content(ps[k - 1].data) {
                None => Err(7u8),
                Some(fs) => if k == 1 || same_structure(fs, ppsp_content(ps[0].data).unwrap()) {
                    Ok(())
                } else {
                    Err(6u8)
                },
            },
        }
    }
}

/// The rule on a frame's packages: either none announces a pre-structured
/// payload, or all do, can be read as such, and share one structure.
/// Mixing gives `InvalidPackageMix` (5).
pub open spec fn check_packages(ps: Seq<PackageView>) -> Result<(), u8> {
    if ps.len() == 0 {
        Ok(())
    } else if 0 < ppsp_count(ps) < ps.len() {
        Err(5u8)
    } else if ppsp_count(ps) == 0 {
        Ok(())
    } else {
        ppsp_check_upto(ps, ps.len())
    }
}

/// A package inside a frame: its length in two bytes, then the package.
pub open spec fn framed(p: PackageView) -> Seq<u8> {
    le16_bytes(package_bytes(p).len()) + package_bytes(p)
}

/// The packages of a frame, one after the other.
#[verifier::opaque]
pub open spec fn frames_bytes(ps: Seq<PackageView>) -> Seq<u8>
    decreases ps.len(),
{
    if ps.len() == 0 {
        Seq::empty()
    } else {
        frames_bytes(ps.drop_last()) + framed(ps.last())
    }
}

/// A frame on the wire: the number of packages, the packages, the
/// encryption, the class and the destination.
#[verifier::opaque]
pub open spec fn dataframe_bytes(df: FrameView) -> Seq<u8> {
    seq![df.packages.len() as u8] + frames_bytes(df.packages) + seq![df.enc.spec_code()] + blob8(
        df.class,
    ) + blob8(df.destination)
}

/// A frame that its record can hold.
pub open spec fn frame_wf(df: FrameView) -> bool {
    &&& df.packages.len() <= 16
    &&& forall|i: int| 0 <= i < df.packages.len() ==> package_wf(#[trigger] df.packages[i])
    &&& df.class.len() <= 64
    &&& df.destination.len() <= 128
}

/// A frame that can be sent: its destination is valid, its packages obey
/// the rule, and each package takes at most 4096 bytes.
pub open spec fn frame_sendable(df: FrameView) -> bool {
    &&& is_valid_destination(df.destination)
    &&& check_packages(df.packages) is Ok
    &&& forall|i: int| 0 <= i < df.packages.len() ==> package_len(#[trigger] df.packages[i]) <= 4096
}

/// The record a package is read into inside a frame: version zero, all else empty.
pub open spec fn blank_package() -> PackageView {
    PackageView {
        version: seq![0u8, 0u8, 0u8, 0u8],
        mime_type: Seq::empty(),
        data: Seq::empty(),
        sign: Seq::empty(),
    }
}

/// The first `k` framed packages of a frame, read from offset 1 on, and the
/// offset after them.
pub open spec fn read_frames(buf: Seq<u8>, k: nat) -> Option<(Seq<PackageView>, int)>
    decreases k,
{
    if k == 0 {
        Some((Seq::empty(), 1))
    } else {
        match read_frames(buf, (k - 1) as nat) {
            Some((ps, off)) => match read_blob16(buf, off) {
                Some((body, next)) => {
                    let r = read_package(blank_package(), body);
                    if r.1 is Some {
                        Some((ps.push(r.0), next))
                    } else {
                        None
                    }
                },
                None => None,
            },
            None => None,
        }
    }
}

/// The most framed packages, at most `k`, that can be read one after the other.
pub open spec fn frames_readable(buf: Seq<u8>, k: nat) -> nat
    decreases k,
{
    if k == 0 || read_frames(buf, k) is Some {
        k
    } else {
        frames_readable(buf, (k - 1) as nat)
    }
}

/// Reading a frame out of `buf` into a record that held `old`: the record
/// afterwards and the status (0 for success, 1 for a malformed or oversized
/// frame, 4 for an invalid destination, or the code of the package rule).
/// Parts are taken in order and each is written as far as it got.
#[verifier::opaque]
pub open spec fn read_frame(old: FrameView, buf: Seq<u8>) -> (FrameView, u8) {
    if buf.len() < 1 {
        (old, 1)
    } else {
        let n = buf[0] as nat;
        let cap: nat = if n <= 16 {
            n
        } else {
            16
        };
        let packages = read_frames(buf, frames_readable(buf, cap)).unwrap().0;
        if !(n <= 16 && read_frames(buf, n) is Some) {
            (FrameView { packages, ..old }, 1)
        } else {
            let off = read_frames(buf, n).unwrap().1;
            if off >= buf.len() || EncryptionType::spec_from_code(buf[off]) is None {
                (FrameView { packages, ..old }, 1)
            } else {
                let enc = EncryptionType::spec_from_code(buf[off]).unwrap();
                let c = read_blob8(buf, off + 1);
                let class = fill(old.class, c, 64);
                if !fits(c, 64) {
                    (FrameView { packages, enc, class, destination: old.destination }, 1)
                } else {
                    let d = read_blob8(buf, c.unwrap().1);
                    let destination = fill(old.destination, d, 128);
                    let df = FrameView { packages, enc, class, destination };
                    if !fits(d, 128) {
                        (df, 1)
                    } else if !is_valid_destination(destination) {
                        (df, 4)
                    } else {
                        match check_packages(packages) {
                            Err(e) => (df, e),
                            Ok(()) => (df, 0),
                        }
                    }
                }
            }
        }
    }
}

/// Writing the packages of a frame into `room` bytes stops at package `k`:
/// the ones before it were written, and it is larger than 4096 bytes or
/// does not fit.
pub open spec fn frames_stop_at(ps: Seq<PackageView>, k: int, room: nat) -> bool {
    &&& 0 <= k < ps.len()
    &&& forall|j: int| 0 <= j < k ==> package_len(#[trigger] ps[j]) <= 4096
    &&& 1 + frames_bytes(ps.take(k)).len() <= room
    &&& (package_len(ps[k]) > 4096 || 1 + frames_bytes(ps.take(k + 1)).len() > room)
}

/// The four little-endian bytes of a 32-bit number.
pub open spec fn le32_bytes(n: u32) -> Seq<u8> {
    seq![
        (n % 256) as u8,
        ((n / 256) % 256) as u8,
        ((n / 65536) % 256) as u8,
        (n / 16777216) as u8,
    ]
}

/// The number that four little-endian bytes at `off` stand for.
pub open spec fn le32_value(b: Seq<u8>, off: int) -> nat {
    b[off] as nat + 256 * (b[off + 1] as nat) + 65536 * (b[off + 2] as nat) + 16777216 * (
    b[off + 3] as nat)
}

/// A frame header on the wire: magic, version, flags and payload length,
/// each little endian.
pub open spec fn header_bytes(h: Header) -> Seq<u8> {
    le32_bytes(h.magic) + le16_bytes(h.version as nat) + le16_bytes(h.flags as nat) + le32_bytes(
        h.payload_len,
    )
}

/// The header that the first twelve bytes of `buf` spell.
pub open spec fn header_of(buf: Seq<u8>) -> Header {
    Header {
        magic: le32_value(buf, 0) as u32,
        version: le16_value(buf[4], buf[5]) as u16,
        flags: le16_value(buf[6], buf[7]) as u16,
        payload_len: le32_value(buf, 8) as u32,
    }
}

/// The outcome of reading a header: 3 (`TooShort`) under twelve bytes,
/// 1 (`BadMagic`) for another magic, 2 (`BadVersion`) for another version,
/// 0 otherwise.
pub open spec fn header_status(buf: Seq<u8>) -> u8 {
    if buf.len() < HEADER_SIZE {
        3
    } else if le32_value(buf, 0) != MAGIC {
        1
    } else if le16_value(buf[4], buf[5]) != VERSION {
        2
    } else {
        0
    }
}

} // verus!
