//! Reading and writing headers, packages, pre-structured packages and frames.
use vstd::prelude::*;
use vstd::slice::slice_subrange;
use crate::bounded::{
    bytes128, bytes128_as_slice, bytes128_from_slice, bytes32, bytes32_as_slice,
    bytes32_from_slice, bytes4096, bytes4096_as_slice, bytes4096_from_slice, bytes64,
    bytes64_as_slice, bytes64_from_slice,
};
use crate::bounded::{
    field_list, field_list_as_slice, field_list_new, field_list_push, package_list,
    package_list_as_slice, package_list_new, package_list_push,
};
use crate::types::{
    EncryptionType, FieldType, FieldView, Header, PackageView, ParagonDataFrame, ParagonPackage,
    ParagonPackageEncrypted, ParagonPreStructuredPackage, ParseError, PreStructuredField,
    HEADER_SIZE, MAGIC, PPSP_MIME_TYPE, VERSION,
};
use crate::wire::{
    blank_package, blob16, blob8, check_packages, dataframe_bytes, field_bytes, fields_bytes,
    fill, fits, frame_sendable, frames_bytes, frames_stop_at, header_of, header_status,
    le16_bytes, package_bytes, package_len, ppsp_bytes, ppsp_check_upto, ppsp_content, ppsp_count,
    read_blob16, read_blob8, read_field, read_fields, read_frame, read_frames, read_package,
    read_ppsp, same_structure, spliced,
};
use crate::roundtrip::{
    lemma_check_codes, lemma_check_stuck, lemma_dataframe_len, lemma_fields_bytes_take,
    lemma_fields_readable, lemma_frames_bytes_take, lemma_frames_readable,
};
use crate::validation::{is_valid_destination, validate_destination};

verus! {

// ---------------------------------------------------------------------------
// Headers
// ---------------------------------------------------------------------------

/// Reads a frame header from the start of `data`. Returns 0 and stores the
/// header in `out_header`, or returns 3 (`TooShort`), 1 (`BadMagic`) or 2
/// (`BadVersion`), checked in that order, leaving `out_header` as it was.
pub fn proto_parse_header(data: &[u8], out_header: &mut Header) -> (status: u8)
    ensures
        status == header_status(data@),
        status == 0 ==> *final(out_header) == header_of(data@),
        status != 0 ==> *final(out_header) == *old(out_header),
{
    if data.len() < HEADER_SIZE {
        return ParseError::TooShort.code();
    }
    let magic = data[0] as u32 + 256 * (data[1] as u32) + 65536 * (data[2] as u32) + 16777216 * (
    data[3] as u32);
    if magic != MAGIC {
        return ParseError::BadMagic.code();
    }
    let version = data[4] as u16 + 256 * (data[5] as u16);
    if version != VERSION {
        return ParseError::BadVersion.code();
    }
    let flags = data[6] as u16 + 256 * (data[7] as u16);
    let payload_len = data[8] as u32 + 256 * (data[9] as u32) + 65536 * (data[10] as u32)
        + 16777216 * (data[11] as u32);
    *out_header = Header { magic, version, flags, payload_len };
    ParseError::Success.code()
}

/// The protocol version this library speaks.
pub fn proto_version() -> (v: u16)
    ensures
        v == VERSION,
{
    VERSION
}

// ---------------------------------------------------------------------------
// Writing
// ---------------------------------------------------------------------------

/// Writes `src` at `off`, right after the bytes `w` already written over `orig`.
pub(crate) fn put_bytes(
    buf: &mut [u8],
    off: usize,
    src: &[u8],
    Ghost(orig): Ghost<Seq<u8>>,
    Ghost(w): Ghost<Seq<u8>>,
)
    requires
        old(buf)@ == spliced(orig, w),
        orig.len() <= usize::MAX,
        off == w.len(),
        w.len() + src@.len() <= orig.len(),
    ensures
        final(buf)@ == spliced(orig, w + src@),
{
    let mut i: usize = 0;
    while i < src.len()
        invariant
            i <= src@.len(),
            off == w.len(),
            orig.len() <= usize::MAX,
            w.len() + src@.len() <= orig.len(),
            buf@ == spliced(orig, w + src@.take(i as int)),
        decreases src@.len() - i,
    {
        assert(buf@.len() == orig.len());
        buf[off + i] = src[i];
        i += 1;
        assert(buf@ =~= spliced(orig, w + src@.take(i as int)));
    }
    assert(src@.take(src@.len() as int) =~= src@);
}

/// Writes the byte `b` at `off`, right after the bytes `w` already written over `orig`.
fn put_byte(buf: &mut [u8], off: usize, b: u8, Ghost(orig): Ghost<Seq<u8>>, Ghost(w): Ghost<Seq<u8>>)
    requires
        old(buf)@ == spliced(orig, w),
        orig.len() <= usize::MAX,
        off == w.len(),
        w.len() + 1 <= orig.len(),
    ensures
        final(buf)@ == spliced(orig, w.push(b)),
{
    assert(buf@.len() == orig.len());
    buf[off] = b;
    assert(buf@ =~= spliced(orig, w.push(b)));
}

/// Writes a two-byte little-endian length at `off`.
fn put_le16(buf: &mut [u8], off: usize, n: usize, Ghost(orig): Ghost<Seq<u8>>, Ghost(w): Ghost<Seq<u8>>)
    requires
        old(buf)@ == spliced(orig, w),
        orig.len() <= usize::MAX,
        off == w.len(),
        w.len() + 2 <= orig.len(),
        n < 65536,
    ensures
        final(buf)@ == spliced(orig, w + le16_bytes(n as nat)),
{
    let lo = (n % 256) as u8;
    let hi = (n / 256) as u8;
    put_byte(buf, off, lo, Ghost(orig), Ghost(w));
    put_byte(buf, off + 1, hi, Ghost(orig), Ghost(w.push(lo)));
    assert(w.push(lo).push(hi) =~= w + le16_bytes(n as nat));
}

/// Writes a byte string behind its one-byte length.
fn put_blob8(buf: &mut [u8], off: usize, src: &[u8], Ghost(orig): Ghost<Seq<u8>>, Ghost(w): Ghost<Seq<u8>>)
    requires
        old(buf)@ == spliced(orig, w),
        orig.len() <= usize::MAX,
        off == w.len(),
        w.len() + 1 + src@.len() <= orig.len(),
        src@.len() < 256,
    ensures
        final(buf)@ == spliced(orig, w + blob8(src@)),
{
    put_byte(buf, off, src.len() as u8, Ghost(orig), Ghost(w));
    put_bytes(buf, off + 1, src, Ghost(orig), Ghost(w.push(src.len() as u8)));
    assert(w.push(src@.len() as u8) + src@ =~= w + blob8(src@));
}

/// Writes a byte string behind its two-byte length.
fn put_blob16(buf: &mut [u8], off: usize, src: &[u8], Ghost(orig): Ghost<Seq<u8>>, Ghost(w): Ghost<Seq<u8>>)
    requires
        old(buf)@ == spliced(orig, w),
        orig.len() <= usize::MAX,
        off == w.len(),
        w.len() + 2 + src@.len() <= orig.len(),
        src@.len() < 65536,
    ensures
        final(buf)@ == spliced(orig, w + blob16(src@)),
{
    put_le16(buf, off, src.len(), Ghost(orig), Ghost(w));
    put_bytes(buf, off + 2, src, Ghost(orig), Ghost(w + le16_bytes(src@.len())));
    assert(w + le16_bytes(src@.len()) + src@ =~= w + blob16(src@));
}

/// Writes a package at `off`, from its parts.
fn put_package(
    buf: &mut [u8],
    off: usize,
    version: &[u8],
    mime: &[u8],
    data: &[u8],
    sign: &[u8],
    Ghost(orig): Ghost<Seq<u8>>,
    Ghost(w): Ghost<Seq<u8>>,
) -> (next: usize)
    requires
        old(buf)@ == spliced(orig, w),
        orig.len() <= usize::MAX,
        off == w.len(),
        version@.len() == 4,
        mime@.len() <= 64,
        data@.len() <= 4096,
        sign@.len() <= 64,
        w.len() + 4 + 1 + mime@.len() + 2 + data@.len() + 1 + sign@.len() <= orig.len(),
    ensures
        final(buf)@ == spliced(
            orig,
            w + package_bytes(
                PackageView { version: version@, mime_type: mime@, data: data@, sign: sign@ },
            ),
        ),
        next == off + package_bytes(
            PackageView { version: version@, mime_type: mime@, data: data@, sign: sign@ },
        ).len(),
{
    let ghost p = PackageView { version: version@, mime_type: mime@, data: data@, sign: sign@ };
    put_bytes(buf, off, version, Ghost(orig), Ghost(w));
    let ghost w1 = w + version@;
    put_blob8(buf, off + 4, mime, Ghost(orig), Ghost(w1));
    let ghost w2 = w1 + blob8(mime@);
    let o2 = off + 4 + 1 + mime.len();
    put_blob16(buf, o2, data, Ghost(orig), Ghost(w2));
    let ghost w3 = w2 + blob16(data@);
    let o3 = o2 + 2 + data.len();
    put_blob8(buf, o3, sign, Ghost(orig), Ghost(w3));
    assert(w3 + blob8(sign@) =~= w + package_bytes(p));
    o3 + 1 + sign.len()
}

/// Writes a package from its parts at the start of `buffer`, if it fits.
fn write_package(buffer: &mut [u8], version: &[u8], mime: &[u8], data: &[u8], sign: &[u8]) -> (r:
    Option<usize>)
    requires
        version@.len() == 4,
        mime@.len() <= 64,
        data@.len() <= 4096,
        sign@.len() <= 64,
    ensures
        r is Some <==> package_len(parts(version@, mime@, data@, sign@)) <= old(buffer)@.len(),
        r matches Some(n) ==> {
            &&& n == package_len(parts(version@, mime@, data@, sign@))
            &&& final(buffer)@ == spliced(
                old(buffer)@,
                package_bytes(parts(version@, mime@, data@, sign@)),
            )
        },
        r is None ==> final(buffer)@ == old(buffer)@,
{
    let total = 4 + 1 + mime.len() + 2 + data.len() + 1 + sign.len();
    if buffer.len() < total {
        return None;
    }
    let ghost orig = buffer@;
    assert(spliced(orig, Seq::empty()) =~= orig);
    let n = put_package(buffer, 0, version, mime, data, sign, Ghost(orig), Ghost(Seq::empty()));
    assert(Seq::<u8>::empty() + package_bytes(parts(version@, mime@, data@, sign@)) =~= package_bytes(
        parts(version@, mime@, data@, sign@),
    ));
    Some(n)
}

/// A package assembled from its parts.
pub open spec fn parts(version: Seq<u8>, mime: Seq<u8>, data: Seq<u8>, sign: Seq<u8>) -> PackageView {
    PackageView { version, mime_type: mime, data, sign }
}

/// Writes `package` at the start of `buffer` and its length into `out_len`,
/// returning 0; or returns 1, touching neither, when the buffer is too short.
pub fn package_serialize(package: &ParagonPackage, buffer: &mut [u8], out_len: &mut usize) -> (status: u8)
    ensures
        status == 0 <==> package_len(package@) <= old(buffer)@.len(),
        status == 0 ==> final(buffer)@ == spliced(old(buffer)@, package_bytes(package@)),
        status == 0 ==> *final(out_len) == package_len(package@),
        status != 0 ==> status == 1 && final(buffer)@ == old(buffer)@ && *final(out_len) == *old(
            out_len,
        ),
{
    let mime = bytes64_as_slice(&package.mime_type);
    let data = bytes4096_as_slice(&package.raw_data);
    let sign = bytes64_as_slice(&package.sign);
    match write_package(buffer, package.version.as_slice(), mime, data, sign) {
        Some(n) => {
            *out_len = n;
            0
        },
        None => 1,
    }
}

/// Writes `pkg` at the start of `buffer` and returns its length, or `Err(1)`,
/// leaving the buffer as it was, when the buffer is too short.
pub fn package_encrypted_serialize(pkg: &ParagonPackageEncrypted, buffer: &mut [u8]) -> (r: Result<
    usize,
    u8,
>)
    ensures
        r is Ok <==> package_len(pkg@) <= old(buffer)@.len(),
        r matches Ok(n) ==> n == package_len(pkg@) && final(buffer)@ == spliced(
            old(buffer)@,
            package_bytes(pkg@),
        ),
        r matches Err(e) ==> e == 1 && final(buffer)@ == old(buffer)@,
{
    let mime = bytes64_as_slice(&pkg.mime_type);
    let data = bytes4096_as_slice(&pkg.encrypted_data);
    let sign = bytes64_as_slice(&pkg.sign);
    match write_package(buffer, pkg.version.as_slice(), mime, data, sign) {
        Some(n) => Ok(n),
        None => Err(1),
    }
}

// ---------------------------------------------------------------------------
// Reading
// ---------------------------------------------------------------------------

/// Where the byte string behind a one-byte length at `off` starts and ends.
fn blob8_at(buf: &[u8], off: usize) -> (r: Option<(usize, usize)>)
    ensures
        r is Some <==> read_blob8(buf@, off as int) is Some,
        r matches Some((s, e)) ==> {
            &&& s <= e <= buf@.len()
            &&& read_blob8(buf@, off as int) == Some((buf@.subrange(s as int, e as int), e as int))
        },
{
    if off >= buf.len() {
        return None;
    }
    let n = buf[off] as usize;
    let s = off + 1;
    if n > buf.len() - s {
        None
    } else {
        Some((s, s + n))
    }
}

/// Where the byte string behind a two-byte length at `off` starts and ends.
fn blob16_at(buf: &[u8], off: usize) -> (r: Option<(usize, usize)>)
    ensures
        r is Some <==> read_blob16(buf@, off as int) is Some,
        r matches Some((s, e)) ==> {
            &&& s <= e <= buf@.len()
            &&& read_blob16(buf@, off as int) == Some((buf@.subrange(s as int, e as int), e as int))
        },
{
    if buf.len() < 2 || off > buf.len() - 2 {
        return None;
    }
    let n = buf[off] as usize + 256 * (buf[off + 1] as usize);
    let s = off + 2;
    if n > buf.len() - s {
        None
    } else {
        Some((s, s + n))
    }
}

/// Copies the string behind a one-byte length at `off` into a 32-byte vector.
fn read8_into32(buf: &[u8], off: usize, target: &mut heapless::Vec<u8, 32>) -> (next: Option<usize>)
    ensures
        bytes32(*final(target)) == fill(bytes32(*old(target)), read_blob8(buf@, off as int), 32),
        next is Some <==> fits(read_blob8(buf@, off as int), 32),
        next matches Some(e) ==> e == read_blob8(buf@, off as int).unwrap().1,
{
    match blob8_at(buf, off) {
        None => None,
        Some((s, e)) => {
            if e - s <= 32 {
                *target = bytes32_from_slice(slice_subrange(buf, s, e)).unwrap();
                Some(e)
            } else {
                *target = bytes32_from_slice(slice_subrange(buf, s, s + 32)).unwrap();
                assert(buf@.subrange(s as int, s + 32) =~= buf@.subrange(s as int, e as int).take(32));
                None
            }
        },
    }
}

/// Copies the string behind a one-byte length at `off` into a 64-byte vector.
fn read8_into64(buf: &[u8], off: usize, target: &mut heapless::Vec<u8, 64>) -> (next: Option<usize>)
    ensures
        bytes64(*final(target)) == fill(bytes64(*old(target)), read_blob8(buf@, off as int), 64),
        next is Some <==> fits(read_blob8(buf@, off as int), 64),
        next matches Some(e) ==> e == read_blob8(buf@, off as int).unwrap().1,
{
    match blob8_at(buf, off) {
        None => None,
        Some((s, e)) => {
            if e - s <= 64 {
                *target = bytes64_from_slice(slice_subrange(buf, s, e)).unwrap();
                Some(e)
            } else {
                *target = bytes64_from_slice(slice_subrange(buf, s, s + 64)).unwrap();
                assert(buf@.subrange(s as int, s + 64) =~= buf@.subrange(s as int, e as int).take(64));
                None
            }
        },
    }
}

/// Copies the string behind a one-byte length at `off` into a 128-byte vector.
fn read8_into128(buf: &[u8], off: usize, target: &mut heapless::Vec<u8, 128>) -> (next: Option<
    usize,
>)
    ensures
        bytes128(*final(target)) == fill(bytes128(*old(target)), read_blob8(buf@, off as int), 128),
        next is Some <==> fits(read_blob8(buf@, off as int), 128),
        next matches Some(e) ==> e == read_blob8(buf@, off as int).unwrap().1,
{
    match blob8_at(buf, off) {
        None => None,
        Some((s, e)) => {
            if e - s <= 128 {
                *target = bytes128_from_slice(slice_subrange(buf, s, e)).unwrap();
                Some(e)
            } else {
                *target = bytes128_from_slice(slice_subrange(buf, s, s + 128)).unwrap();
                assert(buf@.subrange(s as int, s + 128) =~= buf@.subrange(s as int, e as int).take(
                    128,
                ));
                None
            }
        },
    }
}

/// Copies the string behind a two-byte length at `off` into a 128-byte vector.
fn read16_into128(buf: &[u8], off: usize, target: &mut heapless::Vec<u8, 128>) -> (next: Option<
    usize,
>)
    ensures
        bytes128(*final(target)) == fill(bytes128(*old(target)), read_blob16(buf@, off as int), 128),
        next is Some <==> fits(read_blob16(buf@, off as int), 128),
        next matches Some(e) ==> e == read_blob16(buf@, off as int).unwrap().1,
{
    match blob16_at(buf, off) {
        None => None,
        Some((s, e)) => {
            if e - s <= 128 {
                *target = bytes128_from_slice(slice_subrange(buf, s, e)).unwrap();
                Some(e)
            } else {
                *target = bytes128_from_slice(slice_subrange(buf, s, s + 128)).unwrap();
                assert(buf@.subrange(s as int, s + 128) =~= buf@.subrange(s as int, e as int).take(
                    128,
                ));
                None
            }
        },
    }
}

/// Copies the string behind a two-byte length at `off` into a 4096-byte vector.
fn read16_into4096(buf: &[u8], off: usize, target: &mut heapless::Vec<u8, 4096>) -> (next: Option<
    usize,
>)
    ensures
        bytes4096(*final(target)) == fill(
            bytes4096(*old(target)),
            read_blob16(buf@, off as int),
            4096,
        ),
        next is Some <==> fits(read_blob16(buf@, off as int), 4096),
        next matches Some(e) ==> e == read_blob16(buf@, off as int).unwrap().1,
{
    match blob16_at(buf, off) {
        None => None,
        Some((s, e)) => {
            if e - s <= 4096 {
                *target = bytes4096_from_slice(slice_subrange(buf, s, e)).unwrap();
                Some(e)
            } else {
                *target = bytes4096_from_slice(slice_subrange(buf, s, s + 4096)).unwrap();
                assert(buf@.subrange(s as int, s + 4096) =~= buf@.subrange(s as int, e as int).take(
                    4096,
                ));
                None
            }
        },
    }
}

/// Reads a package out of `buf` into its four parts, field by field.
fn read_package_into(
    buf: &[u8],
    version: &mut [u8; 4],
    mime: &mut heapless::Vec<u8, 64>,
    data: &mut heapless::Vec<u8, 4096>,
    sign: &mut heapless::Vec<u8, 64>,
) -> (next: Option<usize>)
    ensures
        final(version)@ == read_package(
            parts(old(version)@, bytes64(*old(mime)), bytes4096(*old(data)), bytes64(*old(sign))),
            buf@,
        ).0.version,
        bytes64(*final(mime)) == read_package(
            parts(old(version)@, bytes64(*old(mime)), bytes4096(*old(data)), bytes64(*old(sign))),
            buf@,
        ).0.mime_type,
        bytes4096(*final(data)) == read_package(
            parts(old(version)@, bytes64(*old(mime)), bytes4096(*old(data)), bytes64(*old(sign))),
            buf@,
        ).0.data,
        bytes64(*final(sign)) == read_package(
            parts(old(version)@, bytes64(*old(mime)), bytes4096(*old(data)), bytes64(*old(sign))),
            buf@,
        ).0.sign,
        next is Some <==> read_package(
            parts(old(version)@, bytes64(*old(mime)), bytes4096(*old(data)), bytes64(*old(sign))),
            buf@,
        ).1 is Some,
        next matches Some(n) ==> read_package(
            parts(old(version)@, bytes64(*old(mime)), bytes4096(*old(data)), bytes64(*old(sign))),
            buf@,
        ).1 == Some(n as int),
{
    reveal(read_package);
    if buf.len() < 4 {
        return None;
    }
    *version = [buf[0], buf[1], buf[2], buf[3]];
    assert(version@ =~= buf@.take(4));
    let o1 = match read8_into64(buf, 4, mime) {
        Some(o) => o,
        None => return None,
    };
    let o2 = match read16_into4096(buf, o1, data) {
        Some(o) => o,
        None => return None,
    };
    read8_into64(buf, o2, sign)
}

/// Reads a package from the start of `buffer` into `package`, returning 0
/// when the whole package was read and 1 otherwise. The parts are read in
/// order and each is stored as far as it got, as `read_package` says.
pub fn package_deserialize(buffer: &[u8], package: &mut ParagonPackage) -> (status: u8)
    ensures
        final(package)@ == read_package(old(package)@, buffer@).0,
        status == 0 <==> read_package(old(package)@, buffer@).1 is Some,
        status != 0 ==> status == 1,
{
    match read_package_into(
        buffer,
        &mut package.version,
        &mut package.mime_type,
        &mut package.raw_data,
        &mut package.sign,
    ) {
        Some(_) => 0,
        None => 1,
    }
}

/// Reads a package from the start of `buffer` into `pkg`, returning the
/// number of bytes it took, or `Err(1)`. The parts are read in order and each
/// is stored as far as it got, as `read_package` says.
pub fn package_encrypted_deserialize(buffer: &[u8], pkg: &mut ParagonPackageEncrypted) -> (r: Result<
    usize,
    u8,
>)
    ensures
        final(pkg)@ == read_package(old(pkg)@, buffer@).0,
        r is Ok <==> read_package(old(pkg)@, buffer@).1 is Some,
        r matches Ok(n) ==> read_package(old(pkg)@, buffer@).1 == Some(n as int),
        r matches Err(e) ==> e == 1,
{
    match read_package_into(
        buffer,
        &mut pkg.version,
        &mut pkg.mime_type,
        &mut pkg.encrypted_data,
        &mut pkg.sign,
    ) {
        Some(n) => Ok(n),
        None => Err(1),
    }
}

// ---------------------------------------------------------------------------
// Pre-structured packages
// ---------------------------------------------------------------------------

/// Writes a field at `off`.
fn put_field(
    buf: &mut [u8],
    off: usize,
    f: &PreStructuredField,
    Ghost(orig): Ghost<Seq<u8>>,
    Ghost(w): Ghost<Seq<u8>>,
) -> (next: usize)
    requires
        old(buf)@ == spliced(orig, w),
        orig.len() <= usize::MAX,
        off == w.len(),
        w.len() + field_bytes(f@).len() <= orig.len(),
    ensures
        final(buf)@ == spliced(orig, w + field_bytes(f@)),
        next == off + field_bytes(f@).len(),
{
    let name = bytes32_as_slice(&f.name);
    let desc = bytes64_as_slice(&f.description);
    let value = bytes128_as_slice(&f.value);
    let code = f.field_type.code();
    put_byte(buf, off, code, Ghost(orig), Ghost(w));
    let ghost w1 = w.push(code);
    put_blob8(buf, off + 1, name, Ghost(orig), Ghost(w1));
    let ghost w2 = w1 + blob8(name@);
    let o2 = off + 1 + 1 + name.len();
    put_blob8(buf, o2, desc, Ghost(orig), Ghost(w2));
    let ghost w3 = w2 + blob8(desc@);
    let o3 = o2 + 1 + desc.len();
    put_blob16(buf, o3, value, Ghost(orig), Ghost(w3));
    assert(w3 + blob16(value@) =~= w + field_bytes(f@));
    o3 + 2 + value.len()
}

/// Writes the pre-structured package at the start of `buffer`: the number of
/// fields, then the fields in order. Returns the number of bytes written, or
/// `Err(1)` when the buffer is too short. A buffer too short for the next
/// field keeps the count and the fields written before it.
pub fn ppsp_serialize(ppsp: &ParagonPreStructuredPackage, buffer: &mut [u8]) -> (r: Result<
    usize,
    u8,
>)
    ensures
        r is Ok <==> 1 + fields_bytes(ppsp@).len() <= old(buffer)@.len(),
        r matches Ok(n) ==> n == ppsp_bytes(ppsp@).len() && final(buffer)@ == spliced(
            old(buffer)@,
            ppsp_bytes(ppsp@),
        ),
        r matches Err(e) ==> e == 1,
        r is Err && old(buffer)@.len() < 1 ==> final(buffer)@ == old(buffer)@,
        r is Err && old(buffer)@.len() >= 1 ==> exists|k: int|
            0 <= k < ppsp@.len() && 1 + fields_bytes(ppsp@.take(k)).len() <= old(buffer)@.len() < 1
                + fields_bytes(ppsp@.take(k + 1)).len() && final(buffer)@ == spliced(
                old(buffer)@,
                seq![ppsp@.len() as u8] + fields_bytes(ppsp@.take(k)),
            ),
{
    let ghost fs = ppsp@;
    let ghost orig = buffer@;
    let fields = field_list_as_slice(&ppsp.fields);
    assert(forall|i: int| 0 <= i < fields@.len() ==> fs[i] == (#[trigger] fields@[i])@);
    if buffer.len() < 1 {
        return Err(1);
    }
    if fields.len() > 255 {
        return Err(1);
    }
    assert(spliced(orig, Seq::empty()) =~= orig);
    put_byte(buffer, 0, fields.len() as u8, Ghost(orig), Ghost(Seq::empty()));
    let ghost head = seq![fs.len() as u8];
    reveal(fields_bytes);
    assert(Seq::<u8>::empty().push(fs.len() as u8) =~= head + fields_bytes(fs.take(0)));
    let mut offset: usize = 1;
    let mut i: usize = 0;
    while i < fields.len()
        invariant
            fs == ppsp@,
            orig == old(buffer)@,
            fs.len() == fields@.len(),
            fields@.len() <= 16,
            forall|j: int| 0 <= j < fields@.len() ==> fs[j] == (#[trigger] fields@[j])@,
            orig.len() == buffer@.len(),
            orig.len() <= usize::MAX,
            head == seq![fs.len() as u8],
            i <= fields@.len(),
            offset == 1 + fields_bytes(fs.take(i as int)).len(),
            offset <= orig.len(),
            buffer@ == spliced(orig, head + fields_bytes(fs.take(i as int))),
        decreases fields@.len() - i,
    {
        let f = &fields[i];
        let name = bytes32_as_slice(&f.name);
        let desc = bytes64_as_slice(&f.description);
        let value = bytes128_as_slice(&f.value);
        let need = 1 + 1 + name.len() + 1 + desc.len() + 2 + value.len();
        proof {
            lemma_fields_bytes_take(fs, i as int);
        }
        if need > buffer.len() - offset {
            proof {
                lemma_fields_bytes_take(fs, fs.len() as int);
                assert(fs.take(fs.len() as int) =~= fs);
            }
            return Err(1);
        }
        offset = put_field(buffer, offset, f, Ghost(orig), Ghost(head + fields_bytes(fs.take(i as int))));
        i += 1;
        assert(head + fields_bytes(fs.take((i - 1) as int)) + field_bytes(fs[i - 1]) =~= head
            + fields_bytes(fs.take(i as int)));
    }
    assert(fs.take(fs.len() as int) =~= fs);
    Ok(offset)
}

/// The field at `off`, read into a new record, and the offset after it.
fn read_field_at(buf: &[u8], off: usize) -> (r: Option<(PreStructuredField, usize)>)
    ensures
        r is Some <==> read_field(buf@, off as int) is Some,
        r matches Some((f, next)) ==> read_field(buf@, off as int) == Some((f@, next as int)),
{
    reveal(read_field);
    if off >= buf.len() {
        return None;
    }
    let field_type = match FieldType::from_code(buf[off]) {
        Some(t) => t,
        None => return None,
    };
    let mut name = bytes32_from_slice(slice_subrange(buf, 0, 0)).unwrap();
    let o1 = match read8_into32(buf, off + 1, &mut name) {
        Some(o) => o,
        None => return None,
    };
    let mut description = bytes64_from_slice(slice_subrange(buf, 0, 0)).unwrap();
    let o2 = match read8_into64(buf, o1, &mut description) {
        Some(o) => o,
        None => return None,
    };
    let mut value = bytes128_from_slice(slice_subrange(buf, 0, 0)).unwrap();
    let o3 = match read16_into128(buf, o2, &mut value) {
        Some(o) => o,
        None => return None,
    };
    let f = PreStructuredField { name, description, field_type, value };
    Some((f, o3))
}

/// Reads a pre-structured package from the start of `buffer` into `ppsp`.
/// Its old fields are dropped and the fields read are appended one by one,
/// up to the 16 it can hold; the result is `Ok(())` when all the announced
/// fields were read, `Err(1)` otherwise.
pub fn ppsp_deserialize(buffer: &[u8], ppsp: &mut ParagonPreStructuredPackage) -> (r: Result<(), u8>)
    ensures
        final(ppsp)@ == read_ppsp(old(ppsp)@, buffer@).0,
        r is Ok <==> read_ppsp(old(ppsp)@, buffer@).1,
        r matches Err(e) ==> e == 1,
{
    if buffer.len() < 1 {
        return Err(1);
    }
    let n = buffer[0] as usize;
    let ghost cap: nat = if n <= 16 {
        n as nat
    } else {
        16
    };
    ppsp.fields = field_list_new();
    assert(ppsp@ =~= Seq::<FieldView>::empty());
    let mut offset: usize = 1;
    let mut i: usize = 0;
    while i < n
        invariant
            buffer@.len() >= 1,
            n == buffer@[0] as nat,
            cap == (if n <= 16 { n as nat } else { 16 }),
            i <= n,
            i <= 16,
            read_fields(buffer@, i as nat) == Some((ppsp@, offset as int)),
            ppsp@.len() == i,
        decreases n - i,
    {
        match read_field_at(buffer, offset) {
            None => {
                proof {
                    lemma_fields_readable(buffer@, i as nat, cap);
                }
                return Err(1);
            },
            Some((f, next)) => {
                let ghost before = field_list(ppsp.fields);
                let ghost fv = f@;
                if !field_list_push(&mut ppsp.fields, f) {
                    assert(read_fields(buffer@, 16) is Some);
                    return Err(1);
                }
                assert(ppsp@ =~= before.map_values(|g: PreStructuredField| g@).push(fv));
                offset = next;
            },
        }
        i += 1;
    }
    Ok(())
}

// ---------------------------------------------------------------------------
// The rule on a frame's packages
// ---------------------------------------------------------------------------

/// Whether two byte strings are equal.
fn bytes_equal(a: &[u8], b: &[u8]) -> (r: bool)
    ensures
        r == (a@ == b@),
{
    if a.len() != b.len() {
        return false;
    }
    let mut i: usize = 0;
    while i < a.len()
        invariant
            a@.len() == b@.len(),
            i <= a@.len(),
            forall|j: int| 0 <= j < i ==> a@[j] == b@[j],
        decreases a@.len() - i,
    {
        if a[i] != b[i] {
            return false;
        }
        i += 1;
    }
    assert(a@ =~= b@);
    true
}

/// Whether two pre-structured packages have the same field types, names and
/// descriptions in the same order.
fn same_fields_structure(a: &ParagonPreStructuredPackage, b: &ParagonPreStructuredPackage) -> (r: bool)
    ensures
        r == same_structure(a@, b@),
{
    let fa = field_list_as_slice(&a.fields);
    let fb = field_list_as_slice(&b.fields);
    if fa.len() != fb.len() {
        return false;
    }
    let mut i: usize = 0;
    while i < fa.len()
        invariant
            fa@ == field_list(a.fields),
            fb@ == field_list(b.fields),
            fa@.len() == fb@.len(),
            i <= fa@.len(),
            forall|j: int|
                0 <= j < i ==> {
                    &&& (#[trigger] a@[j]).field_type == b@[j].field_type
                    &&& a@[j].name == b@[j].name
                    &&& a@[j].description == b@[j].description
                },
        decreases fa@.len() - i,
    {
        let f = &fa[i];
        let g = &fb[i];
        assert(a@[i as int] == f@ && b@[i as int] == g@);
        if f.field_type != g.field_type {
            return false;
        }
        if !bytes_equal(bytes32_as_slice(&f.name), bytes32_as_slice(&g.name)) {
            return false;
        }
        if !bytes_equal(bytes64_as_slice(&f.description), bytes64_as_slice(&g.description)) {
            return false;
        }
        i += 1;
    }
    true
}

/// Checks the rule on a frame's packages: either no package announces a
/// pre-structured payload (`application/vnd.paragon.ppsp`), or all do, and
/// then each payload must read as a pre-structured package (else
/// `Err(7)`, `InvalidPpsp`) with the fields of the first (else `Err(6)`,
/// `StructuralMismatch`); the first offending package decides. Mixing both
/// kinds gives `Err(5)`, `InvalidPackageMix`.
pub fn validate_dataframe_packages(df: &ParagonDataFrame) -> (r: Result<(), u8>)
    ensures
        r == check_packages(df@.packages),
{
    let ghost ps = df@.packages;
    let pkgs = package_list_as_slice(&df.packages);
    assert(forall|i: int| 0 <= i < pkgs@.len() ==> ps[i] == (#[trigger] pkgs@[i])@);
    if pkgs.len() == 0 {
        return Ok(());
    }
    let mut ppsp_total: usize = 0;
    let mut i: usize = 0;
    while i < pkgs.len()
        invariant
            ps.len() == pkgs@.len(),
            pkgs@.len() <= 16,
            forall|j: int| 0 <= j < pkgs@.len() ==> ps[j] == (#[trigger] pkgs@[j])@,
            i <= pkgs@.len(),
            ppsp_total == ppsp_count(ps.take(i as int)),
            ppsp_total <= i,
        decreases pkgs@.len() - i,
    {
        assert(ps.take(i + 1).drop_last() =~= ps.take(i as int));
        if bytes_equal(bytes64_as_slice(&pkgs[i].mime_type), PPSP_MIME_TYPE.as_slice()) {
            ppsp_total += 1;
        }
        i += 1;
    }
    assert(ps.take(ps.len() as int) =~= ps);
    if ppsp_total > 0 && ppsp_total < pkgs.len() {
        return Err(5);
    }
    if ppsp_total > 0 {
        let mut reference: Option<ParagonPreStructuredPackage> = None;
        let mut i: usize = 0;
        while i < pkgs.len()
            invariant
                ps == df@.packages,
                ps.len() == pkgs@.len(),
                ps.len() > 0,
                forall|j: int| 0 <= j < pkgs@.len() ==> ps[j] == (#[trigger] pkgs@[j])@,
                i <= pkgs@.len(),
                ppsp_check_upto(ps, i as nat) is Ok,
                check_packages(ps) == ppsp_check_upto(ps, ps.len()),
                i == 0 <==> reference is None,
                reference matches Some(r) ==> ppsp_content(ps[0].data) == Some(r@),
            decreases pkgs@.len() - i,
        {
            let mut ppsp = ParagonPreStructuredPackage { fields: field_list_new() };
            assert(ppsp@ =~= Seq::<FieldView>::empty());
            let data = bytes4096_as_slice(&pkgs[i].encrypted_data);
            match ppsp_deserialize(data, &mut ppsp) {
                Ok(()) => {},
                Err(_) => {
                    proof {
                        lemma_check_stuck(ps, (i + 1) as nat, ps.len());
                    }
                    return Err(7);
                },
            }
            let mismatch = match &reference {
                None => false,
                Some(r) => !same_fields_structure(&ppsp, r),
            };
            if mismatch {
                proof {
                    lemma_check_stuck(ps, (i + 1) as nat, ps.len());
                }
                return Err(6);
            }
            if reference.is_none() {
                reference = Some(ppsp);
            }
            i += 1;
        }
    }
    Ok(())
}

// ---------------------------------------------------------------------------
// Frames
// ---------------------------------------------------------------------------

/// Writes the packages of a frame, each behind its two-byte length, right
/// after the count byte. Stops at the first package of more than 4096 bytes
/// or that does not fit, leaving what was written before it.
fn put_frames(
    buffer: &mut [u8],
    pkgs: &[ParagonPackageEncrypted],
    Ghost(ps): Ghost<Seq<PackageView>>,
    Ghost(orig): Ghost<Seq<u8>>,
    Ghost(head): Ghost<Seq<u8>>,
) -> (r: Option<usize>)
    requires
        old(buffer)@ == spliced(orig, head),
        orig.len() <= usize::MAX,
        head.len() == 1,
        1 <= orig.len(),
        ps.len() == pkgs@.len(),
        forall|j: int| 0 <= j < pkgs@.len() ==> ps[j] == (#[trigger] pkgs@[j])@,
    ensures
        r matches Some(off) ==> {
            &&& off == 1 + frames_bytes(ps).len()
            &&& off <= orig.len()
            &&& final(buffer)@ == spliced(orig, head + frames_bytes(ps))
            &&& forall|j: int| 0 <= j < ps.len() ==> package_len(#[trigger] ps[j]) <= 4096
        },
        r is None ==> exists|k: int|
            frames_stop_at(ps, k, orig.len()) && final(buffer)@ == spliced(
                orig,
                head + frames_bytes(ps.take(k)),
            ),
{
    reveal(frames_bytes);
    assert(head =~= head + frames_bytes(ps.take(0)));
    let mut offset: usize = 1;
    let mut i: usize = 0;
    while i < pkgs.len()
        invariant
            ps.len() == pkgs@.len(),
            forall|j: int| 0 <= j < pkgs@.len() ==> ps[j] == (#[trigger] pkgs@[j])@,
            orig.len() == buffer@.len(),
            orig.len() <= usize::MAX,
            head.len() == 1,
            i <= pkgs@.len(),
            forall|j: int| 0 <= j < i ==> package_len(#[trigger] ps[j]) <= 4096,
            offset == 1 + frames_bytes(ps.take(i as int)).len(),
            offset <= orig.len(),
            buffer@ == spliced(orig, head + frames_bytes(ps.take(i as int))),
        decreases pkgs@.len() - i,
    {
        let p = &pkgs[i];
        let mime = bytes64_as_slice(&p.mime_type);
        let data = bytes4096_as_slice(&p.encrypted_data);
        let sign = bytes64_as_slice(&p.sign);
        let n = 4 + 1 + mime.len() + 2 + data.len() + 1 + sign.len();
        proof {
            lemma_frames_bytes_take(ps, i as int);
        }
        assert(ps[i as int] == parts(p.version@, mime@, data@, sign@));
        if n > 4096 {
            assert(frames_stop_at(ps, i as int, orig.len()));
            return None;
        }
        if 2 + n > buffer.len() - offset {
            assert(frames_stop_at(ps, i as int, orig.len()));
            return None;
        }
        let ghost w = head + frames_bytes(ps.take(i as int));
        put_le16(buffer, offset, n, Ghost(orig), Ghost(w));
        let next = put_package(
            buffer,
            offset + 2,
            p.version.as_slice(),
            mime,
            data,
            sign,
            Ghost(orig),
            Ghost(w + le16_bytes(n as nat)),
        );
        assert(w + le16_bytes(n as nat) + package_bytes(ps[i as int]) =~= head + frames_bytes(
            ps.take(i + 1),
        ));
        offset = next;
        i += 1;
    }
    assert(ps.take(ps.len() as int) =~= ps);
    Some(offset)
}

/// Writes `df` at the start of `buffer` and its length into `out_len`,
/// returning 0. Before writing anything it checks the destination (4,
/// `InvalidDestination`) and the rule on packages (its code); then 1 when the
/// buffer is empty. A package of more than 4096 bytes, or a buffer too short
/// for the next package or for the tail, gives 1 with the count and the
/// packages written so far left in the buffer.
pub fn dataframe_serialize(df: &ParagonDataFrame, buffer: &mut [u8], out_len: &mut usize) -> (status: u8)
    ensures
        status == 0 <==> frame_sendable(df@) && dataframe_bytes(df@).len() <= old(buffer)@.len(),
        status == 0 ==> final(buffer)@ == spliced(old(buffer)@, dataframe_bytes(df@))
            && *final(out_len) == dataframe_bytes(df@).len(),
        status != 0 ==> *final(out_len) == *old(out_len),
        !is_valid_destination(df@.destination) ==> status == 4 && final(buffer)@ == old(buffer)@,
        is_valid_destination(df@.destination) && check_packages(df@.packages) is Err ==> status
            == check_packages(df@.packages)->Err_0 && final(buffer)@ == old(buffer)@,
        is_valid_destination(df@.destination) && check_packages(df@.packages) is Ok && status
            != 0 ==> status == 1,
        is_valid_destination(df@.destination) && check_packages(df@.packages) is Ok && old(
            buffer,
        )@.len() < 1 ==> final(buffer)@ == old(buffer)@,
        is_valid_destination(df@.destination) && check_packages(df@.packages) is Ok && old(
            buffer,
        )@.len() >= 1 && status == 1 ==> {
            ||| exists|k: int|
                frames_stop_at(df@.packages, k, old(buffer)@.len()) && final(buffer)@ == spliced(
                    old(buffer)@,
                    seq![df@.packages.len() as u8] + frames_bytes(df@.packages.take(k)),
                )
            ||| frame_sendable(df@) && 1 + frames_bytes(df@.packages).len() <= old(buffer)@.len()
                < dataframe_bytes(df@).len() && final(buffer)@ == spliced(
                old(buffer)@,
                seq![df@.packages.len() as u8] + frames_bytes(df@.packages),
            )
        },
{
    let ghost ps = df@.packages;
    let ghost orig = buffer@;
    let dest = bytes128_as_slice(&df.destination);
    if !validate_destination(dest) {
        return 4;
    }
    match validate_dataframe_packages(df) {
        Err(e) => {
            proof {
                lemma_check_codes(ps);
            }
            return e;
        },
        Ok(()) => {},
    }
    proof {
        lemma_dataframe_len(df@);
    }
    if buffer.len() < 1 {
        return 1;
    }
    let pkgs = package_list_as_slice(&df.packages);
    assert(forall|i: int| 0 <= i < pkgs@.len() ==> ps[i] == (#[trigger] pkgs@[i])@);
    assert(spliced(orig, Seq::empty()) =~= orig);
    proof {
        lemma_dataframe_len(df@);
    }
    put_byte(buffer, 0, pkgs.len() as u8, Ghost(orig), Ghost(Seq::empty()));
    let ghost head = seq![ps.len() as u8];
    assert(Seq::<u8>::empty().push(ps.len() as u8) =~= head);
    let offset = match put_frames(buffer, pkgs, Ghost(ps), Ghost(orig), Ghost(head)) {
        Some(o) => o,
        None => {
            proof {
                let k = choose|k: int|
                    frames_stop_at(ps, k, orig.len()) && buffer@ == spliced(
                        orig,
                        head + frames_bytes(ps.take(k)),
                    );
                lemma_frames_bytes_take(ps, k);
                if package_len(ps[k]) <= 4096 {
                    assert(dataframe_bytes(df@).len() > orig.len());
                } else {
                    assert(!frame_sendable(df@));
                }
            }
            return 1;
        },
    };
    let class = bytes64_as_slice(&df.class);
    if 1 + 1 + class.len() + 1 + dest.len() > buffer.len() - offset {
        return 1;
    }
    let ghost w = head + frames_bytes(ps);
    let code = df.enc.code();
    put_byte(buffer, offset, code, Ghost(orig), Ghost(w));
    put_blob8(buffer, offset + 1, class, Ghost(orig), Ghost(w.push(code)));
    let o2 = offset + 1 + 1 + class.len();
    put_blob8(buffer, o2, dest, Ghost(orig), Ghost(w.push(code) + blob8(class@)));
    reveal(dataframe_bytes);
    assert(w.push(code) + blob8(class@) + blob8(dest@) =~= dataframe_bytes(df@));
    *out_len = o2 + 1 + dest.len();
    0
}

/// Reads a frame from the start of `buffer` into `dataframe` and returns
/// its status, as `read_frame` says: 0 when the whole frame was read, its
/// destination is valid and its packages obey the rule; 1 when it is
/// malformed or holds more than the record can; 4 for an invalid
/// destination; the rule's code otherwise. The parts are read in order and
/// each is stored as far as it got.
pub fn dataframe_deserialize(buffer: &[u8], dataframe: &mut ParagonDataFrame) -> (status: u8)
    ensures
        final(dataframe)@ == read_frame(old(dataframe)@, buffer@).0,
        status == read_frame(old(dataframe)@, buffer@).1,
{
    reveal(read_frame);
    if buffer.len() < 1 {
        return 1;
    }
    let n = buffer[0] as usize;
    let ghost cap: nat = if n <= 16 {
        n as nat
    } else {
        16
    };
    let ghost old_df = dataframe@;
    dataframe.packages = package_list_new();
    assert(dataframe@.packages =~= Seq::<PackageView>::empty());
    let mut offset: usize = 1;
    let mut i: usize = 0;
    while i < n
        invariant
            buffer@.len() >= 1,
            n == buffer@[0] as nat,
            cap == (if n <= 16 { n as nat } else { 16 }),
            i <= n,
            i <= 16,
            read_frames(buffer@, i as nat) == Some((dataframe@.packages, offset as int)),
            dataframe@.packages.len() == i,
            dataframe@.class == old_df.class,
            dataframe@.destination == old_df.destination,
            dataframe@.enc == old_df.enc,
            old_df == old(dataframe)@,
        decreases n - i,
    {
        let (s, e) = match blob16_at(buffer, offset) {
            Some(r) => r,
            None => {
                proof {
                    reveal(read_frame);
                    lemma_frames_readable(buffer@, i as nat, cap);
                }
                return 1;
            },
        };
        let body = slice_subrange(buffer, s, e);
        let mut pkg = ParagonPackageEncrypted {
            version: [0, 0, 0, 0],
            mime_type: bytes64_from_slice(slice_subrange(buffer, 0, 0)).unwrap(),
            encrypted_data: bytes4096_from_slice(slice_subrange(buffer, 0, 0)).unwrap(),
            sign: bytes64_from_slice(slice_subrange(buffer, 0, 0)).unwrap(),
        };
        assert(pkg@ =~= blank_package());
        match package_encrypted_deserialize(body, &mut pkg) {
            Ok(_) => {},
            Err(_) => {
                proof {
                    reveal(read_frame);
                    lemma_frames_readable(buffer@, i as nat, cap);
                }
                return 1;
            },
        }
        let ghost before = package_list(dataframe.packages);
        let ghost pv = pkg@;
        if !package_list_push(&mut dataframe.packages, pkg) {
            proof {
                reveal(read_frame);
            }
            assert(read_frames(buffer@, 16) is Some);
            return 1;
        }
        assert(dataframe@.packages =~= before.map_values(|q: ParagonPackageEncrypted| q@).push(pv));
        offset = e;
        i += 1;
    }
    if offset >= buffer.len() {
        return 1;
    }
    let enc = match EncryptionType::from_code(buffer[offset]) {
        Some(e) => e,
        None => {
            return 1;
        },
    };
    dataframe.enc = enc;
    let o = match read8_into64(buffer, offset + 1, &mut dataframe.class) {
        Some(o) => o,
        None => {
            return 1;
        },
    };
    match read8_into128(buffer, o, &mut dataframe.destination) {
        Some(_) => {},
        None => {
            return 1;
        },
    }
    if !validate_destination(bytes128_as_slice(&dataframe.destination)) {
        return 4;
    }
    match validate_dataframe_packages(dataframe) {
        Err(e) => e,
        Ok(()) => 0,
    }
}

} // verus!
