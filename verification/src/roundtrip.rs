//! What one reads back of what one wrote: the encodings of the wire format
//! are read back exactly, whatever follows them and whatever the record held
//! before.
use vstd::prelude::*;
use crate::types::{
    EncryptionType, FieldType, FieldView, FrameView, Header, PackageView, MAGIC, VERSION,
};
use crate::validation::is_valid_destination;
use crate::wire::{
    blank_package, blob16, blob8, check_packages, dataframe_bytes, field_bytes, field_wf,
    fields_bytes, fields_readable, fields_wf, frame_sendable, frame_wf, framed, frames_bytes,
    frames_readable, header_bytes, header_of, header_status, le16_bytes, le16_value, le32_bytes,
    le32_value, package_bytes, package_len, package_wf, ppsp_bytes, ppsp_check_upto, read_blob16,
    read_blob8, read_field, read_fields, read_frame, read_frames, read_package, read_ppsp,
};

verus! {

/// A one-byte-length string is read back from where it was written.
pub proof fn lemma_blob8_roundtrip(pre: Seq<u8>, b: Seq<u8>, rest: Seq<u8>)
    requires
        b.len() < 256,
    ensures
        read_blob8(pre + blob8(b) + rest, pre.len() as int) == Some(
            (b, pre.len() + 1int + b.len()),
        ),
{
    let buf = pre + blob8(b) + rest;
    assert(buf[pre.len() as int] == b.len() as u8);
    assert(buf.subrange(pre.len() + 1int, pre.len() + 1int + b.len()) =~= b);
}

/// Two little-endian bytes give back the length they were made of.
pub proof fn lemma_le16(n: nat)
    requires
        n < 65536,
    ensures
        le16_value(le16_bytes(n)[0], le16_bytes(n)[1]) == n,
{
    assert(n / 256 < 256);
    assert((n % 256) + 256 * (n / 256) == n);
}

/// A two-byte-length string is read back from where it was written.
pub proof fn lemma_blob16_roundtrip(pre: Seq<u8>, b: Seq<u8>, rest: Seq<u8>)
    requires
        b.len() < 65536,
    ensures
        read_blob16(pre + blob16(b) + rest, pre.len() as int) == Some(
            (b, pre.len() + 2int + b.len()),
        ),
{
    let buf = pre + blob16(b) + rest;
    lemma_le16(b.len());
    assert(buf[pre.len() as int] == le16_bytes(b.len())[0]);
    assert(buf[pre.len() + 1int] == le16_bytes(b.len())[1]);
    assert(buf.subrange(pre.len() + 2int, pre.len() + 2int + b.len()) =~= b);
}

/// Reading a package whose three strings were each read whole and fit.
proof fn lemma_read_package_whole(
    old: PackageView,
    buf: Seq<u8>,
    p: PackageView,
    o1: int,
    o2: int,
    o3: int,
)
    requires
        buf.len() >= 4,
        buf.take(4) == p.version,
        read_blob8(buf, 4) == Some((p.mime_type, o1)),
        p.mime_type.len() <= 64,
        read_blob16(buf, o1) == Some((p.data, o2)),
        p.data.len() <= 4096,
        read_blob8(buf, o2) == Some((p.sign, o3)),
        p.sign.len() <= 64,
    ensures
        read_package(old, buf) == (p, Some(o3)),
{
    reveal(read_package);
}

/// A package reads back as itself, taking exactly its own bytes, whatever
/// follows it and whatever the record held before.
pub proof fn lemma_package_roundtrip(p: PackageView, old: PackageView, rest: Seq<u8>)
    requires
        package_wf(p),
    ensures
        read_package(old, package_bytes(p) + rest) == (p, Some(package_len(p) as int)),
{
    let buf = package_bytes(p) + rest;
    let m = blob8(p.mime_type);
    let d = blob16(p.data);
    let s = blob8(p.sign);
    assert(buf =~= p.version + m + (d + s + rest));
    assert(buf.take(4) =~= p.version);
    lemma_blob8_roundtrip(p.version, p.mime_type, d + s + rest);
    let pre1 = p.version + m;
    assert(buf =~= pre1 + d + (s + rest));
    lemma_blob16_roundtrip(pre1, p.data, s + rest);
    let pre2 = pre1 + d;
    assert(buf =~= pre2 + s + rest);
    lemma_blob8_roundtrip(pre2, p.sign, rest);
    lemma_read_package_whole(
        old,
        buf,
        p,
        5int + p.mime_type.len(),
        7int + p.mime_type.len() + p.data.len(),
        package_len(p) as int,
    );
}

/// The encoding of a list of fields is the encodings of its two halves, one
/// after the other.
pub proof fn lemma_fields_bytes_append(a: Seq<FieldView>, b: Seq<FieldView>)
    ensures
        fields_bytes(a + b) == fields_bytes(a) + fields_bytes(b),
    decreases b.len(),
{
    reveal(fields_bytes);
    if b.len() == 0 {
        assert(a + b =~= a);
        assert(fields_bytes(a) + fields_bytes(b) =~= fields_bytes(a));
    } else {
        lemma_fields_bytes_append(a, b.drop_last());
        assert((a + b).drop_last() =~= a + b.drop_last());
        assert((a + b).last() == b.last());
        assert(fields_bytes(a) + fields_bytes(b.drop_last()) + field_bytes(b.last()) =~= fields_bytes(a)
            + fields_bytes(b));
    }
}

/// The encoding of the first `k + 1` fields extends that of the first `k`
/// by one field, and never outgrows the encoding of the whole list.
pub proof fn lemma_fields_bytes_take(fs: Seq<FieldView>, k: int)
    requires
        0 <= k <= fs.len(),
    ensures
        k < fs.len() ==> fields_bytes(fs.take(k + 1)) == fields_bytes(fs.take(k)) + field_bytes(fs[k]),
        fields_bytes(fs.take(k)).len() <= fields_bytes(fs).len(),
        k < fs.len() ==> fields_bytes(fs.take(k + 1)).len() <= fields_bytes(fs).len(),
{
    reveal(fields_bytes);
    if k < fs.len() {
        assert(fs.take(k + 1).drop_last() =~= fs.take(k));
        lemma_fields_bytes_append(fs.take(k + 1), fs.skip(k + 1));
        assert(fs.take(k + 1) + fs.skip(k + 1) =~= fs);
    }
    lemma_fields_bytes_append(fs.take(k), fs.skip(k));
    assert(fs.take(k) + fs.skip(k) =~= fs);
}

/// Once a field cannot be read, no later count of fields can be read either.
pub proof fn lemma_read_fields_stuck(buf: Seq<u8>, i: nat, j: nat)
    requires
        i <= j,
        read_fields(buf, i) is None,
    ensures
        read_fields(buf, j) is None,
    decreases j,
{
    if j > i {
        lemma_read_fields_stuck(buf, i, (j - 1) as nat);
    }
}

/// Where exactly `i` fields can be read, at most `i` of any larger count are.
pub proof fn lemma_fields_readable(buf: Seq<u8>, i: nat, cap: nat)
    requires
        i <= cap,
        read_fields(buf, i) is Some,
        read_fields(buf, i + 1) is None,
    ensures
        fields_readable(buf, cap) == i,
    decreases cap,
{
    if cap > i {
        lemma_read_fields_stuck(buf, i + 1, cap);
        lemma_fields_readable(buf, i, (cap - 1) as nat);
    }
}

/// Reading a field whose type byte is valid and whose three strings were
/// each read whole and fit.
proof fn lemma_read_field_whole(buf: Seq<u8>, off: int, f: FieldView, o1: int, o2: int, o3: int)
    requires
        0 <= off < buf.len(),
        FieldType::spec_from_code(buf[off]) == Some(f.field_type),
        read_blob8(buf, off + 1) == Some((f.name, o1)),
        f.name.len() <= 32,
        read_blob8(buf, o1) == Some((f.description, o2)),
        f.description.len() <= 64,
        read_blob16(buf, o2) == Some((f.value, o3)),
        f.value.len() <= 128,
    ensures
        read_field(buf, off) == Some((f, o3)),
{
    reveal(read_field);
}

/// A field is read back from where it was written.
pub proof fn lemma_field_roundtrip(pre: Seq<u8>, f: FieldView, rest: Seq<u8>)
    requires
        field_wf(f),
    ensures
        read_field(pre + field_bytes(f) + rest, pre.len() as int) == Some(
            (f, pre.len() + field_bytes(f).len() as int),
        ),
{
    let buf = pre + field_bytes(f) + rest;
    let t = seq![f.field_type.spec_code()];
    let nb = blob8(f.name);
    let db = blob8(f.description);
    let vb = blob16(f.value);
    assert(buf[pre.len() as int] == f.field_type.spec_code());
    assert(FieldType::spec_from_code(f.field_type.spec_code()) == Some(f.field_type));
    let p1 = pre + t;
    assert(buf =~= p1 + nb + (db + vb + rest));
    lemma_blob8_roundtrip(p1, f.name, db + vb + rest);
    let p2 = p1 + nb;
    assert(buf =~= p2 + db + (vb + rest));
    lemma_blob8_roundtrip(p2, f.description, vb + rest);
    let p3 = p2 + db;
    assert(buf =~= p3 + vb + rest);
    lemma_blob16_roundtrip(p3, f.value, rest);
    lemma_read_field_whole(
        buf,
        pre.len() as int,
        f,
        p2.len() as int,
        p3.len() as int,
        p3.len() + 2int + f.value.len(),
    );
}

/// The first `k` fields of an encoded package are read back, ending where
/// their encoding ends.
pub proof fn lemma_read_fields_roundtrip(fs: Seq<FieldView>, rest: Seq<u8>, k: int)
    requires
        fields_wf(fs),
        0 <= k <= fs.len(),
    ensures
        read_fields(ppsp_bytes(fs) + rest, k as nat) == Some(
            (fs.take(k), 1 + fields_bytes(fs.take(k)).len() as int),
        ),
    decreases k,
{
    reveal(fields_bytes);
    let buf = ppsp_bytes(fs) + rest;
    if k == 0 {
        assert(fs.take(0) =~= Seq::<FieldView>::empty());
    } else {
        lemma_read_fields_roundtrip(fs, rest, k - 1);
        lemma_fields_bytes_take(fs, k - 1);
        lemma_fields_bytes_append(fs.take(k), fs.skip(k));
        assert(fs.take(k) + fs.skip(k) =~= fs);
        let pre = seq![fs.len() as u8] + fields_bytes(fs.take(k - 1));
        let tail = fields_bytes(fs.skip(k)) + rest;
        assert(buf =~= pre + field_bytes(fs[k - 1]) + tail);
        assert(field_wf(fs[k - 1]));
        lemma_field_roundtrip(pre, fs[k - 1], tail);
        assert(fs.take(k - 1).push(fs[k - 1]) =~= fs.take(k));
    }
}

/// A pre-structured package reads back as its fields, whatever follows it
/// and whatever the record held before.
pub proof fn lemma_ppsp_roundtrip(fs: Seq<FieldView>, old: Seq<FieldView>, rest: Seq<u8>)
    requires
        fields_wf(fs),
    ensures
        read_ppsp(old, ppsp_bytes(fs) + rest) == (fs, true),
{
    let buf = ppsp_bytes(fs) + rest;
    assert(buf[0] == fs.len() as u8);
    lemma_read_fields_roundtrip(fs, rest, fs.len() as int);
    assert(fs.take(fs.len() as int) =~= fs);
}

/// The first package that breaks the rule decides the outcome: checking
/// more packages after it does not change it.
pub proof fn lemma_check_stuck(ps: Seq<PackageView>, i: nat, j: nat)
    requires
        i <= j,
        ppsp_check_upto(ps, i) is Err,
    ensures
        ppsp_check_upto(ps, j) == ppsp_check_upto(ps, i),
    decreases j,
{
    if j > i {
        lemma_check_stuck(ps, i, (j - 1) as nat);
    }
}

/// Once a framed package cannot be read, no later count of them can be read.
pub proof fn lemma_read_frames_stuck(buf: Seq<u8>, i: nat, j: nat)
    requires
        i <= j,
        read_frames(buf, i) is None,
    ensures
        read_frames(buf, j) is None,
    decreases j,
{
    if j > i {
        lemma_read_frames_stuck(buf, i, (j - 1) as nat);
    }
}

/// Where exactly `i` framed packages can be read, at most `i` of any larger
/// count are.
pub proof fn lemma_frames_readable(buf: Seq<u8>, i: nat, cap: nat)
    requires
        i <= cap,
        read_frames(buf, i) is Some,
        read_frames(buf, i + 1) is None,
    ensures
        frames_readable(buf, cap) == i,
    decreases cap,
{
    if cap > i {
        lemma_read_frames_stuck(buf, i + 1, cap);
        lemma_frames_readable(buf, i, (cap - 1) as nat);
    }
}

/// The framing of a list of packages is the framings of its two halves, one
/// after the other.
pub proof fn lemma_frames_bytes_append(a: Seq<PackageView>, b: Seq<PackageView>)
    ensures
        frames_bytes(a + b) == frames_bytes(a) + frames_bytes(b),
    decreases b.len(),
{
    reveal(frames_bytes);
    if b.len() == 0 {
        assert(a + b =~= a);
        assert(frames_bytes(a) + frames_bytes(b) =~= frames_bytes(a));
    } else {
        lemma_frames_bytes_append(a, b.drop_last());
        assert((a + b).drop_last() =~= a + b.drop_last());
        assert((a + b).last() == b.last());
        assert(frames_bytes(a) + frames_bytes(b.drop_last()) + framed(b.last()) =~= frames_bytes(a)
            + frames_bytes(b));
    }
}

/// The framing of the first `k + 1` packages extends that of the first `k`
/// by one package, and never outgrows the framing of the whole list.
pub proof fn lemma_frames_bytes_take(ps: Seq<PackageView>, k: int)
    requires
        0 <= k <= ps.len(),
    ensures
        k < ps.len() ==> frames_bytes(ps.take(k + 1)) == frames_bytes(ps.take(k)) + framed(ps[k]),
        frames_bytes(ps.take(k)).len() <= frames_bytes(ps).len(),
        k < ps.len() ==> frames_bytes(ps.take(k + 1)).len() <= frames_bytes(ps).len(),
{
    reveal(frames_bytes);
    if k < ps.len() {
        assert(ps.take(k + 1).drop_last() =~= ps.take(k));
        lemma_frames_bytes_append(ps.take(k + 1), ps.skip(k + 1));
        assert(ps.take(k + 1) + ps.skip(k + 1) =~= ps);
    }
    lemma_frames_bytes_append(ps.take(k), ps.skip(k));
    assert(ps.take(k) + ps.skip(k) =~= ps);
}

/// Checking packages one by one fails only with `StructuralMismatch` (6)
/// or `InvalidPpsp` (7).
pub proof fn lemma_check_upto_codes(ps: Seq<PackageView>, k: nat)
    ensures
        ppsp_check_upto(ps, k) matches Err(e) ==> e == 6 || e == 7,
    decreases k,
{
    if k > 0 {
        lemma_check_upto_codes(ps, (k - 1) as nat);
    }
}

/// The rule on packages fails only with `InvalidPackageMix` (5),
/// `StructuralMismatch` (6) or `InvalidPpsp` (7).
pub proof fn lemma_check_codes(ps: Seq<PackageView>)
    ensures
        check_packages(ps) matches Err(e) ==> 5 <= e <= 7,
{
    lemma_check_upto_codes(ps, ps.len());
}

/// The bytes after the packages of an encoded frame.
pub open spec fn frame_tail(df: FrameView) -> Seq<u8> {
    seq![df.enc.spec_code()] + blob8(df.class) + blob8(df.destination)
}

/// An encoded frame, cut around its `k`-th package.
proof fn lemma_frame_split(df: FrameView, rest: Seq<u8>, k: int)
    requires
        1 <= k <= df.packages.len(),
    ensures
        dataframe_bytes(df) + rest == (seq![df.packages.len() as u8] + frames_bytes(
            df.packages.take(k - 1),
        )) + blob16(package_bytes(df.packages[k - 1])) + (frames_bytes(df.packages.skip(k))
            + frame_tail(df) + rest),
{
    reveal(dataframe_bytes);
    let ps = df.packages;
    lemma_frames_bytes_take(ps, k - 1);
    lemma_frames_bytes_append(ps.take(k), ps.skip(k));
    assert(ps.take(k) + ps.skip(k) =~= ps);
    let a = seq![ps.len() as u8];
    let b = frames_bytes(ps.take(k - 1));
    let c = blob16(package_bytes(ps[k - 1]));
    let d = frames_bytes(ps.skip(k));
    let t = frame_tail(df);
    assert(framed(ps[k - 1]) =~= c);
    assert(frames_bytes(ps) == b + c + d);
    assert(dataframe_bytes(df) =~= a + frames_bytes(ps) + t);
    assert(a + (b + c + d) + t + rest =~= (a + b) + c + (d + t + rest));
}

/// One more framed package is read where its framing stands.
proof fn lemma_read_frames_step(
    buf: Seq<u8>,
    k: nat,
    prev: Seq<PackageView>,
    off: int,
    p: PackageView,
    next: int,
)
    requires
        k >= 1,
        read_frames(buf, (k - 1) as nat) == Some((prev, off)),
        read_blob16(buf, off) == Some((package_bytes(p), next)),
        read_package(blank_package(), package_bytes(p)) == (p, Some(package_len(p) as int)),
    ensures
        read_frames(buf, k) == Some((prev.push(p), next)),
{
}

/// The framed package at position `k - 1` of an encoded frame is read
/// back whole, from where the packages before it end.
proof fn lemma_frame_at(df: FrameView, rest: Seq<u8>, k: int)
    requires
        1 <= k <= df.packages.len(),
        package_wf(df.packages[k - 1]),
        package_len(df.packages[k - 1]) <= 4096,
    ensures
        read_blob16(dataframe_bytes(df) + rest, 1 + frames_bytes(df.packages.take(k - 1)).len() as int)
            == Some(
            (
                package_bytes(df.packages[k - 1]),
                1 + frames_bytes(df.packages.take(k)).len() as int,
            ),
        ),
{
    let ps = df.packages;
    let p = ps[k - 1];
    let body = package_bytes(p);
    let pre = seq![ps.len() as u8] + frames_bytes(ps.take(k - 1));
    let tail = frames_bytes(ps.skip(k)) + frame_tail(df) + rest;
    let buf = dataframe_bytes(df) + rest;
    lemma_frame_split(df, rest, k);
    assert(buf == pre + blob16(body) + tail);
    lemma_blob16_at(buf, pre, body, tail);
    lemma_frames_bytes_take(ps, k - 1);
    assert(framed(p) == blob16(body));
}

/// A two-byte-length string is read back from where it stands in `buf`.
proof fn lemma_blob16_at(buf: Seq<u8>, pre: Seq<u8>, b: Seq<u8>, rest: Seq<u8>)
    requires
        buf == pre + blob16(b) + rest,
        b.len() < 65536,
    ensures
        read_blob16(buf, pre.len() as int) == Some((b, pre.len() + 2int + b.len())),
{
    lemma_blob16_roundtrip(pre, b, rest);
}

/// The first `k` framed packages of an encoded frame are read back, ending
/// where their framing ends.
pub proof fn lemma_read_frames_roundtrip(df: FrameView, rest: Seq<u8>, k: int)
    requires
        forall|i: int| 0 <= i < df.packages.len() ==> package_wf(#[trigger] df.packages[i]),
        forall|i: int| 0 <= i < df.packages.len() ==> package_len(#[trigger] df.packages[i]) <= 4096,
        0 <= k <= df.packages.len(),
    ensures
        read_frames(dataframe_bytes(df) + rest, k as nat) == Some(
            (df.packages.take(k), 1 + frames_bytes(df.packages.take(k)).len() as int),
        ),
    decreases k,
{
    reveal(frames_bytes);
    let ps = df.packages;
    if k == 0 {
        assert(ps.take(0) =~= Seq::<PackageView>::empty());
    } else {
        lemma_read_frames_roundtrip(df, rest, k - 1);
        let p = ps[k - 1];
        assert(package_wf(p));
        assert(package_len(p) <= 4096);
        lemma_frame_at(df, rest, k);
        lemma_package_roundtrip(p, blank_package(), Seq::empty());
        assert(package_bytes(p) + Seq::<u8>::empty() =~= package_bytes(p));
        lemma_read_frames_step(
            dataframe_bytes(df) + rest,
            k as nat,
            ps.take(k - 1),
            1 + frames_bytes(ps.take(k - 1)).len() as int,
            p,
            1 + frames_bytes(ps.take(k)).len() as int,
        );
        assert(ps.take(k - 1).push(p) =~= ps.take(k));
    }
}

/// Where the parts of an encoded frame stand: its count byte, its packages
/// (read back whole), the encryption byte, and the class and destination
/// strings, the destination ending the frame.
proof fn lemma_frame_layout(df: FrameView, rest: Seq<u8>)
    requires
        frame_wf(df),
        frame_sendable(df),
    ensures
        ({
            let buf = dataframe_bytes(df) + rest;
            let o = 1 + frames_bytes(df.packages).len();
            let o2 = o + 2 + df.class.len();
            &&& buf[0] == df.packages.len() as u8
            &&& read_frames(buf, df.packages.len()) == Some((df.packages, o as int))
            &&& buf[o as int] == df.enc.spec_code()
            &&& read_blob8(buf, o + 1int) == Some((df.class, o2 as int))
            &&& read_blob8(buf, o2 as int) == Some(
                (df.destination, o2 + 1 + df.destination.len() as int),
            )
            &&& dataframe_bytes(df).len() == o2 + 1 + df.destination.len()
        }),
{
    reveal(dataframe_bytes);
    let ps = df.packages;
    let buf = dataframe_bytes(df) + rest;
    assert(buf[0] == ps.len() as u8);
    lemma_read_frames_roundtrip(df, rest, ps.len() as int);
    assert(ps.take(ps.len() as int) =~= ps);
    let off = 1 + frames_bytes(ps).len();
    let pre = seq![ps.len() as u8] + frames_bytes(ps);
    assert(pre.len() == off);
    assert(buf[off as int] == df.enc.spec_code());
    let pre1 = pre + seq![df.enc.spec_code()];
    assert(buf =~= pre1 + blob8(df.class) + (blob8(df.destination) + rest));
    lemma_blob8_roundtrip(pre1, df.class, blob8(df.destination) + rest);
    let pre2 = pre1 + blob8(df.class);
    assert(buf =~= pre2 + blob8(df.destination) + rest);
    lemma_blob8_roundtrip(pre2, df.destination, rest);
}

/// A frame that can be sent reads back as itself with status 0, whatever
/// follows it and whatever the record held before.
pub proof fn lemma_frame_roundtrip(df: FrameView, old: FrameView, rest: Seq<u8>)
    requires
        frame_wf(df),
        frame_sendable(df),
    ensures
        read_frame(old, dataframe_bytes(df) + rest) == (df, 0u8),
{
    lemma_frame_layout(df, rest);
    assert(EncryptionType::spec_from_code(df.enc.spec_code()) == Some(df.enc));
    reveal(read_frame);
    let r = read_frame(old, dataframe_bytes(df) + rest);
    assert(r.0 =~= df);
}

/// Reading a one-byte-length string out of the first `k` bytes: the same
/// string where it ends within them, nothing otherwise.
proof fn lemma_blob8_prefix(buf: Seq<u8>, k: int, off: int)
    requires
        0 <= k <= buf.len(),
    ensures
        read_blob8(buf.take(k), off) == (if read_blob8(buf, off) matches Some((_, e)) && e <= k {
            read_blob8(buf, off)
        } else {
            None
        }),
{
    let p = buf.take(k);
    if 0 <= off < k {
        assert(p[off] == buf[off]);
        if let Some((b, e)) = read_blob8(buf, off) {
            if e <= k {
                assert(p.subrange(off + 1, e) =~= buf.subrange(off + 1, e));
            }
        }
    }
}

/// Reading a two-byte-length string out of the first `k` bytes: the same
/// string where it ends within them, nothing otherwise.
proof fn lemma_blob16_prefix(buf: Seq<u8>, k: int, off: int)
    requires
        0 <= k <= buf.len(),
    ensures
        read_blob16(buf.take(k), off) == (if read_blob16(buf, off) matches Some((_, e)) && e
            <= k {
            read_blob16(buf, off)
        } else {
            None
        }),
{
    let p = buf.take(k);
    if 0 <= off && off + 2 <= k {
        assert(p[off] == buf[off]);
        assert(p[off + 1] == buf[off + 1]);
        if let Some((b, e)) = read_blob16(buf, off) {
            if e <= k {
                assert(p.subrange(off + 2, e) =~= buf.subrange(off + 2, e));
            }
        }
    }
}

/// Reading framed packages out of the first `k` bytes (at least one): the
/// same packages where they end within them, nothing otherwise.
proof fn lemma_read_frames_prefix(buf: Seq<u8>, k: int, j: nat)
    requires
        1 <= k <= buf.len(),
    ensures
        read_frames(buf.take(k), j) == (if read_frames(buf, j) matches Some((_, o)) && o <= k {
            read_frames(buf, j)
        } else {
            None
        }),
        read_frames(buf, j) matches Some((_, o)) ==> o >= 1,
    decreases j,
{
    if j > 0 {
        lemma_read_frames_prefix(buf, k, (j - 1) as nat);
        if let Some((ps, off)) = read_frames(buf, (j - 1) as nat) {
            lemma_blob16_prefix(buf, k, off);
        }
    }
}

/// Every strict prefix of a frame that can be sent is refused as
/// malformed (status 1): no frame reads back from fewer bytes than it was
/// written in.
pub proof fn lemma_frame_prefix_refused(df: FrameView, old: FrameView, k: int)
    requires
        frame_wf(df),
        frame_sendable(df),
        0 <= k < dataframe_bytes(df).len(),
    ensures
        read_frame(old, dataframe_bytes(df).take(k)).1 == 1,
{
    reveal(read_frame);
    let b = dataframe_bytes(df);
    let p = b.take(k);
    if k > 0 {
        lemma_frame_layout(df, Seq::empty());
        assert(b + Seq::<u8>::empty() =~= b);
        let n = df.packages.len();
        let o = 1 + frames_bytes(df.packages).len();
        let o2 = o + 2 + df.class.len();
        assert(p[0] == b[0]);
        lemma_read_frames_prefix(b, k, n);
        if o < k {
            assert(p[o as int] == b[o as int]);
            lemma_blob8_prefix(b, k, o + 1int);
            lemma_blob8_prefix(b, k, o2 as int);
        }
    }
}

/// Four little-endian bytes give back the number they were made of.
pub proof fn lemma_le32(n: u32)
    ensures
        le32_value(le32_bytes(n), 0) == n,
{
    let b = le32_bytes(n);
    assert(n % 256 + 256 * ((n / 256) % 256) + 65536 * ((n / 65536) % 256) + 16777216 * (n
        / 16777216) == n) by (bit_vector);
    assert(n / 16777216 < 256) by (bit_vector);
    assert(b[0] == n % 256);
    assert(b[1] == (n / 256) % 256);
    assert(b[2] == (n / 65536) % 256);
    assert(b[3] == n / 16777216);
}

/// A header reads back as itself, and is accepted exactly when it carries
/// the magic and the version of this protocol.
pub proof fn lemma_header_roundtrip(h: Header, rest: Seq<u8>)
    ensures
        header_of(header_bytes(h) + rest) == h,
        header_status(header_bytes(h) + rest) == (if h.magic != MAGIC {
            1u8
        } else if h.version != VERSION {
            2u8
        } else {
            0u8
        }),
{
    let buf = header_bytes(h) + rest;
    let m = le32_bytes(h.magic);
    let v = le16_bytes(h.version as nat);
    let f = le16_bytes(h.flags as nat);
    let p = le32_bytes(h.payload_len);
    lemma_le32(h.magic);
    lemma_le32(h.payload_len);
    lemma_le16(h.version as nat);
    lemma_le16(h.flags as nat);
    assert(buf.len() >= 12);
    assert(buf[0] == m[0] && buf[1] == m[1] && buf[2] == m[2] && buf[3] == m[3]);
    assert(buf[4] == v[0] && buf[5] == v[1]);
    assert(buf[6] == f[0] && buf[7] == f[1]);
    assert(buf[8] == p[0] && buf[9] == p[1] && buf[10] == p[2] && buf[11] == p[3]);
    assert(le32_value(buf, 0) == le32_value(m, 0));
    assert(le32_value(buf, 8) == le32_value(p, 0));
}

/// How many bytes a frame takes on the wire.
pub proof fn lemma_dataframe_len(df: FrameView)
    ensures
        dataframe_bytes(df).len() == 1 + frames_bytes(df.packages).len() + 3 + df.class.len()
            + df.destination.len(),
{
    reveal(dataframe_bytes);
}

/// A package read whole fits its record.
proof fn lemma_read_package_wf(old: PackageView, buf: Seq<u8>)
    requires
        read_package(old, buf).1 is Some,
    ensures
        package_wf(read_package(old, buf).0),
{
    reveal(read_package);
}

/// The framed packages read one after the other each fit their record.
proof fn lemma_read_frames_wf(buf: Seq<u8>, k: nat)
    requires
        read_frames(buf, k) is Some,
    ensures
        read_frames(buf, k).unwrap().0.len() == k,
        forall|i: int|
            0 <= i < k ==> package_wf(#[trigger] read_frames(buf, k).unwrap().0[i]),
    decreases k,
{
    if k > 0 {
        lemma_read_frames_wf(buf, (k - 1) as nat);
        let (ps, off) = read_frames(buf, (k - 1) as nat).unwrap();
        let (body, _) = read_blob16(buf, off).unwrap();
        lemma_read_package_wf(blank_package(), body);
    }
}

/// A frame that reading accepts (status 0) fits its record, goes to a valid
/// destination and obeys the rule on packages.
pub proof fn lemma_accepted_frame_is_valid(old: FrameView, buf: Seq<u8>)
    requires
        read_frame(old, buf).1 == 0,
    ensures
        frame_wf(read_frame(old, buf).0),
        is_valid_destination(read_frame(old, buf).0.destination),
        check_packages(read_frame(old, buf).0.packages) is Ok,
{
    reveal(read_frame);
    let n = buf[0] as nat;
    lemma_read_frames_wf(buf, n);
    assert(frames_readable(buf, n) == n);
    lemma_check_codes(read_frame(old, buf).0.packages);
}

} // verus!
