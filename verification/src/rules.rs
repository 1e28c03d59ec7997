//! The rules of the protocol, stated from first principles and proved of
//! the specifications the codecs are held to: which destinations are valid,
//! when packages of a frame agree, how large a framed package may be, and
//! which byte stands for which field type.
use vstd::prelude::*;
use crate::types::{FieldType, FieldView, FrameView, PackageView};
use crate::validation::is_valid_destination;
use crate::wire::{
    check_packages, field_bytes, frame_sendable, is_ppsp_package, package_len, ppsp_check_upto,
    ppsp_content, ppsp_count, read_field,
};

verus! {

/// An ASCII letter (`A`-`Z`, `a`-`z`) or an ASCII digit (`0`-`9`).
pub open spec fn is_ascii_alphanumeric(b: u8) -> bool {
    (48 <= b && b <= 57) || (65 <= b && b <= 90) || (97 <= b && b <= 122)
}

/// A non-empty run of ASCII letters and digits.
pub open spec fn is_segment(s: Seq<u8>) -> bool {
    s.len() > 0 && forall|i: int| 0 <= i < s.len() ==> is_ascii_alphanumeric(#[trigger] s[i])
}

/// Two segments joined by a dot form a valid destination: every ASCII
/// letter and digit may stand in one.
pub proof fn lemma_two_segments_valid(a: Seq<u8>, b: Seq<u8>)
    requires
        is_segment(a),
        is_segment(b),
    ensures
        is_valid_destination(a + seq![46u8] + b),
{
    let d = a + seq![46u8] + b;
    assert(d[a.len() as int] == 46);
    assert forall|i: int| 0 <= i < d.len() implies crate::validation::is_destination_byte(
        #[trigger] d[i],
    ) by {
        if i < a.len() {
            assert(d[i] == a[i]);
        } else if i > a.len() {
            assert(d[i] == b[i - a.len() - 1]);
        }
    }
    assert forall|i: int| 0 <= i < d.len() - 1 implies !(crate::validation::is_dot(#[trigger] d[i])
        && crate::validation::is_dot(d[i + 1])) by {
        if i < a.len() {
            assert(d[i] == a[i]);
        } else {
            assert(d[i + 1] == b[i + 1 - a.len() - 1]);
        }
    }
    assert(d[0] == a[0]);
    assert(d[d.len() - 1] == b[b.len() - 1]);
}

/// A valid destination followed by a dot and a segment is valid: any number
/// of segments may be chained.
pub proof fn lemma_append_segment_valid(d: Seq<u8>, s: Seq<u8>)
    requires
        is_valid_destination(d),
        is_segment(s),
    ensures
        is_valid_destination(d + seq![46u8] + s),
{
    let e = d + seq![46u8] + s;
    assert(e[d.len() as int] == 46);
    assert forall|i: int| 0 <= i < e.len() implies crate::validation::is_destination_byte(
        #[trigger] e[i],
    ) by {
        if i < d.len() {
            assert(e[i] == d[i]);
        } else if i > d.len() {
            assert(e[i] == s[i - d.len() - 1]);
        }
    }
    assert forall|i: int| 0 <= i < e.len() - 1 implies !(crate::validation::is_dot(#[trigger] e[i])
        && crate::validation::is_dot(e[i + 1])) by {
        if i < d.len() - 1 {
            assert(e[i] == d[i]);
            assert(e[i + 1] == d[i + 1]);
        } else if i == d.len() - 1 {
            assert(e[i] == d[d.len() - 1]);
        } else {
            assert(e[i + 1] == s[i + 1 - d.len() - 1]);
        }
    }
    assert(e[0] == d[0]);
    assert(e[e.len() - 1] == s[s.len() - 1]);
}

/// What a valid destination is made of: ASCII letters, digits and dots,
/// starting and ending with a letter or digit, with no two dots in a row and
/// at least one dot.
pub proof fn lemma_valid_destination_shape(d: Seq<u8>)
    requires
        is_valid_destination(d),
    ensures
        forall|i: int| 0 <= i < d.len() ==> is_ascii_alphanumeric(#[trigger] d[i]) || d[i] == 46,
        is_ascii_alphanumeric(d[0]),
        is_ascii_alphanumeric(d[d.len() - 1]),
        forall|i: int| 0 <= i < d.len() - 1 ==> !(#[trigger] d[i] == 46 && d[i + 1] == 46),
        exists|i: int| 0 <= i < d.len() && #[trigger] d[i] == 46,
{
    assert(crate::validation::is_destination_byte(d[0]));
    assert(crate::validation::is_destination_byte(d[d.len() - 1]));
    let i = choose|i: int| 0 <= i < d.len() && crate::validation::is_dot(#[trigger] d[i]);
    assert(d[i] == 46);
}

/// A destination without a dot, or holding a byte that is neither an ASCII
/// letter, an ASCII digit nor a dot, is invalid.
pub proof fn lemma_invalid_destinations(d: Seq<u8>)
    ensures
        (forall|i: int| 0 <= i < d.len() ==> #[trigger] d[i] != 46) ==> !is_valid_destination(d),
        (exists|i: int|
            0 <= i < d.len() && !is_ascii_alphanumeric(#[trigger] d[i]) && d[i] != 46)
            ==> !is_valid_destination(d),
{
    if is_valid_destination(d) {
        lemma_valid_destination_shape(d);
    }
}

/// A frame may be sent exactly when its destination is valid, its packages
/// obey the package rule, and every package takes at most 4096 bytes.
pub proof fn lemma_sendable_size_limit(df: FrameView)
    ensures
        frame_sendable(df) <==> {
            &&& is_valid_destination(df.destination)
            &&& check_packages(df.packages) is Ok
            &&& forall|i: int|
                0 <= i < df.packages.len() ==> #[trigger] package_len(df.packages[i]) <= 4096
        },
{
}

/// A frame holding a package of more than 4096 bytes cannot be sent; one
/// whose packages all take 4096 bytes or fewer is held back only by its
/// destination or the package rule.
pub proof fn lemma_oversized_package_unsendable(df: FrameView, i: int)
    requires
        0 <= i < df.packages.len(),
    ensures
        package_len(df.packages[i]) > 4096 ==> !frame_sendable(df),
        (forall|j: int| 0 <= j < df.packages.len() ==> #[trigger] package_len(df.packages[j]) <= 4096)
            && is_valid_destination(df.destination) && check_packages(df.packages) is Ok
            ==> frame_sendable(df),
{
}

/// Two field lists agree at every position in type, name and description,
/// and have the same length.
spec fn agrees_with(a: Seq<FieldView>, r: Seq<FieldView>) -> bool {
    &&& a.len() == r.len()
    &&& forall|k: int|
        0 <= k < r.len() ==> {
            &&& (#[trigger] a[k]).field_type == r[k].field_type
            &&& a[k].name == r[k].name
            &&& a[k].description == r[k].description
        }
}

proof fn lemma_all_ppsp_count(ps: Seq<PackageView>)
    requires
        forall|i: int| 0 <= i < ps.len() ==> is_ppsp_package(#[trigger] ps[i]),
    ensures
        ppsp_count(ps) == ps.len(),
    decreases ps.len(),
{
    if ps.len() > 0 {
        assert forall|i: int| 0 <= i < ps.drop_last().len() implies is_ppsp_package(
            #[trigger] ps.drop_last()[i],
        ) by {
            assert(ps.drop_last()[i] == ps[i]);
        }
        lemma_all_ppsp_count(ps.drop_last());
        assert(is_ppsp_package(ps[ps.len() - 1]));
    }
}

proof fn lemma_check_upto_agreement(ps: Seq<PackageView>, k: nat)
    requires
        0 < k <= ps.len(),
        forall|i: int| 0 <= i < ps.len() ==> (#[trigger] ppsp_content(ps[i].data)) is Some,
    ensures
        ppsp_check_upto(ps, k) is Ok <==> forall|i: int|
            0 <= i < k ==> agrees_with(
                #[trigger] ppsp_content(ps[i].data).unwrap(),
                ppsp_content(ps[0].data).unwrap(),
            ),
        ppsp_check_upto(ps, k) is Err ==> ppsp_check_upto(ps, k) == Err::<(), u8>(6),
    decreases k,
{
    let r = ppsp_content(ps[0].data).unwrap();
    assert(ppsp_content(ps[0].data) is Some);
    assert(agrees_with(r, r));
    if k == 1 {
        assert(ppsp_check_upto(ps, 0) is Ok);
        assert forall|i: int| 0 <= i < k implies agrees_with(
            #[trigger] ppsp_content(ps[i].data).unwrap(),
            r,
        ) by {
            assert(i == 0);
        }
    } else {
        lemma_check_upto_agreement(ps, (k - 1) as nat);
        let last = (k - 1) as int;
        assert(ppsp_content(ps[last].data) is Some);
        let fs = ppsp_content(ps[last].data).unwrap();
        if ppsp_check_upto(ps, (k - 1) as nat) is Ok {
            if agrees_with(fs, r) {
                assert forall|i: int| 0 <= i < k implies agrees_with(
                    #[trigger] ppsp_content(ps[i].data).unwrap(),
                    r,
                ) by {
                    if i < last {
                        assert(0 <= i < k - 1);
                    }
                }
            } else {
                assert(!crate::wire::same_structure(fs, r));
            }
        } else {
            assert(!agrees_with(ppsp_content(ps[0].data).unwrap(), r) || !(forall|i: int|
                0 <= i < k - 1 ==> agrees_with(
                    #[trigger] ppsp_content(ps[i].data).unwrap(),
                    r,
                )));
        }
    }
}

/// The package rule on a frame of pre-structured packages that all read:
/// it holds exactly when every package has as many fields as the first and,
/// at every position, a field of the same type, name and description; it
/// fails otherwise, and always with `StructuralMismatch` (6).
pub proof fn lemma_ppsp_structure_rule(ps: Seq<PackageView>)
    requires
        ps.len() > 0,
        forall|i: int| 0 <= i < ps.len() ==> is_ppsp_package(#[trigger] ps[i]),
        forall|i: int| 0 <= i < ps.len() ==> (#[trigger] ppsp_content(ps[i].data)) is Some,
    ensures
        check_packages(ps) is Ok <==> forall|i: int|
            0 <= i < ps.len() ==> {
                &&& (#[trigger] ppsp_content(ps[i].data)).unwrap().len() == ppsp_content(
                    ps[0].data,
                ).unwrap().len()
                &&& forall|k: int|
                    0 <= k < ppsp_content(ps[0].data).unwrap().len() ==> {
                        &&& (#[trigger] ppsp_content(ps[i].data).unwrap()[k]).field_type
                            == ppsp_content(ps[0].data).unwrap()[k].field_type
                        &&& ppsp_content(ps[i].data).unwrap()[k].name == ppsp_content(
                            ps[0].data,
                        ).unwrap()[k].name
                        &&& ppsp_content(ps[i].data).unwrap()[k].description == ppsp_content(
                            ps[0].data,
                        ).unwrap()[k].description
                    }
            },
        check_packages(ps) is Err ==> check_packages(ps) == Err::<(), u8>(6),
{
    lemma_all_ppsp_count(ps);
    lemma_check_upto_agreement(ps, ps.len());
}

/// Two pre-structured packages of a frame whose fields at some position
/// differ in name make the package rule fail with `StructuralMismatch` (6),
/// whatever their types, descriptions and values.
pub proof fn lemma_field_name_mismatch(ps: Seq<PackageView>, i: int, k: int)
    requires
        ps.len() > 0,
        forall|j: int| 0 <= j < ps.len() ==> is_ppsp_package(#[trigger] ps[j]),
        forall|j: int| 0 <= j < ps.len() ==> (#[trigger] ppsp_content(ps[j].data)) is Some,
        0 <= i < ps.len(),
        0 <= k < ppsp_content(ps[0].data).unwrap().len(),
        k < ppsp_content(ps[i].data).unwrap().len(),
        ppsp_content(ps[i].data).unwrap()[k].name != ppsp_content(ps[0].data).unwrap()[k].name,
    ensures
        check_packages(ps) == Err::<(), u8>(6),
{
    lemma_ppsp_structure_rule(ps);
    assert(ppsp_content(ps[i].data).unwrap()[k].name != ppsp_content(ps[0].data).unwrap()[k].name);
}

/// The byte that stands for a field's type on the wire: 1 for a string, 2
/// for an integer, 3 for a float, 4 for a boolean, 5 for bytes. It is the
/// first byte of the field's encoding.
pub proof fn lemma_field_type_on_the_wire(f: FieldView)
    ensures
        field_bytes(f)[0] == (match f.field_type {
            FieldType::String => 1u8,
            FieldType::Int => 2u8,
            FieldType::Float => 3u8,
            FieldType::Bool => 4u8,
            FieldType::Bytes => 5u8,
        }),
{
}

/// A field read from the wire has the type its first byte stands for (1 a
/// string, 2 an integer, 3 a float, 4 a boolean, 5 bytes); no other first
/// byte gives a field.
pub proof fn lemma_field_type_read(buf: Seq<u8>, off: int)
    requires
        read_field(buf, off) is Some,
    ensures
        0 <= off < buf.len(),
        1 <= buf[off] <= 5,
        read_field(buf, off).unwrap().0.field_type == (if buf[off] == 1 {
            FieldType::String
        } else if buf[off] == 2 {
            FieldType::Int
        } else if buf[off] == 3 {
            FieldType::Float
        } else if buf[off] == 4 {
            FieldType::Bool
        } else {
            FieldType::Bytes
        }),
{
    reveal(read_field);
}

} // verus!
