//! Which destinations a frame may be addressed to.
use vstd::prelude::*;

verus! {

/// ASCII `.`.
pub open spec fn is_dot(b: u8) -> bool {
    b == 46
}

/// An ASCII letter, an ASCII digit or a dot.
pub open spec fn is_destination_byte(b: u8) -> bool {
    (65 <= b <= 90) || (97 <= b <= 122) || (48 <= b <= 57) || is_dot(b)
}

/// A destination is a non-empty run of ASCII letters, digits and dots with
/// at least one dot, where no dot stands first, last, or next to another.
pub open spec fn is_valid_destination(d: Seq<u8>) -> bool {
    &&& d.len() > 0
    &&& forall|i: int| 0 <= i < d.len() ==> is_destination_byte(#[trigger] d[i])
    &&& !is_dot(d[0])
    &&& !is_dot(d[d.len() - 1])
    &&& forall|i: int| 0 <= i < d.len() - 1 ==> !(is_dot(#[trigger] d[i]) && is_dot(d[i + 1]))
    &&& exists|i: int| 0 <= i < d.len() && is_dot(#[trigger] d[i])
}

/// Whether `destination` is a well-formed dotted address such as `node.service`.
pub fn validate_destination(destination: &[u8]) -> (ok: bool)
    ensures
        ok == is_valid_destination(destination@),
{
    let d = destination;
    let n = d.len();
    if n == 0 {
        return false;
    }
    let mut has_dot = false;
    let mut prev_was_dot = false;
    let mut i: usize = 0;
    while i < n
        invariant
            d@ == destination@,
            n == d@.len(),
            n > 0,
            i <= n,
            forall|j: int| 0 <= j < i ==> is_destination_byte(#[trigger] d@[j]),
            forall|j: int|
                0 <= j < i && is_dot(#[trigger] d@[j]) ==> j != 0 && j != n - 1 && !is_dot(
                    d@[j - 1],
                ),
            has_dot <==> exists|j: int| 0 <= j < i && is_dot(#[trigger] d@[j]),
            prev_was_dot <==> (i > 0 && is_dot(d@[i - 1])),
        decreases n - i,
    {
        let byte = d[i];
        assert(byte == d@[i as int]);
        let is_upper = 65 <= byte && byte <= 90;
        let is_lower = 97 <= byte && byte <= 122;
        let is_digit = 48 <= byte && byte <= 57;
        let dot = byte == 46;
        if !is_upper && !is_lower && !is_digit && !dot {
            assert(!is_destination_byte(d@[i as int]));
            assert(!(forall|j: int| 0 <= j < d@.len() ==> is_destination_byte(#[trigger] d@[j])));
            return false;
        }
        if dot {
            if prev_was_dot || i == 0 || i == n - 1 {
                proof {
                    if prev_was_dot {
                        let k = (i - 1) as int;
                        assert(is_dot(d@[k]) && is_dot(d@[k + 1]));
                        assert(!(forall|j: int|
                            0 <= j < d@.len() - 1 ==> !(is_dot(#[trigger] d@[j]) && is_dot(d@[j + 1]))));
                    }
                }
                return false;
            }
            has_dot = true;
            prev_was_dot = true;
        } else {
            prev_was_dot = false;
        }
        i += 1;
    }
    proof {
        if has_dot {
            assert forall|j: int| 0 <= j < n - 1 implies !(is_dot(#[trigger] d@[j]) && is_dot(
                d@[j + 1],
            )) by {
                if is_dot(d@[j]) && is_dot(d@[j + 1]) {
                    assert(!is_dot(d@[(j + 1) - 1]));
                }
            }
            if is_dot(d@[0]) {
                assert(false);
            }
            if is_dot(d@[n - 1]) {
                assert(false);
            }
        }
    }
    has_dot
}

} // verus!
