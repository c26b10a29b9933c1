//! Index data of a triangle mesh.
use vstd::prelude::*;
use vstd::string::StringSliceAdditionalSpecFns;

verus! {

/// One corner of a mesh face: 0-based indices into the mesh's vertex positions, texture
/// coordinates and vertex normals.
#[derive(Clone, Copy, Debug, PartialEq, Eq)]
pub struct FaceVertexIndices {
    pub vert: usize,
    pub tex: usize,
    pub norm: usize,
}

pub open spec fn is_digit(b: u8) -> bool {
    48 <= b <= 57
}

/// The number that a string of decimal digits spells.
pub open spec fn digits_value(s: Seq<u8>) -> int
    decreases s.len(),
{
    if s.len() == 0 {
        0
    } else {
        digits_value(s.drop_last()) * 10 + (s.last() - 48)
    }
}

/// `s` without its leading `+`, if it has one.
pub open spec fn unsigned_part(s: Seq<u8>) -> Seq<u8> {
    if s.len() > 0 && s[0] == 43 { s.drop_first() } else { s }
}

pub open spec fn all_digits(s: Seq<u8>) -> bool {
    forall|i: int| 0 <= i < s.len() ==> is_digit(#[trigger] s[i])
}

/// A decimal number as `usize::from_str` reads it: an optional `+`, then one or more digits
/// whose value fits in `usize`.
pub open spec fn decimal_value(s: Seq<u8>) -> Option<int> {
    let d = unsigned_part(s);
    if d.len() > 0 && all_digits(d) && digits_value(d) <= usize::MAX {
        Some(digits_value(d))
    } else {
        None
    }
}

/// The 0-based index that a field of a face record gives: one less than the 1-based number it
/// holds (`0` wraps around to `usize::MAX`, which no mesh can hold), or 0 where it holds no
/// number.
pub open spec fn field_index(s: Seq<u8>) -> usize {
    match decimal_value(s) {
        Some(v) => if v == 0 { usize::MAX } else { (v - 1) as usize },
        None => 0,
    }
}

/// Position of the first `/` at or after `from`, or the length of `s` if there is none.
pub open spec fn next_slash(s: Seq<u8>, from: int) -> int
    decreases s.len() - from,
{
    if from >= s.len() {
        s.len() as int
    } else if s[from] == 47 {
        from
    } else {
        next_slash(s, from + 1)
    }
}

/// The three fields of a face corner `v/vt/vn`: the text before the first `/`, between the
/// first and the second, and after the second; a field that is not there is empty.
pub open spec fn corner_fields(s: Seq<u8>) -> (Seq<u8>, Seq<u8>, Seq<u8>) {
    let a = next_slash(s, 0);
    if a >= s.len() {
        (s, Seq::empty(), Seq::empty())
    } else {
        let b = next_slash(s, a + 1);
        if b >= s.len() {
            (s.subrange(0, a), s.subrange(a + 1, s.len() as int), Seq::empty())
        } else {
            (s.subrange(0, a), s.subrange(a + 1, b), s.subrange(b + 1, s.len() as int))
        }
    }
}

/// The indices that a face corner such as `3/7/2` names.
pub open spec fn corner_indices(s: Seq<u8>) -> FaceVertexIndices {
    let (v, t, n) = corner_fields(s);
    FaceVertexIndices { vert: field_index(v), tex: field_index(t), norm: field_index(n) }
}

/// First `/` in `s` at or after `from`.
fn find_slash(s: &[u8], from: usize) -> (r: usize)
    requires
        from <= s@.len(),
    ensures
        r == next_slash(s@, from as int),
        from <= r <= s@.len(),
{
    let mut i = from;
    while i < s.len()
        invariant
            from <= i <= s@.len(),
            next_slash(s@, from as int) == next_slash(s@, i as int),
        decreases s@.len() - i,
    {
        if s[i] == 47 {
            return i;
        }
        i = i + 1;
    }
    i
}

/// Reads the decimal number in `s[start..end]` as `usize::from_str` does.
fn parse_decimal(s: &[u8], start: usize, end: usize) -> (r: Option<usize>)
    requires
        start <= end <= s@.len(),
    ensures
        r is Some <==> decimal_value(s@.subrange(start as int, end as int)) is Some,
        r matches Some(v) ==> decimal_value(s@.subrange(start as int, end as int)) == Some(v as int),
{
    let ghost whole = s@.subrange(start as int, end as int);
    let mut i = start;
    if i < end && s[i] == 43 {
        i = i + 1;
    }
    let first = i;
    let ghost d = s@.subrange(first as int, end as int);
    assert(d =~= unsigned_part(whole));
    if first == end {
        return None;
    }
    let mut value: usize = 0;
    let mut overflow = false;
    while i < end
        invariant
            first <= i <= end <= s@.len(),
            whole == s@.subrange(start as int, end as int),
            d == s@.subrange(first as int, end as int),
            d == unsigned_part(whole),
            forall|k: int| first <= k < i ==> is_digit(#[trigger] s@[k]),
            !overflow ==> value == digits_value(s@.subrange(first as int, i as int)),
            overflow ==> digits_value(s@.subrange(first as int, i as int)) > usize::MAX,
        decreases end - i,
    {
        let c = s[i];
        if c < 48 || c > 57 {
            assert(!is_digit(d[i - first]));
            return None;
        }
        let ghost prefix = s@.subrange(first as int, i + 1);
        assert(prefix.drop_last() =~= s@.subrange(first as int, i as int));
        let digit = (c - 48) as usize;
        if !overflow {
            if value > (usize::MAX - digit) / 10 {
                overflow = true;
            } else {
                value = value * 10 + digit;
            }
        }
        i = i + 1;
    }
    assert(s@.subrange(first as int, i as int) =~= d);
    if overflow {
        None
    } else {
        Some(value)
    }
}

/// The index that the field `s[start..end]` of a face record gives, as `field_index` states.
fn field_to_index(s: &[u8], start: usize, end: usize) -> (r: usize)
    requires
        start <= end <= s@.len(),
    ensures
        r == field_index(s@.subrange(start as int, end as int)),
{
    match parse_decimal(s, start, end) {
        Some(v) => if v == 0 {
            usize::MAX
        } else {
            v - 1
        },
        None => 0,
    }
}

/// Reads one corner of a face record, `v`, `v/vt` or `v/vt/vn`, into 0-based indices.
pub fn parse_face_vertex(token: &str) -> (r: FaceVertexIndices)
    ensures
        r == corner_indices(token.spec_bytes()),
{
    let s = token.as_bytes();
    let n = s.len();
    let a = find_slash(s, 0);
    let (b, c, d, e) = if a >= n {
        (n, n, n, n)
    } else {
        let b = find_slash(s, a + 1);
        if b >= n {
            (a + 1, n, n, n)
        } else {
            (a + 1, b, b + 1, n)
        }
    };
    let ghost bytes = s@;
    proof {
        assert(s@.subrange(n as int, n as int) =~= Seq::<u8>::empty());
        assert(s@.subrange(0, n as int) =~= s@);
    }
    FaceVertexIndices {
        vert: field_to_index(s, 0, a),
        tex: field_to_index(s, b, c),
        norm: field_to_index(s, d, e),
    }
}

} // verus!
