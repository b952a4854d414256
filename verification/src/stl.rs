//! STL files: telling the ASCII form from the binary one, checking a binary
//! file's triangle count against its length, and finding the vertex lines of
//! an ASCII file. Reading the coordinates, which are floating point, is left
//! to the caller.
use vstd::prelude::*;

use crate::text::{
    chars_of, eq_ignore_case, lines, lines_of, lower_vec, owned, split_whitespace, string_of, words,
    chars_eq,
};

verus! {

/// The bytes of `solid`, with which an ASCII STL file starts.
pub open spec fn solid_bytes() -> Seq<u8> {
    seq![0x73u8, 0x6fu8, 0x6cu8, 0x69u8, 0x64u8]
}

/// The bytes of `facet`.
pub open spec fn facet_bytes() -> Seq<u8> {
    seq![0x66u8, 0x61u8, 0x63u8, 0x65u8, 0x74u8]
}

/// Whether `facet` occurs in the first `limit` bytes.
pub open spec fn has_facet(b: Seq<u8>, limit: int) -> bool {
    exists|i: int| 0 <= i && i + 5 <= limit && #[trigger] b.subrange(i, i + 5) == facet_bytes()
}

/// Whether a file looks like ASCII STL: it starts with `solid` and its first
/// 512 bytes hold `facet`. (Read as text with invalid UTF-8 replaced, as the
/// check is written in text form, the ASCII bytes stay as they are, so
/// looking for the bytes is the same.)
pub open spec fn ascii_stl(b: Seq<u8>) -> bool {
    &&& b.len() >= 5
    &&& b.subrange(0, 5) == solid_bytes()
    &&& has_facet(
        b,
        if b.len() < 512 {
            b.len() as int
        } else {
            512
        },
    )
}

fn bytes_at(b: &[u8], i: usize, w: &[u8; 5]) -> (r: bool)
    requires
        i + 5 <= b@.len(),
    ensures
        r == (b@.subrange(i as int, i + 5) == w@),
{
    let mut j: usize = 0;
    while j < 5
        invariant
            i + 5 <= b.len(),
            j <= 5,
            forall|k: int| 0 <= k < j ==> b@[i + k] == w@[k],
        decreases 5 - j,
    {
        if b[i + j] != w[j] {
            assert(b@.subrange(i as int, i + 5)[j as int] != w@[j as int]);
            return false;
        }
        j += 1;
    }
    assert(b@.subrange(i as int, i + 5) =~= w@);
    true
}

pub fn looks_ascii_stl(bytes: &[u8]) -> (r: bool)
    ensures
        r == ascii_stl(bytes@),
{
    let solid: [u8; 5] = [0x73, 0x6f, 0x6c, 0x69, 0x64];
    let facet: [u8; 5] = [0x66, 0x61, 0x63, 0x65, 0x74];
    assert(solid@ =~= solid_bytes());
    assert(facet@ =~= facet_bytes());
    if bytes.len() < 5 || !bytes_at(bytes, 0, &solid) {
        return false;
    }
    let limit: usize = if bytes.len() < 512 {
        bytes.len()
    } else {
        512
    };
    let mut i: usize = 0;
    while i + 5 <= limit
        invariant
            i <= limit,
            bytes@.len() >= 5,
            bytes@.subrange(0, 5) == solid_bytes(),
            limit <= bytes@.len(),
            limit == (if bytes@.len() < 512 {
                bytes@.len()
            } else {
                512
            }),
            facet@ == facet_bytes(),
            forall|k: int| 0 <= k < i ==> #[trigger] bytes@.subrange(k, k + 5) != facet_bytes(),
        decreases limit - i,
    {
        if bytes_at(bytes, i, &facet) {
            assert(has_facet(bytes@, limit as int)) by {
                assert(bytes@.subrange(i as int, i + 5) == facet_bytes());
            }
            return true;
        }
        i += 1;
    }
    proof {
        assert forall|k: int| 0 <= k && k + 5 <= limit implies #[trigger] bytes@.subrange(k, k + 5)
            != facet_bytes() by {
            assert(k < i);
        }
    }
    false
}

// ---------------------------------------------------------------------------
// Binary STL
// ---------------------------------------------------------------------------

/// The triangle count of a binary STL file: the little-endian `u32` after
/// the 80-byte header.
pub open spec fn stl_count(b: Seq<u8>) -> nat {
    b[80] as nat + 256 * (b[81] as nat) + 65536 * (b[82] as nat) + 16777216 * (b[83] as nat)
}

/// Checks a binary STL file's length against its header: it must hold the
/// 84-byte header and 50 bytes for each triangle it announces. Gives the
/// triangle count, or the error for a file that is too small or truncated.
pub fn binary_stl_triangle_count(bytes: &[u8]) -> (r: Result<u32, String>)
    ensures
        match r {
            Ok(count) => bytes@.len() >= 84 && count == stl_count(bytes@) && bytes@.len() >= 84
                + 50 * stl_count(bytes@),
            Err(m) => if bytes@.len() < 84 {
                m@ == "Binary STL is too small"@
            } else {
                bytes@.len() < 84 + 50 * stl_count(bytes@) && m@ == "Binary STL is truncated"@
            },
        },
{
    if bytes.len() < 84 {
        return Err(owned("Binary STL is too small"));
    }
    let count: u32 = bytes[80] as u32 + 256 * (bytes[81] as u32) + 65536 * (bytes[82] as u32)
        + 16777216 * (bytes[83] as u32);
    let expected: u128 = 84 + (count as u128) * 50;
    if (bytes.len() as u128) < expected {
        return Err(owned("Binary STL is truncated"));
    }
    Ok(count)
}

// ---------------------------------------------------------------------------
// ASCII STL
// ---------------------------------------------------------------------------

/// The coordinate fields of the vertex lines: lines of exactly four
/// whitespace-separated words whose first is `vertex` in any ASCII case.
pub open spec fn vertex_fields(ls: Seq<Seq<char>>) -> Seq<(Seq<char>, Seq<char>, Seq<char>)>
    decreases ls.len(),
{
    if ls.len() == 0 {
        seq![]
    } else {
        let prev = vertex_fields(ls.drop_last());
        let w = words(ls.last());
        if w.len() == 4 && eq_ignore_case(w[0], "vertex"@) {
            prev.push((w[1], w[2], w[3]))
        } else {
            prev
        }
    }
}

pub open spec fn fields_view(v: Seq<(String, String, String)>) -> Seq<
    (Seq<char>, Seq<char>, Seq<char>),
> {
    v.map_values(|f: (String, String, String)| (f.0@, f.1@, f.2@))
}

/// The x, y and z fields of each vertex line of an ASCII STL text, in order.
pub fn ascii_stl_vertex_fields(data: &str) -> (r: Vec<(String, String, String)>)
    ensures
        fields_view(r@) == vertex_fields(lines(data@)),
{
    let d = chars_of(data);
    let ls = lines_of(&d);
    let ghost lv = ls@.map_values(|l: Vec<char>| l@);
    let vertex = lower_vec(&chars_of("vertex"));
    let mut r: Vec<(String, String, String)> = Vec::new();
    let mut i: usize = 0;
    while i < ls.len()
        invariant
            i <= ls.len(),
            lv == ls@.map_values(|l: Vec<char>| l@),
            lv == lines(d@),
            vertex@ == crate::text::lower("vertex"@),
            fields_view(r@) == vertex_fields(lv.take(i as int)),
        decreases ls.len() - i,
    {
        let w = split_whitespace(&ls[i]);
        proof {
            assert(lv.take(i + 1).drop_last() == lv.take(i as int));
            assert(lv.take(i + 1).last() == ls@[i as int]@);
        }
        if w.len() == 4 {
            let ghost wv = w@.map_values(|x: Vec<char>| x@);
            assert(wv[0] == w@[0]@);
            if chars_eq(&lower_vec(&w[0]), &vertex) {
                let ghost before = fields_view(r@);
                let entry = (string_of(&w[1]), string_of(&w[2]), string_of(&w[3]));
                r.push(entry);
                proof {
                    assert(wv[1] == w@[1]@ && wv[2] == w@[2]@ && wv[3] == w@[3]@);
                    assert(fields_view(r@) =~= before.push((wv[1], wv[2], wv[3])));
                }
            }
        }
        i += 1;
    }
    assert(lv.take(ls.len() as int) == lv);
    r
}

} // verus!
