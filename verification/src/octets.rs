//! Bytes at positions.

use vstd::prelude::*;

verus! {

/// The byte at a position, or `-1` where there is none.
pub open spec fn byte_at(data: Seq<u8>, i: int) -> int {
    if 0 <= i < data.len() {
        data[i] as int
    } else {
        -1
    }
}

/// The byte at a position, and whether there is one.
pub fn peek(data: &[u8], i: usize) -> (r: Option<u8>)
    ensures
        r matches Some(b) ==> byte_at(data@, i as int) == b,
        r is None <==> byte_at(data@, i as int) == -1,
{
    if i < data.len() {
        Some(data[i])
    } else {
        None
    }
}

/// Whether the byte at a position is this one.
pub fn is_at(data: &[u8], i: usize, b: u8) -> (r: bool)
    ensures
        r == (byte_at(data@, i as int) == b),
{
    match peek(data, i) {
        Some(x) => x == b,
        None => false,
    }
}

/// A byte is found where there is one, and is the one that is there.
pub proof fn law_bytes_are_found_where_they_are(
    data: &[u8],
    i: usize,
    b: u8,
    found: Option<u8>,
    there: bool,
)
    requires
        call_ensures(peek, (data, i), found),
        call_ensures(is_at, (data, i, b), there),
    ensures
        found is Some <==> i < data@.len(),
        found is Some ==> found->0 == data@[i as int],
        there <==> found == Some(b),
{
}

} // verus!
