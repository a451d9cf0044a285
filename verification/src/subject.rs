//! Subjects that the NZB parser can be given. It takes a file name from the subject of a
//! file, and cuts that of a PAR2 file at the offset which `.vol` has in its lower case. Where
//! that offset falls inside a character, the parser fails: such subjects are told apart here.
//! Texts are the numbers of their characters.

use crate::octets::{byte_at, peek};
use vstd::prelude::*;
use vstd::slice::slice_subrange;

verus! {

/// How many bytes a character has in UTF-8 whose encoding starts with this byte, or 0 where
/// none does.
pub open spec fn encoded_width(lead: u8) -> int {
    if lead < 0x80 {
        1
    } else if 0xc2 <= lead <= 0xdf {
        2
    } else if 0xe0 <= lead <= 0xef {
        3
    } else if 0xf0 <= lead <= 0xf4 {
        4
    } else {
        0
    }
}

/// Whether a byte can stand right behind the first byte of an encoding.
pub open spec fn follows(lead: u8, b: int) -> bool {
    &&& 0x80 <= b <= 0xbf
    &&& lead == 0xe0 ==> b >= 0xa0
    &&& lead == 0xed ==> b <= 0x9f
    &&& lead == 0xf0 ==> b >= 0x90
    &&& lead == 0xf4 ==> b <= 0x8f
}

/// Whether a byte can stand further behind.
pub open spec fn goes_on(b: int) -> bool {
    0x80 <= b <= 0xbf
}

/// How many bytes of an encoding stand from here on. They are all of it where the next one
/// fits too.
pub open spec fn bytes_held(data: Seq<u8>, i: int) -> int {
    let w = encoded_width(data[i]);
    if w < 2 || !follows(data[i], byte_at(data, i + 1)) {
        1
    } else if w < 3 || !goes_on(byte_at(data, i + 2)) {
        2
    } else if w < 4 || !goes_on(byte_at(data, i + 3)) {
        3
    } else {
        4
    }
}

/// What stands for bytes that encode nothing.
pub open spec fn replacement() -> u32 {
    0xfffd
}

/// The number of the character that starts here.
pub open spec fn code_at(data: Seq<u8>, i: int) -> int {
    let w = encoded_width(data[i]);
    if w != bytes_held(data, i) {
        replacement() as int
    } else if w == 1 {
        data[i] as int
    } else if w == 2 {
        (data[i] - 0xc0) * 64 + (data[i + 1] - 0x80)
    } else if w == 3 {
        (data[i] - 0xe0) * 4096 + (data[i + 1] - 0x80) * 64 + (data[i + 2] - 0x80)
    } else {
        (data[i] - 0xf0) * 262144 + (data[i + 1] - 0x80) * 4096 + (data[i + 2] - 0x80) * 64 + (
        data[i + 3] - 0x80)
    }
}

/// The text that the bytes from here on encode, with what encodes nothing replaced.
pub open spec fn decoded(data: Seq<u8>, i: int) -> Seq<u32>
    decreases data.len() - i,
{
    if i < 0 || i >= data.len() {
        Seq::empty()
    } else {
        seq![code_at(data, i) as u32] + decoded(data, i + bytes_held(data, i))
    }
}

/// Whether all bytes from here on encode something.
pub open spec fn is_utf8(data: Seq<u8>, i: int) -> bool
    decreases data.len() - i,
{
    i < 0 || i >= data.len() || (encoded_width(data[i]) == bytes_held(data, i) && is_utf8(
        data,
        i + bytes_held(data, i),
    ))
}

/// The bytes of the encoding that stand from here on, and the number of its character.
fn read_code(data: &[u8], i: usize) -> (r: (usize, Option<u32>))
    requires
        i < data@.len(),
        data@.len() + 16 <= usize::MAX,
    ensures
        r.0 == bytes_held(data@, i as int),
        i + r.0 <= data@.len(),
        r.1 is Some <==> encoded_width(data@[i as int]) == r.0,
        r.1 matches Some(c) ==> c == code_at(data@, i as int),
{
    let lead: u8 = data[i];
    if lead < 0x80 {
        return (1, Some(lead as u32));
    }
    let b: u32 = match peek(data, i + 1) {
        Some(b) if 0x80 <= b && b <= 0xbf && !(lead == 0xe0 && b < 0xa0) && !(lead == 0xed && b
            > 0x9f) && !(lead == 0xf0 && b < 0x90) && !(lead == 0xf4 && b > 0x8f) => b as u32,
        _ => {
            return (1, None);
        },
    };
    if lead < 0xc2 || lead > 0xf4 {
        return (1, None);
    }
    if lead < 0xe0 {
        return (2, Some((lead as u32 - 0xc0) * 64 + (b - 0x80)));
    }
    let c: u32 = match peek(data, i + 2) {
        Some(c) if 0x80 <= c && c <= 0xbf => c as u32,
        _ => {
            return (2, None);
        },
    };
    if lead < 0xf0 {
        return (3, Some((lead as u32 - 0xe0) * 4096 + (b - 0x80) * 64 + (c - 0x80)));
    }
    match peek(data, i + 3) {
        Some(d) if 0x80 <= d && d <= 0xbf => {
            let last: u32 = d as u32 - 0x80;
            (4, Some((lead as u32 - 0xf0) * 262144 + (b - 0x80) * 4096 + (c - 0x80) * 64 + last))
        },
        _ => (3, None),
    }
}

/// The text that bytes encode, with what encodes nothing replaced, and whether all of them
/// encode something.
fn decode(data: &[u8]) -> (r: (Vec<u32>, bool))
    requires
        data@.len() + 16 <= usize::MAX,
    ensures
        r.0@ == decoded(data@, 0),
        r.1 == is_utf8(data@, 0),
{
    let mut text: Vec<u32> = Vec::new();
    let mut whole = true;
    let mut i: usize = 0;
    while i < data.len()
        invariant
            i <= data@.len(),
            data@.len() + 16 <= usize::MAX,
            decoded(data@, 0) == text@ + decoded(data@, i as int),
            is_utf8(data@, 0) == (whole && is_utf8(data@, i as int)),
        decreases data@.len() - i,
    {
        let (held, code) = read_code(data, i);
        let c: u32 = match code {
            Some(c) => c,
            None => 0xfffd,
        };
        if code.is_none() {
            whole = false;
        }
        text.push(c);
        assert(decoded(data@, 0) =~= text@ + decoded(data@, i + held));
        i += held;
    }
    assert(text@ + decoded(data@, i as int) =~= text@);
    (text, whole)
}

/// The value of a digit in base ten or sixteen, or `-1` where it is none.
pub open spec fn digit_value(c: u32, base: int) -> int {
    if 0x30 <= c <= 0x39 {
        c - 0x30
    } else if base == 16 && 0x41 <= c <= 0x46 {
        c - 0x37
    } else if base == 16 && 0x61 <= c <= 0x66 {
        c - 0x57
    } else {
        -1
    }
}

/// The number that digits make up, or `-1` where one of them is none. Beyond the last
/// character it stays.
pub open spec fn number_in(s: Seq<u32>, base: int) -> int
    decreases s.len(),
{
    if s.len() == 0 {
        0
    } else {
        let before = number_in(s.drop_last(), base);
        let d = digit_value(s.last(), base);
        if before < 0 || d < 0 {
            -1
        } else if before > 0x10_ffff {
            before
        } else {
            before * base + d
        }
    }
}

/// The character that a reference with this name stands for, or `-1` where there is none.
pub open spec fn referenced(name: Seq<u32>) -> int {
    if name.len() > 0 && name[0] == 0x23 {
        let n = if name.len() > 1 && name[1] == 0x78 {
            number_in(name.skip(2), 16)
        } else {
            number_in(name.skip(1), 10)
        };
        if 0 < n < 0xd800 || 0xdfff < n <= 0x10_ffff {
            n
        } else {
            -1
        }
    } else if name =~= seq![0x6cu32, 0x74] {
        0x3c
    } else if name =~= seq![0x67u32, 0x74] {
        0x3e
    } else if name =~= seq![0x61u32, 0x6d, 0x70] {
        0x26
    } else if name =~= seq![0x61u32, 0x70, 0x6f, 0x73] {
        0x27
    } else if name =~= seq![0x71u32, 0x75, 0x6f, 0x74] {
        0x22
    } else {
        -1
    }
}

/// The first position from here on that holds one of two characters, or the end.
pub open spec fn position_of(s: Seq<u32>, i: int, a: u32, b: u32) -> int
    decreases s.len() - i,
{
    if i < 0 || i >= s.len() {
        s.len() as int
    } else if s[i] == a || s[i] == b {
        i
    } else {
        position_of(s, i + 1, a, b)
    }
}

/// The position lies between where the search starts and the end.
pub proof fn lemma_position_of(s: Seq<u32>, i: int, a: u32, b: u32)
    requires
        0 <= i <= s.len(),
    ensures
        i <= position_of(s, i, a, b) <= s.len(),
    decreases s.len() - i,
{
    if i < s.len() {
        lemma_position_of(s, i + 1, a, b);
    }
}

/// The text from here on with what its references stand for, where it is well formed: an
/// ampersand starts a reference, which ends at the next semicolon.
pub open spec fn unescaped(s: Seq<u32>, i: int) -> Option<Seq<u32>>
    decreases s.len() - i,
{
    if i < 0 || i >= s.len() {
        Some(Seq::empty())
    } else if s[i] != 0x26 {
        match unescaped(s, i + 1) {
            Some(rest) => Some(seq![s[i]] + rest),
            None => None,
        }
    } else {
        let end = position_of(s, i + 1, 0x26, 0x3b);
        proof {
            lemma_position_of(s, i + 1, 0x26, 0x3b);
        }
        if end >= s.len() || s[end] != 0x3b || referenced(s.subrange(i + 1, end)) < 0 {
            None
        } else {
            match unescaped(s, end + 1) {
                Some(rest) => Some(seq![referenced(s.subrange(i + 1, end)) as u32] + rest),
                None => None,
            }
        }
    }
}

/// The text that the value of an attribute is: what its references stand for, or the text
/// as it stands where it is not well formed.
pub open spec fn value_text(data: Seq<u8>) -> Seq<u32> {
    match unescaped(decoded(data, 0), 0) {
        Some(text) if is_utf8(data, 0) => text,
        _ => decoded(data, 0),
    }
}

fn find(s: &[u32], from: usize, a: u32, b: u32) -> (r: usize)
    requires
        from <= s@.len(),
    ensures
        r == position_of(s@, from as int, a, b),
        from <= r <= s@.len(),
{
    let mut i: usize = from;
    while i < s.len() && s[i] != a && s[i] != b
        invariant
            from <= i <= s@.len(),
            position_of(s@, from as int, a, b) == position_of(s@, i as int, a, b),
        decreases s@.len() - i,
    {
        i += 1;
    }
    i
}

fn read_number(s: &[u32], base: u32) -> (r: Option<u32>)
    requires
        base == 10 || base == 16,
    ensures
        r matches Some(n) ==> number_in(s@, base as int) == n,
        r is None ==> number_in(s@, base as int) < 0,
{
    let mut n: u32 = 0;
    let mut bad = false;
    let mut i: usize = 0;
    while i < s.len()
        invariant
            i <= s@.len(),
            base == 10 || base == 16,
            n < 0x0200_0000,
            bad ==> number_in(s@.take(i as int), base as int) == -1,
            !bad ==> number_in(s@.take(i as int), base as int) == n,
        decreases s@.len() - i,
    {
        assert(s@.take(i + 1).drop_last() =~= s@.take(i as int));
        let c: u32 = s[i];
        if 0x30 <= c && c <= 0x39 {
            if !bad && n <= 0x10_ffff {
                n = n * base + (c - 0x30);
            }
        } else if base == 16 && 0x41 <= c && c <= 0x46 {
            if !bad && n <= 0x10_ffff {
                n = n * base + (c - 0x37);
            }
        } else if base == 16 && 0x61 <= c && c <= 0x66 {
            if !bad && n <= 0x10_ffff {
                n = n * base + (c - 0x57);
            }
        } else {
            bad = true;
        }
        i += 1;
    }
    assert(s@.take(i as int) =~= s@);
    if bad {
        None
    } else {
        Some(n)
    }
}

fn resolve(name: &[u32]) -> (r: Option<u32>)
    ensures
        r matches Some(c) ==> referenced(name@) == c,
        r is None ==> referenced(name@) == -1,
{
    let k: usize = name.len();
    if k > 0 && name[0] == 0x23 {
        let number = if k > 1 && name[1] == 0x78 {
            assert(name@.skip(2) =~= name@.subrange(2, k as int));
            read_number(slice_subrange(name, 2, k), 16)
        } else {
            assert(name@.skip(1) =~= name@.subrange(1, k as int));
            read_number(slice_subrange(name, 1, k), 10)
        };
        return match number {
            Some(n) if (0 < n && n < 0xd800) || (0xdfff < n && n <= 0x10_ffff) => Some(n),
            _ => None,
        };
    }
    if k == 2 && name[0] == 0x6c && name[1] == 0x74 {
        Some(0x3c)
    } else if k == 2 && name[0] == 0x67 && name[1] == 0x74 {
        Some(0x3e)
    } else if k == 3 && name[0] == 0x61 && name[1] == 0x6d && name[2] == 0x70 {
        Some(0x26)
    } else if k == 4 && name[0] == 0x61 && name[1] == 0x70 && name[2] == 0x6f && name[3] == 0x73 {
        Some(0x27)
    } else if k == 4 && name[0] == 0x71 && name[1] == 0x75 && name[2] == 0x6f && name[3] == 0x74 {
        Some(0x22)
    } else {
        None
    }
}

fn unescape(s: &[u32]) -> (r: Option<Vec<u32>>)
    ensures
        r matches Some(text) ==> unescaped(s@, 0) == Some(text@),
        r is None ==> unescaped(s@, 0) is None,
{
    let mut text: Vec<u32> = Vec::new();
    let mut i: usize = 0;
    while i < s.len()
        invariant
            i <= s@.len(),
            unescaped(s@, 0) == (match unescaped(s@, i as int) {
                Some(rest) => Some(text@ + rest),
                None => None,
            }),
        decreases s@.len() - i,
    {
        let ghost before = text@;
        if s[i] != 0x26 {
            text.push(s[i]);
            proof {
                if let Some(rest) = unescaped(s@, i + 1) {
                    assert(before + (seq![s@[i as int]] + rest) =~= text@ + rest);
                }
            }
            i += 1;
        } else {
            let end: usize = find(s, i + 1, 0x26, 0x3b);
            if end == s.len() || s[end] != 0x3b {
                return None;
            }
            match resolve(slice_subrange(s, i + 1, end)) {
                Some(c) => {
                    text.push(c);
                    proof {
                        if let Some(rest) = unescaped(s@, end + 1) {
                            assert(before + (seq![c] + rest) =~= text@ + rest);
                        }
                    }
                    i = end + 1;
                },
                None => {
                    return None;
                },
            }
        }
    }
    assert(text@ + Seq::<u32>::empty() =~= text@);
    Some(text)
}

fn read_value(data: &[u8]) -> (r: Vec<u32>)
    requires
        data@.len() + 16 <= usize::MAX,
    ensures
        r@ == value_text(data@),
{
    let (text, whole) = decode(data);
    if !whole {
        return text;
    }
    match unescape(text.as_slice()) {
        Some(t) => t,
        None => text,
    }
}

/// Whether a character is white space.
pub open spec fn is_blank(c: u32) -> bool {
    ||| 0x09 <= c <= 0x0d
    ||| c == 0x20 || c == 0x85 || c == 0xa0 || c == 0x1680
    ||| 0x2000 <= c <= 0x200a
    ||| c == 0x2028 || c == 0x2029 || c == 0x202f || c == 0x205f || c == 0x3000
}

/// Whether a character has no place in a file name: a control character or one of
/// `<>:"|?*\`.
pub open spec fn is_stripped(c: u32) -> bool {
    ||| c < 0x20 || 0x7f <= c <= 0x9f
    ||| c == 0x3c || c == 0x3e || c == 0x3a || c == 0x22
    ||| c == 0x7c || c == 0x3f || c == 0x2a || c == 0x5c
}

/// The position of the last `c`, or `-1` where there is none.
pub open spec fn last_of(s: Seq<u32>, c: u32) -> int
    decreases s.len(),
{
    if s.len() == 0 {
        -1
    } else if s.last() == c {
        s.len() - 1
    } else {
        last_of(s.drop_last(), c)
    }
}

/// The position of the first character that is no white space, or the end.
pub open spec fn blanks(s: Seq<u32>, i: int) -> int
    decreases s.len() - i,
{
    if 0 <= i < s.len() && is_blank(s[i]) {
        blanks(s, i + 1)
    } else {
        i
    }
}

/// The text without white space at its end.
pub open spec fn without_blanks(s: Seq<u32>) -> Seq<u32>
    decreases s.len(),
{
    if s.len() > 0 && is_blank(s.last()) {
        without_blanks(s.drop_last())
    } else {
        s
    }
}

/// The text without white space at either end.
pub open spec fn trimmed(s: Seq<u32>) -> Seq<u32> {
    without_blanks(s.skip(blanks(s, 0)))
}

/// The text without full stops at its end.
pub open spec fn without_stops(s: Seq<u32>) -> Seq<u32>
    decreases s.len(),
{
    if s.len() > 0 && s.last() == 0x2e {
        without_stops(s.drop_last())
    } else {
        s
    }
}

/// The text without what has no place in a file name.
pub open spec fn stripped(s: Seq<u32>) -> Seq<u32>
    decreases s.len(),
{
    if s.len() == 0 {
        s
    } else if is_stripped(s.last()) {
        stripped(s.drop_last())
    } else {
        stripped(s.drop_last()).push(s.last())
    }
}

/// The part of a subject that names the file: what stands in double quotes, else the last
/// word before the last bracket, or all before it, whichever has a full stop, else the
/// whole subject.
pub open spec fn named_part(s: Seq<u32>) -> Seq<u32> {
    let open = position_of(s, 0, 0x22, 0x22);
    let close = position_of(s, open + 1, 0x22, 0x22);
    let bracket = last_of(s, 0x28);
    let before = trimmed(s.take(bracket));
    let word = before.skip(last_of(before, 0x20) + 1);
    if close < s.len() {
        s.subrange(open + 1, close)
    } else if bracket >= 0 && last_of(word, 0x2e) >= 0 {
        word
    } else if bracket >= 0 && last_of(before, 0x2e) >= 0 {
        before
    } else {
        s
    }
}

/// The file name in a subject.
pub open spec fn file_name(s: Seq<u32>) -> Seq<u32> {
    without_stops(trimmed(stripped(named_part(s))))
}

fn blank(c: u32) -> (r: bool)
    ensures
        r == is_blank(c),
{
    (0x09 <= c && c <= 0x0d) || c == 0x20 || c == 0x85 || c == 0xa0 || c == 0x1680 || (0x2000 <= c
        && c <= 0x200a) || c == 0x2028 || c == 0x2029 || c == 0x202f || c == 0x205f || c == 0x3000
}

/// The position behind the last `c`, or 0 where there is none.
fn behind_last(s: &[u32], c: u32) -> (r: usize)
    ensures
        r == last_of(s@, c) + 1,
        r <= s@.len(),
{
    let mut k: usize = s.len();
    assert(s@.take(k as int) =~= s@);
    while k > 0 && s[k - 1] != c
        invariant
            k <= s@.len(),
            last_of(s@, c) == last_of(s@.take(k as int), c),
        decreases k,
    {
        assert(s@.take(k as int).drop_last() =~= s@.take(k - 1));
        k -= 1;
    }
    k
}

fn trim(s: &[u32]) -> (r: &[u32])
    ensures
        r@ == trimmed(s@),
{
    let mut from: usize = 0;
    while from < s.len() && blank(s[from])
        invariant
            from <= s@.len(),
            blanks(s@, 0) == blanks(s@, from as int),
        decreases s@.len() - from,
    {
        from += 1;
    }
    let mut to: usize = s.len();
    let ghost rest = s@.skip(from as int);
    assert(s@.subrange(from as int, to as int) =~= rest);
    while to > from && blank(s[to - 1])
        invariant
            from <= to <= s@.len(),
            without_blanks(rest) == without_blanks(s@.subrange(from as int, to as int)),
        decreases to,
    {
        assert(s@.subrange(from as int, to as int).drop_last() =~= s@.subrange(
            from as int,
            to - 1,
        ));
        to -= 1;
    }
    slice_subrange(s, from, to)
}

fn strip(s: &[u32]) -> (r: Vec<u32>)
    ensures
        r@ == stripped(s@),
{
    let mut r: Vec<u32> = Vec::new();
    let mut i: usize = 0;
    while i < s.len()
        invariant
            i <= s@.len(),
            r@ == stripped(s@.take(i as int)),
        decreases s@.len() - i,
    {
        assert(s@.take(i + 1).drop_last() =~= s@.take(i as int));
        let c: u32 = s[i];
        if !(c < 0x20 || (0x7f <= c && c <= 0x9f) || c == 0x3c || c == 0x3e || c == 0x3a || c
            == 0x22 || c == 0x7c || c == 0x3f || c == 0x2a || c == 0x5c) {
            r.push(c);
        }
        i += 1;
    }
    assert(s@.take(i as int) =~= s@);
    r
}

fn find_name(s: &[u32]) -> (r: &[u32])
    ensures
        r@ == named_part(s@),
{
    let open: usize = find(s, 0, 0x22, 0x22);
    if open < s.len() {
        let close: usize = find(s, open + 1, 0x22, 0x22);
        if close < s.len() {
            return slice_subrange(s, open + 1, close);
        }
    }
    let bracket: usize = behind_last(s, 0x28);
    if bracket > 0 {
        assert(s@.subrange(0, bracket - 1) =~= s@.take(last_of(s@, 0x28)));
        let before = trim(slice_subrange(s, 0, bracket - 1));
        let from: usize = behind_last(before, 0x20);
        let word = slice_subrange(before, from, before.len());
        assert(word@ =~= before@.skip(from as int));
        if behind_last(word, 0x2e) > 0 {
            return word;
        }
        if behind_last(before, 0x2e) > 0 {
            return before;
        }
    }
    s
}

fn read_name(s: &[u32]) -> (r: Vec<u32>)
    ensures
        r@ == file_name(s@),
{
    let whole = strip(find_name(s));
    let name = trim(whole.as_slice());
    let mut k: usize = name.len();
    assert(name@.take(k as int) =~= name@);
    while k > 0 && name[k - 1] == 0x2e
        invariant
            k <= name@.len(),
            without_stops(name@) == without_stops(name@.take(k as int)),
        decreases k,
    {
        assert(name@.take(k as int).drop_last() =~= name@.take(k - 1));
        k -= 1;
    }
    let mut r: Vec<u32> = Vec::new();
    let mut i: usize = 0;
    while i < k
        invariant
            i <= k <= name@.len(),
            r@ == name@.take(i as int),
        decreases k - i,
    {
        r.push(name[i]);
        assert(r@ =~= name@.take(i + 1));
        i += 1;
    }
    r
}

/// How many bytes a character has in UTF-8.
pub open spec fn width(c: u32) -> int {
    if c < 0x80 {
        1
    } else if c < 0x800 {
        2
    } else if c < 0x1_0000 {
        3
    } else {
        4
    }
}

/// Whether a character has one byte more in lower case.
pub open spec fn grows(c: u32) -> bool {
    c == 0x130 || c == 0x23a || c == 0x23e
}

/// Whether a character has one byte less in lower case.
pub open spec fn shrinks(c: u32) -> bool {
    ||| c == 0x1e9e
    ||| c == 0x2c62 || c == 0x2c64 || 0x2c6d <= c <= 0x2c70 || c == 0x2c7e || c == 0x2c7f
    ||| c == 0xa78d || 0xa7aa <= c <= 0xa7ae || 0xa7b0 <= c <= 0xa7b2 || c == 0xa7c5
}

/// Whether a character may have one byte less in lower case: whether it has depends on the
/// version of Unicode.
pub open spec fn may_shrink(c: u32) -> bool {
    shrinks(c) || c == 0xa7cb || c == 0xa7dc
}

/// How many bytes a character has in lower case.
pub open spec fn lower_width(c: u32) -> int {
    if grows(c) {
        width(c) + 1
    } else if shrinks(c) {
        width(c) - 1
    } else {
        width(c)
    }
}

/// Whether a character stays as it is when a text is brought into its composed form,
/// whatever stands beside it, so long as that stays too.
pub open spec fn is_settled(c: u32) -> bool {
    ||| c <= 0x2ff
    ||| 0x38e <= c <= 0x3a1 || 0x3a3 <= c <= 0x3ff
    ||| 0x400 <= c <= 0x482 || 0x48a <= c <= 0x52f
    ||| 0x5d0 <= c <= 0x5ea || 0x620 <= c <= 0x64a
    ||| 0x1e00 <= c <= 0x1eff
    ||| 0x2010 <= c <= 0x205e || 0x20a0 <= c <= 0x20bf || 0x2100 <= c <= 0x2125
    ||| 0x2190 <= c <= 0x2328 || 0x2500 <= c <= 0x27ff || 0x2c60 <= c <= 0x2c7f
    ||| 0x3001 <= c <= 0x3029 || 0x3041 <= c <= 0x3096 || 0x30a1 <= c <= 0x30fa
    ||| 0x4e00 <= c <= 0x9fff || 0xa720 <= c <= 0xa7ca || 0xac00 <= c <= 0xd7a3
    ||| 0xff01 <= c <= 0xff5e || c == 0xfffd || 0x1_f300 <= c <= 0x1_f5ff
}

/// Whether a text is sure to be in its composed form.
pub open spec fn is_composed(s: Seq<u32>) -> bool {
    forall|i: int| 0 <= i < s.len() ==> is_settled(#[trigger] s[i])
}

/// How many bytes the first `k` characters have.
pub open spec fn offset(s: Seq<u32>, k: int) -> int
    decreases k,
{
    if k <= 0 {
        0
    } else {
        offset(s, k - 1) + width(s[k - 1])
    }
}

/// How many bytes the first `k` characters have in lower case.
pub open spec fn lower_offset(s: Seq<u32>, k: int) -> int
    decreases k,
{
    if k <= 0 {
        0
    } else {
        lower_offset(s, k - 1) + lower_width(s[k - 1])
    }
}

/// Whether so many bytes are whole characters.
pub open spec fn is_offset(s: Seq<u32>, n: int) -> bool {
    exists|k: int| 0 <= k <= s.len() && #[trigger] offset(s, k) == n
}

/// A letter in lower case, where it is one of ASCII.
pub open spec fn lower(c: u32) -> int {
    if 0x41 <= c <= 0x5a {
        c + 0x20
    } else {
        c as int
    }
}

/// Whether the text reads `.vol` here.
pub open spec fn is_volume(s: Seq<u32>, i: int) -> bool {
    &&& 0 <= i <= s.len() - 4
    &&& s[i] == 0x2e
    &&& lower(s[i + 1]) == 0x76
    &&& lower(s[i + 2]) == 0x6f
    &&& lower(s[i + 3]) == 0x6c
}

/// Whether a text ends in `.par2`.
pub open spec fn is_par2(s: Seq<u32>) -> bool {
    let n = s.len() - 5;
    &&& n >= 0
    &&& s[n] == 0x2e
    &&& lower(s[n + 1]) == 0x70
    &&& lower(s[n + 2]) == 0x61
    &&& lower(s[n + 3]) == 0x72
    &&& s[n + 4] == 0x32
}

/// Whether a `.vol` here is still there in the composed form: its last letter is composed
/// with nothing.
pub open spec fn is_firm(s: Seq<u32>, i: int) -> bool {
    is_volume(s, i) && (is_composed(s) || i + 4 == s.len() || s[i + 4] < 0x80)
}

/// Whether the last `.vol` in the composed form may be the one here.
pub open spec fn may_be_last(s: Seq<u32>, i: int) -> bool {
    is_volume(s, i) && forall|j: int| i < j < s.len() ==> !#[trigger] is_firm(s, j)
}

/// How many characters before a position may grow in lower case, once they are composed: a
/// combining dot above makes one of an `I`.
pub open spec fn growing(s: Seq<u32>, i: int) -> int
    decreases i,
{
    if i <= 0 {
        0
    } else if grows(s[i - 1]) || (s[i - 1] == 0x307 && last_ascii(s, i - 1) == 0x49) {
        growing(s, i - 1) + 1
    } else {
        growing(s, i - 1)
    }
}

/// The last character before a position that is one of ASCII, or `-1` where there is none.
pub open spec fn last_ascii(s: Seq<u32>, i: int) -> int
    decreases i,
{
    if i <= 0 {
        -1
    } else if s[i - 1] < 0x80 {
        s[i - 1] as int
    } else {
        last_ascii(s, i - 1)
    }
}

/// How many characters before a position may shrink in lower case.
pub open spec fn shrinking(s: Seq<u32>, i: int) -> int
    decreases i,
{
    if i <= 0 {
        0
    } else if may_shrink(s[i - 1]) {
        shrinking(s, i - 1) + 1
    } else {
        shrinking(s, i - 1)
    }
}

/// How many characters of ASCII stand right before a position.
pub open spec fn ascii_before(s: Seq<u32>, i: int) -> int
    decreases i,
{
    if i <= 0 || s[i - 1] >= 0x80 {
        0
    } else {
        ascii_before(s, i - 1) + 1
    }
}

/// How many characters of ASCII stand from a position on that are composed with nothing.
pub open spec fn ascii_from(s: Seq<u32>, i: int) -> int
    decreases s.len() - i,
{
    if i < 0 || i >= s.len() || s[i] >= 0x80 || (i + 1 < s.len() && s[i + 1] >= 0x80) {
        0
    } else {
        ascii_from(s, i + 1) + 1
    }
}

/// Whether a name can be cut before and behind a `.vol`, at the offsets that it has in lower
/// case. In a name that may not be in its composed form these are not known: they lie at most
/// as far off as characters before them may grow or shrink, and there every character must be
/// one byte.
pub open spec fn cuts_well(s: Seq<u32>, i: int) -> bool {
    if is_composed(s) {
        is_offset(s, lower_offset(s, i)) && is_offset(s, lower_offset(s, i) + 4)
    } else {
        growing(s, i) <= ascii_from(s, i + 4) && shrinking(s, i) <= ascii_before(s, i)
    }
}

/// Whether a name can be cut at every `.vol` that may be the last.
pub open spec fn is_cuttable(s: Seq<u32>) -> bool {
    forall|i: int| 0 <= i < s.len() && #[trigger] may_be_last(s, i) ==> cuts_well(s, i)
}

/// Whether the file name in a subject can be cut: that of a PAR2 file is, at its volume,
/// before its extension.
pub open spec fn is_readable(value: Seq<u8>) -> bool {
    let name = file_name(value_text(value));
    is_par2(name) ==> is_cuttable(name.take(name.len() - 5))
}

fn does_grow(c: u32) -> (r: bool)
    ensures
        r == grows(c),
{
    c == 0x130 || c == 0x23a || c == 0x23e
}

fn does_shrink(c: u32) -> (r: bool)
    ensures
        r == shrinks(c),
{
    c == 0x1e9e || c == 0x2c62 || c == 0x2c64 || (0x2c6d <= c && c <= 0x2c70) || c == 0x2c7e || c
        == 0x2c7f || c == 0xa78d || (0xa7aa <= c && c <= 0xa7ae) || (0xa7b0 <= c && c <= 0xa7b2)
        || c == 0xa7c5
}

fn settled(c: u32) -> (r: bool)
    ensures
        r == is_settled(c),
{
    c <= 0x2ff || (0x38e <= c && c <= 0x3a1) || (0x3a3 <= c && c <= 0x3ff) || (0x400 <= c && c
        <= 0x482) || (0x48a <= c && c <= 0x52f) || (0x5d0 <= c && c <= 0x5ea) || (0x620 <= c && c
        <= 0x64a) || (0x1e00 <= c && c <= 0x1eff) || (0x2010 <= c && c <= 0x205e) || (0x20a0 <= c
        && c <= 0x20bf) || (0x2100 <= c && c <= 0x2125) || (0x2190 <= c && c <= 0x2328) || (0x2500
        <= c && c <= 0x27ff) || (0x2c60 <= c && c <= 0x2c7f) || (0x3001 <= c && c <= 0x3029) || (
    0x3041 <= c && c <= 0x3096) || (0x30a1 <= c && c <= 0x30fa) || (0x4e00 <= c && c <= 0x9fff) || (
    0xa720 <= c && c <= 0xa7ca) || (0xac00 <= c && c <= 0xd7a3) || (0xff01 <= c && c <= 0xff5e) || c
        == 0xfffd || (0x1_f300 <= c && c <= 0x1_f5ff)
}

fn bytes_of(c: u32) -> (r: u128)
    ensures
        r == width(c),
{
    if c < 0x80 {
        1
    } else if c < 0x800 {
        2
    } else if c < 0x1_0000 {
        3
    } else {
        4
    }
}

fn check_composed(s: &[u32]) -> (r: bool)
    ensures
        r == is_composed(s@),
{
    let mut i: usize = 0;
    while i < s.len()
        invariant
            i <= s@.len(),
            forall|k: int| 0 <= k < i ==> is_settled(#[trigger] s@[k]),
        decreases s@.len() - i,
    {
        if !settled(s[i]) {
            return false;
        }
        i += 1;
    }
    true
}

fn check_offset(s: &[u32], n: u128) -> (r: bool)
    ensures
        r == is_offset(s@, n as int),
{
    let mut sum: u128 = 0;
    let mut k: usize = 0;
    while k < s.len() && sum != n
        invariant
            k <= s@.len(),
            sum == offset(s@, k as int),
            sum <= 4 * k,
            forall|j: int| 0 <= j < k ==> #[trigger] offset(s@, j) != n,
        decreases s@.len() - k,
    {
        sum = sum + bytes_of(s[k]);
        k += 1;
    }
    if sum == n {
        assert(offset(s@, k as int) == n);
    }
    sum == n
}

fn volume_at(s: &[u32], i: usize) -> (r: bool)
    requires
        i < s@.len(),
    ensures
        r == is_volume(s@, i as int),
{
    s.len() - i >= 4 && s[i] == 0x2e && (s[i + 1] == 0x76 || s[i + 1] == 0x56) && (s[i + 2] == 0x6f
        || s[i + 2] == 0x4f) && (s[i + 3] == 0x6c || s[i + 3] == 0x4c)
}

fn check_composed_cut(s: &[u32], i: usize) -> (r: bool)
    requires
        i < s@.len(),
    ensures
        r == (is_offset(s@, lower_offset(s@, i as int)) && is_offset(
            s@,
            lower_offset(s@, i as int) + 4,
        )),
{
    let mut sum: u128 = 0;
    let mut k: usize = 0;
    while k < i
        invariant
            k <= i < s@.len(),
            sum == lower_offset(s@, k as int),
            sum <= 5 * k,
        decreases i - k,
    {
        let c: u32 = s[k];
        let plain: u128 = bytes_of(c);
        let bytes: u128 = if does_grow(c) {
            plain + 1
        } else if does_shrink(c) {
            plain - 1
        } else {
            plain
        };
        sum = sum + bytes;
        k += 1;
    }
    check_offset(s, sum) && check_offset(s, sum + 4)
}

fn count_before(s: &[u32], i: usize) -> (r: usize)
    requires
        i <= s@.len(),
    ensures
        r == ascii_before(s@, i as int),
{
    let mut k: usize = i;
    while k > 0 && s[k - 1] < 0x80
        invariant
            k <= i <= s@.len(),
            ascii_before(s@, i as int) == ascii_before(s@, k as int) + (i - k),
        decreases k,
    {
        k -= 1;
    }
    i - k
}

fn count_from(s: &[u32], i: usize) -> (r: usize)
    requires
        i <= s@.len(),
    ensures
        r == ascii_from(s@, i as int),
{
    let mut k: usize = i;
    while k < s.len() && s[k] < 0x80 && (s.len() - k == 1 || s[k + 1] < 0x80)
        invariant
            i <= k <= s@.len(),
            ascii_from(s@, i as int) == ascii_from(s@, k as int) + (k - i),
        decreases s@.len() - k,
    {
        k += 1;
    }
    k - i
}

fn check_other_cut(s: &[u32], i: usize) -> (r: bool)
    requires
        i + 4 <= s@.len(),
    ensures
        r == (growing(s@, i as int) <= ascii_from(s@, i + 4) && shrinking(s@, i as int)
            <= ascii_before(s@, i as int)),
{
    let n: usize = s.len();
    let mut grown: usize = 0;
    let mut shrunk: usize = 0;
    let mut last: u32 = 0x80;
    let mut k: usize = 0;
    while k < i
        invariant
            k <= i,
            i + 4 <= n == s@.len(),
            grown == growing(s@, k as int),
            shrunk == shrinking(s@, k as int),
            grown <= k,
            shrunk <= k,
            last < 0x80 ==> last_ascii(s@, k as int) == last,
            last == 0x80 ==> last_ascii(s@, k as int) == -1,
            last <= 0x80,
        decreases i - k,
    {
        let c: u32 = s[k];
        if does_grow(c) || (c == 0x307 && last == 0x49) {
            grown += 1;
        }
        if does_shrink(c) || c == 0xa7cb || c == 0xa7dc {
            shrunk += 1;
        }
        if c < 0x80 {
            last = c;
        }
        k += 1;
    }
    grown <= count_from(s, i + 4) && shrunk <= count_before(s, i)
}

fn check_name(s: &[u32]) -> (r: bool)
    ensures
        r == is_cuttable(s@),
{
    let composed = check_composed(s);
    let mut i: usize = s.len();
    while i > 0
        invariant
            i <= s@.len(),
            composed == is_composed(s@),
            forall|j: int| i <= j < s@.len() ==> !#[trigger] is_firm(s@, j),
            forall|j: int| i <= j < s@.len() && #[trigger] may_be_last(s@, j) ==> cuts_well(s@, j),
        decreases i,
    {
        i -= 1;
        if volume_at(s, i) {
            assert(may_be_last(s@, i as int));
            let cut = if composed {
                check_composed_cut(s, i)
            } else {
                check_other_cut(s, i)
            };
            if !cut {
                return false;
            }
            if composed || s.len() - i == 4 || s[i + 4] < 0x80 {
                assert(is_firm(s@, i as int));
                return true;
            }
        }
    }
    true
}

/// Checks whether the file name in a subject can be cut.
pub fn subject_is_readable(value: &[u8]) -> (r: bool)
    requires
        value@.len() + 16 <= usize::MAX,
    ensures
        r == is_readable(value@),
{
    let text = read_value(value);
    let name = read_name(text.as_slice());
    let k: usize = name.len();
    if k >= 5 && name[k - 5] == 0x2e && (name[k - 4] == 0x70 || name[k - 4] == 0x50) && (name[k - 3]
        == 0x61 || name[k - 3] == 0x41) && (name[k - 2] == 0x72 || name[k - 2] == 0x52) && name[k - 1]
        == 0x32 {
        assert(name@.take(k - 5) =~= name@.subrange(0, k - 5));
        check_name(slice_subrange(name.as_slice(), 0, k - 5))
    } else {
        true
    }
}

/// Whether all characters of a text are of one byte.
pub open spec fn is_plain(s: Seq<u32>) -> bool {
    forall|k: int| 0 <= k < s.len() ==> #[trigger] s[k] < 0x80
}

/// Bytes of one-byte characters are decoded one by one.
proof fn lemma_decoded_plain(data: Seq<u8>, i: int, n: int)
    requires
        0 <= i <= n <= data.len(),
        forall|k: int| i <= k < n ==> #[trigger] data[k] < 0x80,
    ensures
        decoded(data, i) == Seq::new((n - i) as nat, |k: int| data[i + k] as u32) + decoded(
            data,
            n,
        ),
        is_utf8(data, i) == is_utf8(data, n),
    decreases n - i,
{
    let head = Seq::new((n - i) as nat, |k: int| data[i + k] as u32);
    if i < n {
        lemma_decoded_plain(data, i + 1, n);
        assert(data[i] < 0x80);
        let rest = Seq::new((n - i - 1) as nat, |k: int| data[i + 1 + k] as u32);
        assert(head =~= seq![data[i] as u32] + rest);
        assert(decoded(data, i) =~= seq![data[i] as u32] + (rest + decoded(data, n)));
        assert(decoded(data, i) =~= head + decoded(data, n));
    } else {
        assert(decoded(data, i) =~= head + decoded(data, n));
    }
}

/// A text without references stands for itself.
proof fn lemma_without_references(s: Seq<u32>, i: int)
    requires
        0 <= i <= s.len(),
        forall|k: int| 0 <= k < s.len() ==> #[trigger] s[k] != 0x26,
    ensures
        unescaped(s, i) == Some(s.skip(i)),
    decreases s.len() - i,
{
    if i < s.len() {
        assert(s[i] != 0x26);
        lemma_without_references(s, i + 1);
        assert(s.skip(i) =~= seq![s[i]] + s.skip(i + 1));
    } else {
        assert(s.skip(i) =~= Seq::empty());
    }
}

proof fn lemma_last_of(s: Seq<u32>, c: u32)
    ensures
        -1 <= last_of(s, c) < s.len(),
        (forall|k: int| 0 <= k < s.len() ==> #[trigger] s[k] != c) ==> last_of(s, c) == -1,
    decreases s.len(),
{
    if s.len() > 0 {
        lemma_last_of(s.drop_last(), c);
        if forall|k: int| 0 <= k < s.len() ==> #[trigger] s[k] != c {
            assert(s[s.len() - 1] != c);
            assert forall|k: int| 0 <= k < s.drop_last().len() implies #[trigger] s.drop_last()[k]
                != c by {
                assert(s.drop_last()[k] == s[k]);
            }
        }
    }
}

proof fn lemma_blanks(s: Seq<u32>, i: int)
    requires
        0 <= i <= s.len(),
    ensures
        i <= blanks(s, i) <= s.len(),
    decreases s.len() - i,
{
    if i < s.len() && is_blank(s[i]) {
        lemma_blanks(s, i + 1);
    }
}

proof fn lemma_cuts_stay_plain(s: Seq<u32>)
    requires
        is_plain(s),
    ensures
        is_plain(without_blanks(s)),
        is_plain(without_stops(s)),
        is_plain(stripped(s)),
    decreases s.len(),
{
    if s.len() > 0 {
        let front = s.drop_last();
        assert forall|k: int| 0 <= k < front.len() implies #[trigger] front[k] < 0x80 by {
            assert(front[k] == s[k]);
        }
        lemma_cuts_stay_plain(front);
        assert(s[s.len() - 1] < 0x80);
    }
}

proof fn lemma_trimmed_plain(s: Seq<u32>)
    requires
        is_plain(s),
    ensures
        is_plain(trimmed(s)),
{
    lemma_blanks(s, 0);
    let rest = s.skip(blanks(s, 0));
    assert forall|k: int| 0 <= k < rest.len() implies #[trigger] rest[k] < 0x80 by {
        assert(rest[k] == s[k + blanks(s, 0)]);
    }
    lemma_cuts_stay_plain(rest);
}

proof fn lemma_name_plain(s: Seq<u32>)
    requires
        is_plain(s),
    ensures
        is_plain(file_name(s)),
{
    let open = position_of(s, 0, 0x22, 0x22);
    let close = position_of(s, open + 1, 0x22, 0x22);
    let bracket = last_of(s, 0x28);
    lemma_position_of(s, 0, 0x22, 0x22);
    if open < s.len() {
        lemma_position_of(s, open + 1, 0x22, 0x22);
    }
    lemma_last_of(s, 0x28);
    if bracket >= 0 {
        let taken = s.take(bracket);
        assert forall|k: int| 0 <= k < taken.len() implies #[trigger] taken[k] < 0x80 by {
            assert(taken[k] == s[k]);
        }
        lemma_trimmed_plain(taken);
        let before = trimmed(taken);
        lemma_last_of(before, 0x20);
        let word = before.skip(last_of(before, 0x20) + 1);
        assert forall|k: int| 0 <= k < word.len() implies #[trigger] word[k] < 0x80 by {
            assert(word[k] == before[k + last_of(before, 0x20) + 1]);
        }
    }
    let part = named_part(s);
    if close < s.len() {
        assert forall|k: int| 0 <= k < part.len() implies #[trigger] part[k] < 0x80 by {
            assert(part[k] == s[open + 1 + k]);
        }
    }
    assert(is_plain(part));
    lemma_cuts_stay_plain(part);
    lemma_trimmed_plain(stripped(part));
    lemma_cuts_stay_plain(trimmed(stripped(part)));
}

/// One-byte characters lie at the offsets of their positions, in lower case too.
proof fn lemma_plain_offsets(s: Seq<u32>, n: int, k: int)
    requires
        0 <= k <= n <= s.len(),
        forall|j: int| 0 <= j < n ==> #[trigger] s[j] < 0x80,
    ensures
        offset(s, k) == k,
        lower_offset(s, k) == k,
    decreases k,
{
    if k > 0 {
        lemma_plain_offsets(s, n, k - 1);
        assert(s[k - 1] < 0x80);
    }
}

/// Every subject in one-byte characters without references can be given to the parser:
/// nothing in it changes its size in lower case.
pub proof fn law_plain_subjects_are_readable(value: &[u8], r: bool)
    requires
        value@.len() + 16 <= usize::MAX,
        forall|k: int| 0 <= k < value@.len() ==> #[trigger] value@[k] < 0x80 && value@[k] != 0x26,
        call_ensures(subject_is_readable, (value,), r),
    ensures
        r,
{
    let data = value@;
    let n = data.len() as int;
    let text = decoded(data, 0);
    lemma_decoded_plain(data, 0, n);
    assert(decoded(data, n) =~= Seq::empty());
    assert forall|k: int| 0 <= k < text.len() implies #[trigger] text[k] < 0x80 && text[k]
        != 0x26 by {
        assert(text[k] == data[k] as u32);
    }
    lemma_without_references(text, 0);
    assert(text.skip(0) =~= text);
    assert(value_text(data) == text);
    lemma_name_plain(text);
    let name = file_name(text);
    if is_par2(name) {
        let s = name.take(name.len() - 5);
        assert forall|k: int| 0 <= k < s.len() implies #[trigger] s[k] < 0x80 by {
            assert(s[k] == name[k]);
        }
        assert(is_composed(s));
        assert forall|i: int| 0 <= i < s.len() && #[trigger] may_be_last(s, i) implies cuts_well(
            s,
            i,
        ) by {
            lemma_plain_offsets(s, s.len() as int, i);
            lemma_plain_offsets(s, s.len() as int, i + 4);
            assert(offset(s, i) == i);
            assert(offset(s, i + 4) == i + 4);
        }
    }
}

/// Whether a byte is a digit or a small letter.
pub open spec fn is_word_byte(b: u8) -> bool {
    0x30 <= b <= 0x39 || 0x61 <= b <= 0x7a
}

/// A text whose characters all belong in a file name is its own file name.
proof fn lemma_own_name(s: Seq<u32>)
    requires
        s.len() > 0,
        forall|k: int|
            0 <= k < s.len() ==> !is_stripped(#[trigger] s[k]) && !is_blank(s[k]) && s[k] != 0x28,
        s.last() != 0x2e,
    ensures
        file_name(s) == s,
{
    lemma_last_of(s, 0x28);
    lemma_no_quote(s, 0);
    assert(named_part(s) == s) by {
        assert(position_of(s, s.len() as int + 1, 0x22, 0x22) == s.len());
    }
    lemma_nothing_stripped(s);
    assert(!is_blank(s[0]));
    assert(blanks(s, 0) == 0);
    assert(s.skip(0) =~= s);
    assert(!is_blank(s[s.len() - 1]));
}

proof fn lemma_no_quote(s: Seq<u32>, i: int)
    requires
        0 <= i <= s.len(),
        forall|k: int| 0 <= k < s.len() ==> !is_stripped(#[trigger] s[k]),
    ensures
        position_of(s, i, 0x22, 0x22) == s.len(),
    decreases s.len() - i,
{
    if i < s.len() {
        assert(!is_stripped(s[i]));
        lemma_no_quote(s, i + 1);
    }
}

proof fn lemma_nothing_stripped(s: Seq<u32>)
    requires
        forall|k: int| 0 <= k < s.len() ==> !is_stripped(#[trigger] s[k]),
    ensures
        stripped(s) == s,
    decreases s.len(),
{
    if s.len() > 0 {
        let front = s.drop_last();
        assert forall|k: int| 0 <= k < front.len() implies !is_stripped(#[trigger] front[k]) by {
            assert(front[k] == s[k]);
        }
        lemma_nothing_stripped(front);
        assert(!is_stripped(s[s.len() - 1]));
        assert(front.push(s.last()) =~= s);
    }
}

/// The bytes behind the first word of a subject that is cut inside a letter.
pub open spec fn cut_bytes() -> Seq<u8> {
    seq![0xc4u8, 0xb0, 0x2e, 0x76, 0x6f, 0x6c, 0xc3, 0xa9, 0x2e, 0x70, 0x61, 0x72, 0x32]
}

/// A one-byte character is decoded as itself.
proof fn lemma_decoded_step(data: Seq<u8>, i: int, rest: Seq<u32>)
    requires
        0 <= i < data.len(),
        data[i] < 0x80,
        decoded(data, i + 1) == rest,
    ensures
        decoded(data, i) == seq![data[i] as u32] + rest,
{
}

proof fn lemma_decoded_cut(data: Seq<u8>, n: int)
    requires
        0 <= n,
        data.len() == n + 13,
        data.skip(n) == cut_bytes(),
    ensures
        decoded(data, n) == seq![
            0x130u32,
            0x2e,
            0x76,
            0x6f,
            0x6c,
            0xe9,
            0x2e,
            0x70,
            0x61,
            0x72,
            0x32,
        ],
{
    let b = cut_bytes();
    assert forall|k: int| 0 <= k < 13 implies #[trigger] data[n + k] == b[k] by {
        assert(data.skip(n)[k] == data[n + k]);
    }
    assert(decoded(data, n + 13) =~= Seq::empty());
    lemma_decoded_step(data, n + 12, Seq::empty());
    assert(decoded(data, n + 12) =~= seq![0x32u32]);
    lemma_decoded_step(data, n + 11, seq![0x32u32]);
    assert(decoded(data, n + 11) =~= seq![0x72u32, 0x32]);
    lemma_decoded_step(data, n + 10, seq![0x72u32, 0x32]);
    assert(decoded(data, n + 10) =~= seq![0x61u32, 0x72, 0x32]);
    lemma_decoded_step(data, n + 9, seq![0x61u32, 0x72, 0x32]);
    assert(decoded(data, n + 9) =~= seq![0x70u32, 0x61, 0x72, 0x32]);
    lemma_decoded_step(data, n + 8, seq![0x70u32, 0x61, 0x72, 0x32]);
    let extension = seq![0x2eu32, 0x70, 0x61, 0x72, 0x32];
    assert(decoded(data, n + 8) =~= extension);
    assert(bytes_held(data, n + 6) == 2 && code_at(data, n + 6) == 0xe9) by {
        assert(data[n + 6] == b[6] && data[n + 7] == b[7]);
        assert(byte_at(data, n + 7) == 0xa9);
    }
    let letter = seq![0xe9u32] + extension;
    assert(decoded(data, n + 6) == letter);
    lemma_decoded_step(data, n + 5, letter);
    lemma_decoded_step(data, n + 4, seq![0x6cu32] + letter);
    lemma_decoded_step(data, n + 3, seq![0x6fu32] + (seq![0x6cu32] + letter));
    let volume = seq![0x76u32] + (seq![0x6fu32] + (seq![0x6cu32] + letter));
    lemma_decoded_step(data, n + 2, volume);
    assert(bytes_held(data, n) == 2 && code_at(data, n) == 0x130) by {
        assert(data[n] == b[0] && data[n + 1] == b[1]);
        assert(byte_at(data, n + 1) == 0xb0);
    }
    assert(decoded(data, n) == seq![0x130u32] + (seq![0x2eu32] + volume));
    assert(seq![0x130u32] + (seq![0x2eu32] + volume) =~= seq![
        0x130u32,
        0x2e,
        0x76,
        0x6f,
        0x6c,
        0xe9,
        0x2e,
        0x70,
        0x61,
        0x72,
        0x32,
    ]);
}

proof fn lemma_cut_fails(s: Seq<u32>, n: int)
    requires
        0 <= n,
        s.len() == n + 6,
        forall|k: int| 0 <= k < n ==> #[trigger] s[k] < 0x80,
        s[n] == 0x130,
        s[n + 1] == 0x2e,
        s[n + 2] == 0x76,
        s[n + 3] == 0x6f,
        s[n + 4] == 0x6c,
        s[n + 5] == 0xe9,
    ensures
        !is_cuttable(s),
{
    let i = n + 1;
    assert(is_composed(s)) by {
        assert forall|k: int| 0 <= k < s.len() implies is_settled(#[trigger] s[k]) by {
            assert(k < n || k == n || k == n + 1 || k == n + 2 || k == n + 3 || k == n + 4 || k == n
                + 5);
        }
    }
    assert(is_volume(s, i));
    assert(may_be_last(s, i)) by {
        assert forall|j: int| i < j < s.len() implies !#[trigger] is_firm(s, j) by {
            assert(j == n + 2 || j == n + 3 || j == n + 4 || j == n + 5);
        }
    }
    lemma_plain_offsets(s, n, n);
    assert(offset(s, n + 1) == n + 2);
    assert(offset(s, n + 2) == n + 3);
    assert(offset(s, n + 3) == n + 4);
    assert(offset(s, n + 4) == n + 5);
    assert(offset(s, n + 5) == n + 6);
    assert(offset(s, n + 6) == n + 8);
    assert(lower_offset(s, n + 1) == n + 3);
    assert forall|k: int| 0 <= k <= s.len() implies #[trigger] offset(s, k) != n + 7 by {
        if k <= n {
            lemma_plain_offsets(s, n, k);
        } else {
            assert(k == n + 1 || k == n + 2 || k == n + 3 || k == n + 4 || k == n + 5 || k == n + 6);
        }
    }
    assert(!is_offset(s, lower_offset(s, i) + 4));
    assert(!cuts_well(s, i));
}

/// The subject of a PAR2 file in which a dotted capital I, which grows in lower case, stands
/// before `.vol`, and a letter of two bytes behind it, is refused whatever word stands before:
/// the parser would cut that letter in two.
pub proof fn law_cuts_inside_a_letter_are_refused(value: &[u8], word: Seq<u8>, r: bool)
    requires
        value@.len() + 16 <= usize::MAX,
        forall|k: int| 0 <= k < word.len() ==> is_word_byte(#[trigger] word[k]),
        value@ == word + cut_bytes(),
        call_ensures(subject_is_readable, (value,), r),
    ensures
        !r,
{
    let data = value@;
    let n = word.len() as int;
    assert forall|k: int| 0 <= k < n implies #[trigger] data[k] < 0x80 by {
        assert(is_word_byte(word[k]));
    }
    lemma_decoded_plain(data, 0, n);
    assert(data.skip(n) =~= cut_bytes());
    lemma_decoded_cut(data, n);
    let tail = decoded(data, n);
    let text = decoded(data, 0);
    assert(text.len() == n + 11);
    assert forall|k: int| 0 <= k < n implies #[trigger] text[k] == word[k] by {}
    assert forall|k: int| 0 <= k < 11 implies #[trigger] text[n + k] == tail[k] by {}
    assert forall|k: int| 0 <= k < text.len() implies #[trigger] text[k] != 0x26 && !is_stripped(
        text[k],
    ) && !is_blank(text[k]) && text[k] != 0x28 by {
        if k < n {
            assert(text[k] == word[k]);
            assert(is_word_byte(word[k]));
        } else {
            assert(text[n + (k - n)] == tail[k - n]);
        }
    }
    lemma_without_references(text, 0);
    assert(text.skip(0) =~= text);
    assert(value_text(data) == text);
    assert(text[n + 10] == tail[10]);
    assert(text[n + 6] == tail[6] && text[n + 7] == tail[7] && text[n + 8] == tail[8] && text[n + 9]
        == tail[9]);
    lemma_own_name(text);
    assert(is_par2(text));
    let s = text.take(text.len() - 5);
    assert forall|k: int| 0 <= k < n implies #[trigger] s[k] < 0x80 by {
        assert(s[k] == text[k]);
        assert(text[k] == word[k]);
        assert(is_word_byte(word[k]));
    }
    assert(s[n] == text[n + 0] && s[n + 1] == text[n + 1] && s[n + 2] == text[n + 2]);
    assert(s[n + 3] == text[n + 3] && s[n + 4] == text[n + 4] && s[n + 5] == text[n + 5]);
    lemma_cut_fails(s, n);
}

} // verus!
