//! The integer casts and the decimal notation that the other modules share.

use vstd::prelude::*;

verus! {

/// The value of a `u64` read as an `i64` of the same bits.
pub open spec fn as_signed(x: u64) -> int {
    if x <= i64::MAX {
        x as int
    } else {
        x - 0x1_0000_0000_0000_0000
    }
}

/// The value of an `i64` read as a `u64` of the same bits.
pub open spec fn as_unsigned(x: i64) -> int {
    if x >= 0 {
        x as int
    } else {
        x + 0x1_0000_0000_0000_0000
    }
}

/// Reads a `u64` as an `i64` of the same bits.
pub fn to_signed(x: u64) -> (r: i64)
    ensures
        r == as_signed(x),
{
    if x <= 0x7fff_ffff_ffff_ffff {
        x as i64
    } else {
        -((0xffff_ffff_ffff_ffff - x) as i64) - 1
    }
}

/// Reads an `i64` as a `u64` of the same bits.
pub fn to_unsigned(x: i64) -> (r: u64)
    ensures
        r == as_unsigned(x),
{
    if x >= 0 {
        x as u64
    } else {
        0xffff_ffff_ffff_ffff - ((-(x + 1)) as u64)
    }
}

/// The decimal digit `d`, for `d` below ten.
pub open spec fn digit(d: int) -> char {
    ('0' as int + d) as char
}

/// A number in decimal notation, without leading zeros.
pub open spec fn decimal(n: nat) -> Seq<char>
    decreases n,
{
    if n < 10 {
        seq![digit(n as int)]
    } else {
        decimal(n / 10).push(digit((n % 10) as int))
    }
}

/// Writes a number in decimal notation.
pub fn to_decimal(n: u64) -> (r: String)
    ensures
        r@ == decimal(n as nat),
    decreases n,
{
    let d: u8 = (n % 10) as u8;
    let c: char = (48 + d) as char;
    if n < 10 {
        let mut r = String::new();
        r.push(c);
        assert(r@ =~= decimal(n as nat));
        r
    } else {
        let mut r = to_decimal(n / 10);
        r.push(c);
        r
    }
}

/// The number that a text of decimal digits stands for, or `-1` where it holds another
/// character.
pub open spec fn read_decimal(s: Seq<char>) -> int
    decreases s.len(),
{
    if s.len() == 0 {
        0
    } else {
        let before = read_decimal(s.drop_last());
        let c = s.last();
        if before >= 0 && '0' <= c <= '9' {
            before * 10 + (c as int - '0' as int)
        } else {
            -1
        }
    }
}

proof fn lemma_decimal_reads_back(n: nat)
    ensures
        read_decimal(decimal(n)) == n,
        decimal(n).len() > 0,
        decimal(n).len() > 1 ==> decimal(n)[0] != '0',
        n > 0 ==> decimal(n)[0] != '0',
        !decimal(n).contains('-'),
        !decimal(n).contains('/'),
    decreases n,
{
    let s = decimal(n);
    if n < 10 {
        assert(s.drop_last() =~= Seq::empty());
        assert(read_decimal(s.drop_last()) == 0);
    } else {
        lemma_decimal_reads_back(n / 10);
        let front = decimal(n / 10);
        assert(s.drop_last() =~= front);
        assert forall|i: int| 0 <= i < s.len() implies s[i] != '-' && s[i] != '/' by {
            if i < front.len() {
                assert(front.contains(front[i]));
            }
        }
    }
}

/// A number in decimal notation reads back as itself. The notation holds digits only, and no
/// leading zero.
pub proof fn law_decimal_reads_back(n: u64, r: String)
    requires
        call_ensures(to_decimal, (n,), r),
    ensures
        read_decimal(r@) == n,
        r@.len() > 0,
        r@.len() > 1 ==> r@[0] != '0',
        !r@.contains('-'),
        !r@.contains('/'),
{
    lemma_decimal_reads_back(n as nat);
}

/// The two readings of the same bits undo each other, and agree on what both can hold.
pub proof fn law_readings_undo_each_other(x: u64, y: i64, s: i64, u: u64, back: u64, forth: i64)
    requires
        call_ensures(to_signed, (x,), s),
        call_ensures(to_unsigned, (s,), back),
        call_ensures(to_unsigned, (y,), u),
        call_ensures(to_signed, (u,), forth),
    ensures
        back == x,
        forth == y,
        x <= i64::MAX ==> s == x,
        y >= 0 ==> u == y,
        (u - y) % 0x1_0000_0000_0000_0000 == 0,
        (x - s) % 0x1_0000_0000_0000_0000 == 0,
{
}

} // verus!
