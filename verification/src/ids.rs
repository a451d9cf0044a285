//! Identifiers: 128-bit UUIDs, their text form, and those derived from a name.

use vstd::prelude::*;

verus! {

/// The `count` lowest hexadecimal digits of a number, the most significant one first.
pub open spec fn hex_digits(n: nat, count: nat) -> Seq<int>
    decreases count,
{
    if count == 0 {
        Seq::empty()
    } else {
        hex_digits(n / 16, (count - 1) as nat).push((n % 16) as int)
    }
}

/// The number that hexadecimal digits stand for, the most significant one first.
pub open spec fn hex_value(digits: Seq<int>) -> nat
    decreases digits.len(),
{
    if digits.len() == 0 {
        0
    } else {
        (hex_value(digits.drop_last()) * 16 + digits.last()) as nat
    }
}

/// The character of a hexadecimal digit.
pub open spec fn hex_char(d: int) -> char {
    if d < 10 {
        ('0' as int + d) as char
    } else {
        ('a' as int + d - 10) as char
    }
}

/// The hexadecimal digit that a character of either case stands for, or `-1`.
pub open spec fn hex_digit(c: char) -> int {
    if '0' <= c <= '9' {
        c as int - '0' as int
    } else if 'a' <= c <= 'f' {
        c as int - 'a' as int + 10
    } else if 'A' <= c <= 'F' {
        c as int - 'A' as int + 10
    } else {
        -1
    }
}

/// The characters of hexadecimal digits.
pub open spec fn hex_text(digits: Seq<int>) -> Seq<char> {
    Seq::new(digits.len(), |i: int| hex_char(digits[i]))
}

/// An identifier as text: 32 lowercase digits in groups of 8, 4, 4, 4 and 12.
pub open spec fn uuid_text(id: u128) -> Seq<char> {
    let t = hex_text(hex_digits(id as nat, 32));
    t.subrange(0, 8) + seq!['-'] + t.subrange(8, 12) + seq!['-'] + t.subrange(12, 16) + seq!['-']
        + t.subrange(16, 20) + seq!['-'] + t.subrange(20, 32)
}

/// The identifier that 32 hexadecimal digits stand for.
pub open spec fn simple_parsed(s: Seq<char>) -> Option<u128> {
    if s.len() == 32 && forall|i: int| 0 <= i < 32 ==> hex_digit(#[trigger] s[i]) >= 0 {
        Some(hex_value(Seq::new(32, |i: int| hex_digit(s[i]))) as u128)
    } else {
        None
    }
}

/// The identifier that a text with hyphens in the places of `uuid_text` stands for.
pub open spec fn hyphenated_parsed(s: Seq<char>) -> Option<u128> {
    if s.len() == 36 && s[8] == '-' && s[13] == '-' && s[18] == '-' && s[23] == '-' {
        simple_parsed(
            s.subrange(0, 8) + s.subrange(9, 13) + s.subrange(14, 18) + s.subrange(19, 23)
                + s.subrange(24, 36),
        )
    } else {
        None
    }
}

/// Whether a character is this lowercase letter in either case, or this sign.
pub open spec fn same_letter(c: char, lower: char) -> bool {
    c == lower || ('a' <= lower <= 'z' && c as int == lower as int - 32)
}

/// Whether the text starts with `urn:uuid:`, in any case.
pub open spec fn has_urn_prefix(s: Seq<char>) -> bool {
    let p = seq!['u', 'r', 'n', ':', 'u', 'u', 'i', 'd', ':'];
    s.len() >= 9 && forall|i: int| 0 <= i < 9 ==> same_letter(#[trigger] s[i], p[i])
}

/// The identifier that a text stands for: 32 digits, digits with hyphens, the latter in
/// braces, or the latter after `urn:uuid:`.
pub open spec fn uuid_parsed(s: Seq<char>) -> Option<u128> {
    if s.len() == 32 {
        simple_parsed(s)
    } else if s.len() == 36 {
        hyphenated_parsed(s)
    } else if s.len() == 38 && s[0] == '{' && s[37] == '}' {
        hyphenated_parsed(s.subrange(1, 37))
    } else if s.len() == 45 && has_urn_prefix(s) {
        hyphenated_parsed(s.subrange(9, 45))
    } else {
        None
    }
}

/// `uuid::Uuid::parse_str`: reads an identifier in any of the forms of `uuid_parsed`, and
/// refuses every other text.
#[verifier::external_body]
pub(crate) fn parse_uuid(s: &str) -> (r: Option<u128>)
    ensures
        r == uuid_parsed(s@),
{
    uuid::Uuid::parse_str(s).ok().map(|id| id.as_u128())
}

/// `uuid::Uuid`'s `Display`: the hyphenated lowercase form.
#[verifier::external_body]
pub(crate) fn uuid_to_string(id: u128) -> (r: String)
    ensures
        r@ == uuid_text(id),
{
    uuid::Uuid::from_u128(id).to_string()
}

/// The identifier that `uuid::Uuid::new_v5` derives from a namespace and a name.
pub uninterp spec fn uuid_v5(namespace: u128, name: Seq<u8>) -> u128;

/// `uuid::Uuid::new_v5`: the identifier depends on the namespace and the name alone.
#[verifier::external_body]
pub(crate) fn new_v5(namespace: u128, name: &[u8]) -> (r: u128)
    ensures
        r == uuid_v5(namespace, name@),
{
    uuid::Uuid::new_v5(&uuid::Uuid::from_u128(namespace), name).as_u128()
}

spec fn pow16(n: nat) -> nat
    decreases n,
{
    if n == 0 {
        1
    } else {
        16 * pow16((n - 1) as nat)
    }
}

proof fn lemma_hex_roundtrip(n: nat, count: nat)
    requires
        n < pow16(count),
    ensures
        hex_digits(n, count).len() == count,
        forall|i: int| 0 <= i < count ==> 0 <= #[trigger] hex_digits(n, count)[i] < 16,
        hex_value(hex_digits(n, count)) == n,
    decreases count,
{
    if count > 0 {
        lemma_hex_roundtrip(n / 16, (count - 1) as nat);
        let ds = hex_digits(n, count);
        assert(ds.drop_last() =~= hex_digits(n / 16, (count - 1) as nat));
    }
}

/// An identifier is found again from its text.
pub proof fn law_uuid_text_parses_back(id: u128)
    ensures
        uuid_parsed(uuid_text(id)) == Some(id),
{
    reveal_with_fuel(pow16, 33);
    assert(pow16(32) == 0x1_0000_0000_0000_0000_0000_0000_0000_0000int);
    let ds = hex_digits(id as nat, 32);
    lemma_hex_roundtrip(id as nat, 32);
    let t = hex_text(ds);
    let s = uuid_text(id);
    assert(s.len() == 36);
    let plain = s.subrange(0, 8) + s.subrange(9, 13) + s.subrange(14, 18) + s.subrange(19, 23)
        + s.subrange(24, 36);
    assert(plain =~= t);
    assert forall|i: int| 0 <= i < 32 implies hex_digit(#[trigger] plain[i]) == ds[i] by {
        assert(0 <= ds[i] < 16);
        assert(plain[i] == hex_char(ds[i]));
    }
    assert(Seq::new(32, |i: int| hex_digit(plain[i])) =~= ds);
}

/// Two identifiers with the same text are the same.
pub proof fn law_uuid_text_is_unique(a: u128, b: u128)
    requires
        uuid_text(a) == uuid_text(b),
    ensures
        a == b,
{
    law_uuid_text_parses_back(a);
    law_uuid_text_parses_back(b);
}

/// The text of an identifier holds no comma.
pub proof fn lemma_uuid_text_chars(id: u128)
    ensures
        !uuid_text(id).contains(','),
        !uuid_text(id).contains('/'),
        uuid_text(id).len() == 36,
{
    reveal_with_fuel(pow16, 33);
    assert(pow16(32) == 0x1_0000_0000_0000_0000_0000_0000_0000_0000int);
    let ds = hex_digits(id as nat, 32);
    lemma_hex_roundtrip(id as nat, 32);
    let t = hex_text(ds);
    assert forall|i: int| 0 <= i < 32 implies #[trigger] t[i] != ',' && t[i] != '/' by {
        assert(0 <= ds[i] < 16);
    }
}

} // verus!
