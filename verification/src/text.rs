//! Strings as sequences of characters: the searches, cuts and joins that
//! paths, file names and headers need.

use vstd::prelude::*;

verus! {

/// An optional text as a sequence of characters.
pub open spec fn chars_of(s: Option<String>) -> Option<Seq<char>> {
    match s {
        Some(t) => Some(t@),
        None => None,
    }
}

/// `String::push` of the standard library appends one character.
pub assume_specification[ String::push ](s: &mut String, c: char)
    ensures
        final(s)@ == old(s)@.push(c),
;

/// The text without the run of `c` at its end.
pub open spec fn trimmed_end(s: Seq<char>, c: char) -> Seq<char>
    decreases s.len(),
{
    if s.len() > 0 && s.last() == c {
        trimmed_end(s.drop_last(), c)
    } else {
        s
    }
}

/// The position of the last `c` in the text, or `-1` where there is none.
pub open spec fn last_position(s: Seq<char>, c: char) -> int
    decreases s.len(),
{
    if s.len() == 0 {
        -1
    } else if s.last() == c {
        s.len() - 1
    } else {
        last_position(s.drop_last(), c)
    }
}

/// Whether the text starts with `p`.
pub open spec fn starts_with(s: Seq<char>, p: Seq<char>) -> bool {
    p.len() <= s.len() && s.subrange(0, p.len() as int) == p
}

/// Whether the text ends with `p`.
pub open spec fn ends_with(s: Seq<char>, p: Seq<char>) -> bool {
    p.len() <= s.len() && s.subrange(s.len() - p.len(), s.len() as int) == p
}

/// Trimming keeps a prefix, all that was cut is `c`, and the rest does not end in `c`.
pub proof fn lemma_trimmed_end(s: Seq<char>, c: char)
    ensures
        trimmed_end(s, c).len() <= s.len(),
        trimmed_end(s, c) == s.subrange(0, trimmed_end(s, c).len() as int),
        forall|i: int| trimmed_end(s, c).len() <= i < s.len() ==> s[i] == c,
        trimmed_end(s, c).len() > 0 ==> trimmed_end(s, c).last() != c,
    decreases s.len(),
{
    if s.len() > 0 && s.last() == c {
        lemma_trimmed_end(s.drop_last(), c);
        let t = trimmed_end(s, c);
        assert(s.drop_last().subrange(0, t.len() as int) =~= s.subrange(0, t.len() as int));
        assert forall|i: int| t.len() <= i < s.len() implies s[i] == c by {
            if i < s.len() - 1 {
                assert(s.drop_last()[i] == c);
            }
        }
    } else {
        assert(s =~= s.subrange(0, s.len() as int));
    }
}

/// A text cut so that only `c` is dropped and what stays does not end in `c` is trimmed.
pub proof fn lemma_trimmed_end_unique(s: Seq<char>, c: char, k: int)
    requires
        0 <= k <= s.len(),
        forall|i: int| k <= i < s.len() ==> s[i] == c,
        k > 0 ==> s[k - 1] != c,
    ensures
        trimmed_end(s, c) == s.subrange(0, k),
    decreases s.len(),
{
    if k == s.len() {
        assert(s.subrange(0, k) =~= s);
    } else {
        assert(s.last() == c);
        lemma_trimmed_end_unique(s.drop_last(), c, k);
        assert(s.drop_last().subrange(0, k) =~= s.subrange(0, k));
    }
}

/// The last position holds `c`, and nothing after it does.
pub proof fn lemma_last_position(s: Seq<char>, c: char)
    ensures
        -1 <= last_position(s, c) < s.len(),
        last_position(s, c) >= 0 ==> s[last_position(s, c)] == c,
        forall|i: int| last_position(s, c) < i < s.len() ==> s[i] != c,
    decreases s.len(),
{
    if s.len() > 0 && s.last() != c {
        lemma_last_position(s.drop_last(), c);
        assert forall|i: int| last_position(s, c) < i < s.len() implies s[i] != c by {
            if i < s.len() - 1 {
                assert(s.drop_last()[i] != c);
            }
        }
    }
}

/// A position that holds `c` with no `c` after it is the last position.
pub proof fn lemma_last_position_unique(s: Seq<char>, c: char, k: int)
    requires
        -1 <= k < s.len(),
        k >= 0 ==> s[k] == c,
        forall|i: int| k < i < s.len() ==> s[i] != c,
    ensures
        last_position(s, c) == k,
{
    lemma_last_position(s, c);
    let p = last_position(s, c);
    if p < k {
        assert(s[k] != c);
    } else if k < p {
        assert(s[p] != c);
    }
}

/// The characters of a text, one by one.
pub fn to_chars(s: &str) -> (r: Vec<char>)
    ensures
        r@ == s@,
{
    let mut r: Vec<char> = Vec::new();
    for c in it: s.chars()
        invariant
            it.seq() == s@,
            r@ == s@.subrange(0, it.index() as int),
    {
        r.push(c);
        assert(r@ =~= s@.subrange(0, it.index() + 1));
    }
    assert(r@ =~= s@);
    r
}

/// The text made of the characters from `from` up to `to`.
pub fn from_chars(v: &[char], from: usize, to: usize) -> (r: String)
    requires
        from <= to <= v@.len(),
    ensures
        r@ == v@.subrange(from as int, to as int),
{
    let mut r = String::new();
    let mut i: usize = from;
    while i < to
        invariant
            from <= i <= to <= v@.len(),
            r@ == v@.subrange(from as int, i as int),
        decreases to - i,
    {
        r.push(v[i]);
        assert(v@.subrange(from as int, i + 1) =~= v@.subrange(from as int, i as int).push(
            v@[i as int],
        ));
        i += 1;
    }
    r
}

/// Whether two texts are the same.
pub fn same(a: &str, b: &str) -> (r: bool)
    ensures
        r == (a@ == b@),
{
    let x = to_chars(a);
    let y = to_chars(b);
    if x.len() != y.len() {
        return false;
    }
    let mut i: usize = 0;
    while i < x.len()
        invariant
            x@ == a@,
            y@ == b@,
            x@.len() == y@.len(),
            i <= x@.len(),
            forall|k: int| 0 <= k < i ==> x@[k] == y@[k],
        decreases x@.len() - i,
    {
        if x[i] != y[i] {
            assert(a@[i as int] != b@[i as int]);
            return false;
        }
        i += 1;
    }
    assert(a@ =~= b@);
    true
}

/// The two texts one after the other.
pub fn join(a: &str, b: &str) -> (r: String)
    ensures
        r@ == a@ + b@,
{
    let mut r = a.to_string();
    r.append(b);
    r
}

/// The three texts one after the other.
pub fn join3(a: &str, b: &str, c: &str) -> (r: String)
    ensures
        r@ == a@ + b@ + c@,
{
    let mut r = a.to_string();
    r.append(b);
    r.append(c);
    r
}

/// Whether a text ends in `c`.
pub fn ends_in(s: &str, c: char) -> (r: bool)
    ensures
        r == (s@.len() > 0 && s@.last() == c),
{
    let v = to_chars(s);
    v.len() > 0 && v[v.len() - 1] == c
}

/// Whether `c` occurs in a text.
pub fn contains(s: &str, c: char) -> (r: bool)
    ensures
        r == s@.contains(c),
{
    let v = to_chars(s);
    let mut i: usize = 0;
    while i < v.len()
        invariant
            v@ == s@,
            i <= v@.len(),
            forall|k: int| 0 <= k < i ==> v@[k] != c,
        decreases v@.len() - i,
    {
        if v[i] == c {
            assert(s@[i as int] == c);
            return true;
        }
        i += 1;
    }
    false
}

/// Cuts a prefix off a text, where the text starts with it.
pub fn strip_prefix(s: &str, p: &str) -> (r: Option<String>)
    ensures
        starts_with(s@, p@) ==> r is Some && r->0@ == s@.subrange(p@.len() as int, s@.len() as int),
        !starts_with(s@, p@) ==> r is None,
{
    let v = to_chars(s);
    let q = to_chars(p);
    if q.len() > v.len() {
        return None;
    }
    let head = from_chars(v.as_slice(), 0, q.len());
    if same(head.as_str(), p) {
        Some(from_chars(v.as_slice(), q.len(), v.len()))
    } else {
        None
    }
}

/// Cuts the run of `c` off the end of a text.
pub fn trim_end(s: &str, c: char) -> (r: String)
    ensures
        r@ == trimmed_end(s@, c),
{
    let v = to_chars(s);
    let mut k: usize = v.len();
    while k > 0 && v[k - 1] == c
        invariant
            v@ == s@,
            k <= v@.len(),
            forall|i: int| k <= i < v@.len() ==> v@[i] == c,
        decreases k,
    {
        k -= 1;
    }
    proof {
        lemma_trimmed_end_unique(s@, c, k as int);
    }
    from_chars(v.as_slice(), 0, k)
}

/// The first character of a text, or `other` where it is empty.
pub open spec fn first_or(s: Seq<char>, other: char) -> char {
    if s.len() > 0 {
        s[0]
    } else {
        other
    }
}

/// The first character of a text, or `other` where it is empty.
pub fn first_char(s: &str, other: char) -> (r: char)
    ensures
        r == first_or(s@, other),
{
    let v = to_chars(s);
    if v.len() > 0 {
        v[0]
    } else {
        other
    }
}

/// The text of one character.
pub fn of_char(c: char) -> (r: String)
    ensures
        r@ == seq![c],
{
    let mut r = String::new();
    r.push(c);
    assert(r@ =~= seq![c]);
    r
}

/// What follows the last `c` of a text, or the whole text where there is none.
pub open spec fn after_last(s: Seq<char>, c: char) -> Seq<char> {
    s.subrange(last_position(s, c) + 1, s.len() as int)
}

/// The position behind the last `c` among the first `end` characters, or 0.
fn behind_last(v: &Vec<char>, end: usize, c: char) -> (r: usize)
    requires
        end <= v@.len(),
    ensures
        r == last_position(v@.subrange(0, end as int), c) + 1,
{
    let ghost part = v@.subrange(0, end as int);
    let mut i: usize = end;
    while i > 0 && v[i - 1] != c
        invariant
            i <= end <= v@.len(),
            part == v@.subrange(0, end as int),
            forall|k: int| i <= k < end ==> part[k] != c,
        decreases i,
    {
        i -= 1;
    }
    proof {
        lemma_last_position_unique(part, c, i - 1);
    }
    i
}

/// Cuts off a text what comes up to its last `c`.
pub fn cut_to_last(s: &str, c: char) -> (r: String)
    ensures
        r@ == after_last(s@, c),
{
    let v = to_chars(s);
    assert(v@.subrange(0, v@.len() as int) =~= v@);
    let from: usize = behind_last(&v, v.len(), c);
    proof {
        lemma_last_position(s@, c);
    }
    from_chars(v.as_slice(), from, v.len())
}

/// Whether a text ends with `p`.
pub fn has_suffix(s: &str, p: &str) -> (r: bool)
    ensures
        r == ends_with(s@, p@),
{
    let v = to_chars(s);
    let q = to_chars(p);
    if q.len() > v.len() {
        return false;
    }
    let tail = from_chars(v.as_slice(), v.len() - q.len(), v.len());
    same(tail.as_str(), p)
}

/// The text without the copies of `p` at its end.
pub open spec fn without_suffixes(s: Seq<char>, p: Seq<char>) -> Seq<char>
    decreases s.len(),
{
    if p.len() > 0 && ends_with(s, p) {
        without_suffixes(s.subrange(0, s.len() - p.len()), p)
    } else {
        s
    }
}

/// Cuts the copies of `p` off the end of a text.
pub fn strip_suffixes(s: &str, p: &str) -> (r: String)
    ensures
        r@ == without_suffixes(s@, p@),
    decreases s@.len(),
{
    let v = to_chars(s);
    let q = to_chars(p);
    if q.len() > 0 && has_suffix(s, p) {
        let rest = from_chars(v.as_slice(), 0, v.len() - q.len());
        strip_suffixes(rest.as_str(), p)
    } else {
        s.to_string()
    }
}

/// The pieces of a text between the characters `c`.
pub open spec fn pieces(s: Seq<char>, c: char) -> Seq<Seq<char>>
    decreases s.len(),
{
    let p = last_position(s, c);
    if p < 0 || p >= s.len() {
        seq![s]
    } else {
        pieces(s.subrange(0, p), c).push(s.subrange(p + 1, s.len() as int))
    }
}

fn split_before(v: &Vec<char>, end: usize, c: char) -> (r: Vec<String>)
    requires
        end <= v@.len(),
    ensures
        r@.map_values(|s: String| s@) == pieces(v@.subrange(0, end as int), c),
    decreases end,
{
    let ghost part = v@.subrange(0, end as int);
    let from: usize = behind_last(v, end, c);
    proof {
        lemma_last_position(part, c);
    }
    let last = from_chars(v.as_slice(), from, end);
    if from == 0 {
        let mut r: Vec<String> = Vec::new();
        r.push(last);
        assert(r@.map_values(|s: String| s@) =~= seq![part]);
        r
    } else {
        let mut r = split_before(v, from - 1, c);
        let ghost head = r@;
        r.push(last);
        assert(part.subrange(0, from - 1) =~= v@.subrange(0, from - 1));
        assert(part.subrange(from as int, end as int) =~= v@.subrange(from as int, end as int));
        assert(r@.map_values(|s: String| s@) =~= head.map_values(|s: String| s@).push(last@));
        r
    }
}

/// Splits a text at every `c`.
pub fn split(s: &str, c: char) -> (r: Vec<String>)
    ensures
        r@.map_values(|s: String| s@) == pieces(s@, c),
{
    let v = to_chars(s);
    assert(v@.subrange(0, v@.len() as int) =~= s@);
    split_before(&v, v.len(), c)
}

/// A text and its characters hold the same, and a cut of it holds what lies between the two
/// positions.
pub proof fn law_characters_are_kept(
    s: &str,
    v: Vec<char>,
    chars: &[char],
    from: usize,
    to: usize,
    cut: String,
)
    requires
        from <= to <= v@.len(),
        call_ensures(to_chars, (s,), v),
        chars@ == v@,
        call_ensures(from_chars, (chars, from, to), cut),
    ensures
        v@ == s@,
        cut@.len() == to - from,
        forall|i: int| 0 <= i < cut@.len() ==> #[trigger] cut@[i] == s@[from + i],
{
}

/// Joined texts follow one another, and a text that was put before another can be cut off.
pub proof fn law_joined_texts_follow(
    a: &str,
    b: &str,
    c: &str,
    two: String,
    three: String,
    whole: &str,
    rest: Option<String>,
    suffix: bool,
)
    requires
        call_ensures(join, (a, b), two),
        call_ensures(join3, (a, b, c), three),
        whole@ == two@,
        call_ensures(strip_prefix, (whole, a), rest),
        call_ensures(has_suffix, (whole, b), suffix),
    ensures
        two@ == a@ + b@,
        three@ == a@ + b@ + c@,
        rest is Some && rest->0@ == b@,
        suffix,
{
    assert(whole@.subrange(0, a@.len() as int) =~= a@);
    assert(whole@.subrange(a@.len() as int, whole@.len() as int) =~= b@);
}

/// A prefix or a suffix is found only where the text has it.
pub proof fn law_only_what_is_there_is_cut(
    s: &str,
    p: &str,
    rest: Option<String>,
    suffix: bool,
)
    requires
        call_ensures(strip_prefix, (s, p), rest),
        call_ensures(has_suffix, (s, p), suffix),
    ensures
        rest is Some ==> s@ == p@ + rest->0@,
        suffix ==> exists|front: Seq<char>| s@ == #[trigger] (front + p@),
{
    if rest is Some {
        assert(s@ =~= p@ + rest->0@);
    }
    if suffix {
        let front = s@.subrange(0, s@.len() - p@.len());
        assert(s@ =~= front + p@);
    }
}

/// What is cut off the end of a text is the character that is asked for, and all of it.
pub proof fn law_ends_are_trimmed(s: &str, c: char, r: String, ends: bool)
    requires
        call_ensures(trim_end, (s, c), r),
        call_ensures(ends_in, (s, c), ends),
    ensures
        r@.len() <= s@.len(),
        forall|i: int| 0 <= i < r@.len() ==> #[trigger] r@[i] == s@[i],
        forall|i: int| r@.len() <= i < s@.len() ==> #[trigger] s@[i] == c,
        r@.len() > 0 ==> r@.last() != c,
        ends <==> r@.len() < s@.len(),
{
    lemma_trimmed_end(s@, c);
}

/// What is cut to the last occurrence of a character follows it, and holds none.
pub proof fn law_the_last_part_is_kept(s: &str, c: char, r: String, found: bool)
    requires
        call_ensures(cut_to_last, (s, c), r),
        call_ensures(contains, (s, c), found),
    ensures
        found <==> exists|i: int| 0 <= i < s@.len() && #[trigger] s@[i] == c,
        !r@.contains(c),
        !found ==> r@ == s@,
        found ==> exists|head: Seq<char>| s@ == #[trigger] (head + seq![c] + r@),
{
    lemma_last_position(s@, c);
    let p = last_position(s@, c);
    if r@.contains(c) {
        let i = choose|i: int| 0 <= i < r@.len() && r@[i] == c;
        assert(s@[p + 1 + i] == c);
    }
    if found {
        let head = s@.subrange(0, p);
        assert(s@ =~= head + seq![c] + r@);
    } else {
        assert(r@ =~= s@);
    }
}

/// The first character of a text is the one that it starts with, and two texts are the same
/// where all their characters are.
pub proof fn law_first_characters_are_found(
    s: &str,
    other: char,
    r: char,
    one: String,
    t: &str,
    same_text: bool,
)
    requires
        call_ensures(first_char, (s, other), r),
        call_ensures(of_char, (r,), one),
        call_ensures(same, (s, t), same_text),
    ensures
        s@.len() > 0 ==> r == s@[0],
        s@.len() == 0 ==> r == other,
        one@.len() == 1 && one@[0] == r,
        same_text <==> s@ == t@,
{
}

/// The pieces put together again, with the character between them.
pub open spec fn rejoined(parts: Seq<String>, c: char) -> Seq<char>
    decreases parts.len(),
{
    if parts.len() == 0 {
        Seq::empty()
    } else if parts.len() == 1 {
        parts[0]@
    } else {
        rejoined(parts.drop_last(), c) + seq![c] + parts.last()@
    }
}

proof fn lemma_pieces_rejoin(s: Seq<char>, c: char, parts: Seq<String>)
    requires
        parts.map_values(|p: String| p@) == pieces(s, c),
    ensures
        parts.len() > 0,
        rejoined(parts, c) == s,
        forall|i: int| 0 <= i < parts.len() ==> !(#[trigger] parts[i])@.contains(c),
    decreases s.len(),
{
    lemma_last_position(s, c);
    let p = last_position(s, c);
    let texts = parts.map_values(|p: String| p@);
    assert(texts.len() == parts.len());
    if p < 0 {
        assert(texts[0] == s);
        assert(parts[0]@ == texts[0]);
    } else {
        let front = parts.drop_last();
        let tail = s.subrange(p + 1, s.len() as int);
        let before = pieces(s.subrange(0, p), c);
        assert(texts == before.push(tail));
        assert(front.map_values(|p: String| p@) =~= before) by {
            assert forall|i: int| 0 <= i < front.len() implies front[i]@ == before[i] by {
                assert(front[i]@ == texts[i]);
            }
        }
        lemma_pieces_rejoin(s.subrange(0, p), c, front);
        assert(parts.last()@ == texts[parts.len() - 1]);
        assert(s =~= s.subrange(0, p) + seq![c] + tail);
        assert forall|i: int| 0 <= i < parts.len() implies !(#[trigger] parts[i])@.contains(c) by {
            if i < front.len() {
                assert(front[i] == parts[i]);
            } else {
                assert(parts[i]@ == tail);
                if tail.contains(c) {
                    let k = choose|k: int| 0 <= k < tail.len() && tail[k] == c;
                    assert(s[p + 1 + k] == c);
                }
            }
        }
    }
}

/// The pieces of a text make it up again with the character between them, and hold none.
pub proof fn law_pieces_make_up_the_text(s: &str, c: char, r: Vec<String>)
    requires
        call_ensures(split, (s, c), r),
    ensures
        r@.len() > 0,
        rejoined(r@, c) == s@,
        forall|i: int| 0 <= i < r@.len() ==> !(#[trigger] r@[i])@.contains(c),
{
    lemma_pieces_rejoin(s@, c, r@);
}

/// Whether a text is made of copies of another.
pub open spec fn is_copies(s: Seq<char>, p: Seq<char>) -> bool
    decreases s.len(),
{
    s.len() == 0 || (0 < p.len() <= s.len() && s.subrange(0, p.len() as int) == p && is_copies(
        s.subrange(p.len() as int, s.len() as int),
        p,
    ))
}

proof fn lemma_copies_then_one(s: Seq<char>, p: Seq<char>)
    requires
        is_copies(s, p),
        p.len() > 0,
    ensures
        is_copies(s + p, p),
    decreases s.len(),
{
    let whole = s + p;
    let n = p.len() as int;
    if s.len() == 0 {
        assert(whole.subrange(0, n) =~= p);
        assert(is_copies(whole.subrange(n, whole.len() as int), p));
    } else {
        lemma_copies_then_one(s.subrange(n, s.len() as int), p);
        assert(whole.subrange(0, n) =~= s.subrange(0, n));
        assert(whole.subrange(n, whole.len() as int) =~= s.subrange(n, s.len() as int) + p);
    }
}

proof fn lemma_without_suffixes(s: Seq<char>, p: Seq<char>)
    requires
        p.len() > 0,
    ensures
        without_suffixes(s, p).len() <= s.len(),
        s == without_suffixes(s, p) + s.subrange(
            without_suffixes(s, p).len() as int,
            s.len() as int,
        ),
        is_copies(s.subrange(without_suffixes(s, p).len() as int, s.len() as int), p),
        !ends_with(without_suffixes(s, p), p),
    decreases s.len(),
{
    if ends_with(s, p) {
        let k = s.len() - p.len();
        let front = s.subrange(0, k);
        lemma_without_suffixes(front, p);
        let r = without_suffixes(front, p);
        let tail = front.subrange(r.len() as int, k);
        lemma_copies_then_one(tail, p);
        assert(s.subrange(r.len() as int, s.len() as int) =~= tail + p);
        assert(s =~= front + p);
        assert(s =~= r + (tail + p));
    } else {
        assert(s.subrange(s.len() as int, s.len() as int) =~= Seq::empty());
        assert(s =~= s + Seq::empty());
    }
}

/// What is cut off a text is copies of the suffix, and what is left does not end in it.
pub proof fn law_suffixes_are_cut_off(s: &str, p: &str, r: String)
    requires
        p@.len() > 0,
        call_ensures(strip_suffixes, (s, p), r),
    ensures
        exists|copies: Seq<char>| #[trigger] is_copies(copies, p@) && s@ == r@ + copies,
        forall|front: Seq<char>| r@ != #[trigger] (front + p@),
{
    lemma_without_suffixes(s@, p@);
    let copies = s@.subrange(r@.len() as int, s@.len() as int);
    assert(is_copies(copies, p@) && s@ == r@ + copies);
    assert forall|front: Seq<char>| r@ != #[trigger] (front + p@) by {
        let t = front + p@;
        assert(t.subrange(t.len() - p@.len(), t.len() as int) =~= p@);
    }
}

} // verus!
