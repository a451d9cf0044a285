//! NZB files: what the parser makes of one, and which ones it is given.

use crate::octets::{byte_at, is_at, peek};
use crate::subject;
use vstd::prelude::*;
use vstd::slice::slice_subrange;

verus! {

/// A file that an NZB file lists.
#[derive(Clone, Debug, PartialEq, Eq)]
pub struct NzbFile {
    pub filename: String,
    /// The size of all segments together, as they are posted.
    pub bytes: u64,
    pub is_par2: bool,
    /// The articles of the segments, in the order of the NZB file.
    pub message_ids: Vec<String>,
}

/// What an NZB file lists.
#[derive(Clone, Debug, PartialEq, Eq)]
pub struct NzbJob {
    pub files: Vec<NzbFile>,
    /// The password in the metadata.
    pub password: Option<String>,
}

/// An `NzbFile` with its texts as sequences of characters.
pub struct NzbFileView {
    pub filename: Seq<char>,
    pub bytes: u64,
    pub is_par2: bool,
    pub message_ids: Seq<Seq<char>>,
}

/// An `NzbJob` with its texts as sequences of characters.
pub struct NzbJobView {
    pub files: Seq<NzbFileView>,
    pub password: Option<Seq<char>>,
}

/// Texts as sequences of characters.
pub open spec fn texts(v: Seq<String>) -> Seq<Seq<char>> {
    v.map_values(|s: String| s@)
}

impl View for NzbFile {
    type V = NzbFileView;

    open spec fn view(&self) -> NzbFileView {
        NzbFileView {
            filename: self.filename@,
            bytes: self.bytes,
            is_par2: self.is_par2,
            message_ids: texts(self.message_ids@),
        }
    }
}

impl View for NzbJob {
    type V = NzbJobView;

    open spec fn view(&self) -> NzbJobView {
        NzbJobView {
            files: self.files@.map_values(|f: NzbFile| f@),
            password: match self.password {
                Some(p) => Some(p@),
                None => None,
            },
        }
    }
}

/// The result of parsing, its texts as sequences of characters.
pub open spec fn job_view(r: Result<NzbJob, String>) -> Result<NzbJobView, Seq<char>> {
    match r {
        Ok(job) => Ok(job@),
        Err(e) => Err(e@),
    }
}

/// Whether a byte is white space.
pub open spec fn is_space(b: int) -> bool {
    b == 0x20 || b == 0x09 || b == 0x0a || b == 0x0d
}

/// Whether a tag `file` with attributes starts here.
pub open spec fn is_file_tag(data: Seq<u8>, i: int) -> bool {
    &&& byte_at(data, i) == 0x3c
    &&& byte_at(data, i + 1) == 0x66
    &&& byte_at(data, i + 2) == 0x69
    &&& byte_at(data, i + 3) == 0x6c
    &&& byte_at(data, i + 4) == 0x65
    &&& is_space(byte_at(data, i + 5))
}

/// Whether a tag `segment` with attributes starts here.
pub open spec fn is_segment_tag(data: Seq<u8>, i: int) -> bool {
    &&& byte_at(data, i) == 0x3c
    &&& byte_at(data, i + 1) == 0x73
    &&& byte_at(data, i + 2) == 0x65
    &&& byte_at(data, i + 3) == 0x67
    &&& byte_at(data, i + 4) == 0x6d
    &&& byte_at(data, i + 5) == 0x65
    &&& byte_at(data, i + 6) == 0x6e
    &&& byte_at(data, i + 7) == 0x74
    &&& is_space(byte_at(data, i + 8))
}

/// Where the tag around a position ends: at the first `>` that stands in no quotes, or at
/// the end of the data. `quote` is the quote that is open, 0 where none is.
pub open spec fn tag_end(data: Seq<u8>, i: int, quote: u8) -> int
    decreases data.len() - i,
{
    if i < 0 || i >= data.len() {
        data.len() as int
    } else if quote != 0 {
        tag_end(
            data,
            i + 1,
            if data[i] == quote {
                0
            } else {
                quote
            },
        )
    } else if data[i] == 0x3e {
        i
    } else if data[i] == 0x22 || data[i] == 0x27 {
        tag_end(data, i + 1, data[i])
    } else {
        tag_end(data, i + 1, 0)
    }
}

/// Whether the tag that ends here opens an element, and does not close it at once.
pub open spec fn opens_element(data: Seq<u8>, end: int) -> bool {
    end < data.len() && byte_at(data, end - 1) != 0x2f
}

/// Whether the name of an attribute can start here.
pub open spec fn can_start(data: Seq<u8>, i: int) -> bool {
    let before = byte_at(data, i - 1);
    is_space(before) || before == 0x22 || before == 0x27
}

/// Whether the word `subject` starts here.
pub open spec fn is_subject_word(data: Seq<u8>, i: int) -> bool {
    &&& byte_at(data, i) == 0x73
    &&& byte_at(data, i + 1) == 0x75
    &&& byte_at(data, i + 2) == 0x62
    &&& byte_at(data, i + 3) == 0x6a
    &&& byte_at(data, i + 4) == 0x65
    &&& byte_at(data, i + 5) == 0x63
    &&& byte_at(data, i + 6) == 0x74
}

/// Whether the word `bytes` starts here.
pub open spec fn is_bytes_word(data: Seq<u8>, i: int) -> bool {
    &&& byte_at(data, i) == 0x62
    &&& byte_at(data, i + 1) == 0x79
    &&& byte_at(data, i + 2) == 0x74
    &&& byte_at(data, i + 3) == 0x65
    &&& byte_at(data, i + 4) == 0x73
}

/// The first position from here on that is no white space.
pub open spec fn skip_spaces(data: Seq<u8>, i: int) -> int
    decreases data.len() - i,
{
    if 0 <= i < data.len() && is_space(data[i] as int) {
        skip_spaces(data, i + 1)
    } else {
        i
    }
}

/// The position of the quote that opens the value of an attribute whose name ends here, or
/// `-1` where there is none.
pub open spec fn opening(data: Seq<u8>, i: int) -> int {
    let equals = skip_spaces(data, i);
    let quote = skip_spaces(data, equals + 1);
    if byte_at(data, equals) == 0x3d && (byte_at(data, quote) == 0x22 || byte_at(data, quote)
        == 0x27) {
        quote
    } else {
        -1
    }
}

/// The first position from here on that holds the byte, or the end of the data.
pub open spec fn closing(data: Seq<u8>, i: int, quote: u8) -> int
    decreases data.len() - i,
{
    if i < 0 || i >= data.len() {
        data.len() as int
    } else if data[i] == quote {
        i
    } else {
        closing(data, i + 1, quote)
    }
}

/// The value of an attribute whose name ends here, in a tag with this end.
pub open spec fn value_behind(data: Seq<u8>, i: int, end: int) -> Option<Seq<u8>> {
    let open = opening(data, i);
    let close = closing(data, open + 1, data[open]);
    if open >= 0 && close < end {
        Some(data.subrange(open + 1, close))
    } else {
        None
    }
}

/// Whether the parser can cut the file name in a subject that starts here, if one does.
pub open spec fn names_well(data: Seq<u8>, i: int, end: int) -> bool {
    can_start(data, i) && is_subject_word(data, i) ==> match value_behind(data, i + 7, end) {
        Some(value) => subject::is_readable(value),
        None => true,
    }
}

/// Whether the parser can cut the file name in the subject of a file that starts here, if
/// one does.
pub open spec fn file_names_well(data: Seq<u8>, i: int) -> bool {
    let end = tag_end(data, i, 0);
    is_file_tag(data, i) && opens_element(data, end) ==> forall|k: int|
        i < k < end ==> #[trigger] names_well(data, k, end)
}

/// The number that decimal digits make up, or `-1` where one of them is none. Beyond 64 bits
/// it stays.
pub open spec fn number_in(digits: Seq<u8>) -> int
    decreases digits.len(),
{
    if digits.len() == 0 {
        0
    } else {
        let before = number_in(digits.drop_last());
        let d = digits.last() - 0x30;
        if before < 0 || d < 0 || d > 9 {
            -1
        } else if before > u64::MAX {
            before
        } else {
            before * 10 + d
        }
    }
}

/// The size that a value gives. One that is no number of 64 bits counts as none.
pub open spec fn size_of(value: Seq<u8>) -> int {
    let n = number_in(
        if value.len() > 0 && value[0] == 0x2b {
            value.skip(1)
        } else {
            value
        },
    );
    if 0 <= n <= u64::MAX {
        n
    } else {
        0
    }
}

/// The size that an attribute `bytes` which starts here gives, if one does.
pub open spec fn size_at(data: Seq<u8>, i: int, end: int) -> int {
    if can_start(data, i) && is_bytes_word(data, i) {
        match value_behind(data, i + 5, end) {
            Some(value) => size_of(value),
            None => 0,
        }
    } else {
        0
    }
}

/// All sizes between two positions of a tag together.
pub open spec fn sizes_between(data: Seq<u8>, from: int, i: int, end: int) -> int
    decreases i - from,
{
    if i <= from {
        0
    } else {
        sizes_between(data, from, i - 1, end) + size_at(data, i - 1, end)
    }
}

/// The size of a segment that starts here, if one does.
pub open spec fn segment_size(data: Seq<u8>, i: int) -> int {
    let end = tag_end(data, i, 0);
    if is_segment_tag(data, i) && opens_element(data, end) {
        sizes_between(data, i, end, end)
    } else {
        0
    }
}

/// The sizes of all segments before a position together.
pub open spec fn sizes_before(data: Seq<u8>, i: int) -> int
    decreases i,
{
    if i <= 0 {
        0
    } else {
        sizes_before(data, i - 1) + segment_size(data, i - 1)
    }
}

/// Whether the parser can be given the data: the sizes of its segments fit in 64 bits
/// together, and it can cut the file name in the subject of every file.
pub open spec fn is_readable(data: Seq<u8>) -> bool {
    &&& data.len() + 16 <= usize::MAX
    &&& sizes_before(data, data.len() as int) <= u64::MAX
    &&& forall|i: int| 0 <= i < data.len() ==> #[trigger] file_names_well(data, i)
}

/// Whether white space stands at a position.
fn space_at(data: &[u8], i: usize) -> (r: bool)
    ensures
        r == is_space(byte_at(data@, i as int)),
{
    match peek(data, i) {
        Some(b) => b == 0x20 || b == 0x09 || b == 0x0a || b == 0x0d,
        None => false,
    }
}

fn file_tag_at(data: &[u8], i: usize) -> (r: bool)
    requires
        i + 16 <= usize::MAX,
    ensures
        r == is_file_tag(data@, i as int),
{
    is_at(data, i, 0x3c) && is_at(data, i + 1, 0x66) && is_at(data, i + 2, 0x69) && is_at(
        data,
        i + 3,
        0x6c,
    ) && is_at(data, i + 4, 0x65) && space_at(data, i + 5)
}

fn segment_tag_at(data: &[u8], i: usize) -> (r: bool)
    requires
        i + 16 <= usize::MAX,
    ensures
        r == is_segment_tag(data@, i as int),
{
    is_at(data, i, 0x3c) && is_at(data, i + 1, 0x73) && is_at(data, i + 2, 0x65) && is_at(
        data,
        i + 3,
        0x67,
    ) && is_at(data, i + 4, 0x6d) && is_at(data, i + 5, 0x65) && is_at(data, i + 6, 0x6e) && is_at(
        data,
        i + 7,
        0x74,
    ) && space_at(data, i + 8)
}

fn starts_at(data: &[u8], i: usize) -> (r: bool)
    ensures
        r == can_start(data@, i as int),
{
    i > 0 && (space_at(data, i - 1) || is_at(data, i - 1, 0x22) || is_at(data, i - 1, 0x27))
}

fn subject_word_at(data: &[u8], i: usize) -> (r: bool)
    requires
        i + 16 <= usize::MAX,
    ensures
        r == is_subject_word(data@, i as int),
{
    is_at(data, i, 0x73) && is_at(data, i + 1, 0x75) && is_at(data, i + 2, 0x62) && is_at(
        data,
        i + 3,
        0x6a,
    ) && is_at(data, i + 4, 0x65) && is_at(data, i + 5, 0x63) && is_at(data, i + 6, 0x74)
}

fn bytes_word_at(data: &[u8], i: usize) -> (r: bool)
    requires
        i + 16 <= usize::MAX,
    ensures
        r == is_bytes_word(data@, i as int),
{
    is_at(data, i, 0x62) && is_at(data, i + 1, 0x79) && is_at(data, i + 2, 0x74) && is_at(
        data,
        i + 3,
        0x65,
    ) && is_at(data, i + 4, 0x73)
}

fn find_end(data: &[u8], from: usize) -> (r: usize)
    requires
        from <= data@.len(),
    ensures
        r == tag_end(data@, from as int, 0),
        from <= r <= data@.len(),
        r < data@.len() ==> data@[r as int] == 0x3e,
{
    let mut quote: u8 = 0;
    let mut i: usize = from;
    while i < data.len()
        invariant
            from <= i <= data@.len(),
            tag_end(data@, from as int, 0) == tag_end(data@, i as int, quote),
        decreases data@.len() - i,
    {
        let b: u8 = data[i];
        if quote != 0 {
            if b == quote {
                quote = 0;
            }
        } else if b == 0x3e {
            return i;
        } else if b == 0x22 || b == 0x27 {
            quote = b;
        }
        i += 1;
    }
    i
}

fn spaces_end(data: &[u8], from: usize) -> (r: usize)
    requires
        from <= data@.len(),
    ensures
        r == skip_spaces(data@, from as int),
        from <= r <= data@.len(),
{
    let mut i: usize = from;
    while i < data.len() && space_at(data, i)
        invariant
            from <= i <= data@.len(),
            skip_spaces(data@, from as int) == skip_spaces(data@, i as int),
        decreases data@.len() - i,
    {
        i += 1;
    }
    i
}

fn read_value(data: &[u8], i: usize, end: usize) -> (r: Option<&[u8]>)
    requires
        i <= data@.len(),
        end <= data@.len(),
    ensures
        match r {
            Some(v) => value_behind(data@, i as int, end as int) == Some(v@) && v@.len()
                <= data@.len(),
            None => value_behind(data@, i as int, end as int) is None,
        },
{
    let n: usize = data.len();
    let equals: usize = spaces_end(data, i);
    if !is_at(data, equals, 0x3d) {
        return None;
    }
    assert(equals < n);
    let open: usize = spaces_end(data, equals + 1);
    if !is_at(data, open, 0x22) && !is_at(data, open, 0x27) {
        return None;
    }
    let quote: u8 = data[open];
    let from: usize = open + 1;
    let mut close: usize = from;
    while close < data.len() && data[close] != quote
        invariant
            from <= close <= data@.len(),
            closing(data@, from as int, quote) == closing(data@, close as int, quote),
        decreases data@.len() - close,
    {
        close += 1;
    }
    if close < end {
        Some(slice_subrange(data, from, close))
    } else {
        None
    }
}

fn check_file(data: &[u8], i: usize) -> (r: bool)
    requires
        i < data@.len(),
        data@.len() + 16 <= usize::MAX,
    ensures
        r == file_names_well(data@, i as int),
{
    if !file_tag_at(data, i) {
        return true;
    }
    let end: usize = find_end(data, i);
    if end == data.len() || data[end - 1] == 0x2f {
        return true;
    }
    let mut k: usize = i + 1;
    while k < end
        invariant
            i + 1 <= k,
            i < end < data@.len(),
            data@.len() + 16 <= usize::MAX,
            end == tag_end(data@, i as int, 0),
            is_file_tag(data@, i as int),
            opens_element(data@, end as int),
            forall|j: int| i < j < k && j < end ==> #[trigger] names_well(data@, j, end as int),
        decreases end - k,
    {
        if starts_at(data, k) && subject_word_at(data, k) {
            if let Some(value) = read_value(data, k + 7, end) {
                if !subject::subject_is_readable(value) {
                    assert(!names_well(data@, k as int, end as int));
                    return false;
                }
            }
        }
        k += 1;
    }
    true
}

fn read_size(value: &[u8]) -> (r: u64)
    ensures
        r == size_of(value@),
{
    let from: usize = if value.len() > 0 && value[0] == 0x2b {
        1
    } else {
        0
    };
    let ghost digits = value@.skip(from as int);
    let mut n: u128 = 0;
    let mut bad = false;
    let mut i: usize = from;
    while i < value.len()
        invariant
            from <= i <= value@.len(),
            digits == value@.skip(from as int),
            n <= 10 * (u64::MAX as int) + 9,
            bad ==> number_in(digits.take(i - from)) == -1,
            !bad ==> number_in(digits.take(i - from)) == n,
        decreases value@.len() - i,
    {
        assert(digits.take(i + 1 - from).drop_last() =~= digits.take(i - from));
        let b: u8 = value[i];
        if b < 0x30 || b > 0x39 {
            bad = true;
        } else if !bad && n <= u64::MAX as u128 {
            n = n * 10 + (b - 0x30) as u128;
        }
        i += 1;
    }
    assert(digits.take(i - from) =~= digits);
    assert(from == 0 ==> digits =~= value@);
    if bad || n > u64::MAX as u128 {
        0
    } else {
        n as u64
    }
}

proof fn lemma_sizes_between(data: Seq<u8>, from: int, i: int, j: int, end: int)
    requires
        i <= j,
    ensures
        0 <= sizes_between(data, from, i, end) <= sizes_between(data, from, j, end),
    decreases j - from,
{
    if from < j {
        if i < j {
            lemma_sizes_between(data, from, i, j - 1, end);
        } else {
            lemma_sizes_between(data, from, i - 1, j - 1, end);
        }
    }
}

proof fn lemma_sizes_grow(data: Seq<u8>, i: int, j: int)
    requires
        0 <= i <= j,
    ensures
        0 <= sizes_before(data, i) <= sizes_before(data, j),
    decreases j,
{
    if 0 < j {
        let end = tag_end(data, j - 1, 0);
        lemma_sizes_between(data, j - 1, end, end, end);
        if i < j {
            lemma_sizes_grow(data, i, j - 1);
        } else {
            lemma_sizes_grow(data, i - 1, j - 1);
        }
    }
}

/// The size of a segment that starts at a position, or nothing where it does not fit in 64
/// bits.
fn read_segment(data: &[u8], i: usize) -> (r: Option<u64>)
    requires
        i < data@.len(),
        data@.len() + 16 <= usize::MAX,
    ensures
        match r {
            Some(n) => n == segment_size(data@, i as int),
            None => segment_size(data@, i as int) > u64::MAX,
        },
{
    if !segment_tag_at(data, i) {
        return Some(0);
    }
    let end: usize = find_end(data, i);
    if end == data.len() || data[end - 1] == 0x2f {
        return Some(0);
    }
    let mut sum: u64 = 0;
    let mut k: usize = i;
    while k < end
        invariant
            i <= k <= end < data@.len(),
            data@.len() + 16 <= usize::MAX,
            segment_size(data@, i as int) == sizes_between(data@, i as int, end as int, end as int),
            sum == sizes_between(data@, i as int, k as int, end as int),
        decreases end - k,
    {
        let mut size: u64 = 0;
        if starts_at(data, k) && bytes_word_at(data, k) {
            if let Some(value) = read_value(data, k + 5, end) {
                size = read_size(value);
            }
        }
        if size > u64::MAX - sum {
            proof {
                lemma_sizes_between(data@, i as int, k + 1, end as int, end as int);
            }
            return None;
        }
        sum = sum + size;
        k += 1;
    }
    Some(sum)
}

/// Checks whether the parser can be given the data.
pub fn nzb_is_readable(data: &[u8]) -> (r: bool)
    ensures
        r == is_readable(data@),
{
    if data.len() > usize::MAX - 16 {
        return false;
    }
    let mut i: usize = 0;
    let mut sizes: u64 = 0;
    while i < data.len()
        invariant
            i <= data@.len(),
            data@.len() + 16 <= usize::MAX,
            sizes == sizes_before(data@, i as int),
            forall|k: int| 0 <= k < i ==> #[trigger] file_names_well(data@, k),
        decreases data@.len() - i,
    {
        proof {
            lemma_sizes_grow(data@, i + 1, data@.len() as int);
            lemma_sizes_grow(data@, i as int, i + 1);
        }
        match read_segment(data, i) {
            Some(size) if size <= u64::MAX - sizes => {
                sizes = sizes + size;
            },
            _ => {
                return false;
            },
        }
        if !check_file(data, i) {
            assert(!file_names_well(data@, i as int));
            return false;
        }
        i += 1;
    }
    true
}

/// What `nzb_core` parses from the bytes of an NZB file, or its error's text.
pub uninterp spec fn nzb_parsed(data: Seq<u8>) -> Result<NzbJobView, Seq<char>>;

/// `nzb_core::nzb_parser::parse_nzb`: the files, articles and password of an NZB file, or
/// the text of the error. They depend on the bytes alone, and what they are is left unsaid;
/// the identifiers and times that the parser adds are dropped. The parser adds up segment
/// sizes and cuts the names of PAR2 files at positions that it finds in their lower case:
/// the data are such that neither fails.
#[verifier::external_body]
pub(crate) fn parse_nzb(name: &str, data: &[u8]) -> (r: Result<NzbJob, String>)
    requires
        is_readable(data@),
    ensures
        job_view(r) == nzb_parsed(data@),
{
    let job = nzb_core::nzb_parser::parse_nzb(name, data).map_err(|e| e.to_string())?;
    let convert = |f: nzb_core::models::NzbFile| NzbFile {
        filename: f.filename,
        bytes: f.bytes,
        is_par2: f.is_par2,
        message_ids: f.articles.into_iter().map(|a| a.message_id).collect(),
    };
    Ok(NzbJob { files: job.files.into_iter().map(convert).collect(), password: job.password })
}

/// Why the parser is not given data.
pub const UNREADABLE: &'static str = "sizes or names that the parser cannot take";

/// What comes of the bytes of an NZB file: what `nzb_core` parses from them, where it can
/// be given them.
pub open spec fn nzb_read(data: Seq<u8>) -> Result<NzbJobView, Seq<char>> {
    if is_readable(data) {
        nzb_parsed(data)
    } else {
        Err(UNREADABLE@)
    }
}

/// Parses an NZB file, where the parser can be given it.
pub fn read_nzb(name: &str, data: &[u8]) -> (r: Result<NzbJob, String>)
    ensures
        job_view(r) == nzb_read(data@),
{
    if nzb_is_readable(data) {
        parse_nzb(name, data)
    } else {
        Err(UNREADABLE.to_string())
    }
}

/// The size of all files together.
pub open spec fn total_bytes(files: Seq<NzbFileView>) -> nat
    decreases files.len(),
{
    if files.len() == 0 {
        0
    } else {
        total_bytes(files.drop_last()) + files.last().bytes as nat
    }
}

/// Adds up the sizes of all files, in 64 bits.
pub fn sum_bytes(job: &NzbJob) -> (r: u64)
    ensures
        r == total_bytes(job@.files) % 0x1_0000_0000_0000_0000,
{
    let mut sum: u64 = 0;
    let mut i: usize = 0;
    let ghost all = job@.files;
    assert(all.take(0) =~= Seq::empty());
    while i < job.files.len()
        invariant
            i <= job.files@.len(),
            all == job@.files,
            sum == total_bytes(all.take(i as int)) % 0x1_0000_0000_0000_0000,
        decreases job.files@.len() - i,
    {
        assert(all.take(i + 1).drop_last() =~= all.take(i as int));
        assert(all.take(i + 1).last() == job.files@[i as int]@);
        sum = sum.wrapping_add(job.files[i].bytes);
        i += 1;
    }
    assert(all.take(all.len() as int) =~= all);
    sum
}

/// Another file adds its size to the sum, which wraps around in 64 bits; no files have none.
pub proof fn law_sizes_add_up(job: &NzbJob, longer: &NzbJob, a: u64, b: u64)
    requires
        longer.files@.len() > 0,
        job.files@ == longer.files@.drop_last(),
        call_ensures(sum_bytes, (job,), a),
        call_ensures(sum_bytes, (longer,), b),
    ensures
        b == (a + longer.files@.last().bytes) % 0x1_0000_0000_0000_0000,
        job.files@.len() == 0 ==> a == 0,
{
    assert(longer@.files.drop_last() =~= job@.files);
    assert(longer@.files.last() == longer.files@.last()@);
    let t = total_bytes(job@.files) as int;
    let n = longer.files@.last().bytes as int;
    vstd::arithmetic::div_mod::lemma_add_mod_noop(t, n, 0x1_0000_0000_0000_0000);
    vstd::arithmetic::div_mod::lemma_small_mod(n as nat, 0x1_0000_0000_0000_0000);
}

/// Whatever the parser can be given is parsed, and the result is the parser's; anything else
/// is an error of its own.
pub proof fn law_readable_data_are_parsed(
    name: &str,
    data: &[u8],
    readable: bool,
    r: Result<NzbJob, String>,
)
    requires
        call_ensures(nzb_is_readable, (data,), readable),
        call_ensures(read_nzb, (name, data), r),
    ensures
        readable ==> (r is Ok <==> nzb_parsed(data@) is Ok),
        readable && r is Ok ==> r->Ok_0@ == nzb_parsed(data@)->Ok_0,
        readable && r is Err ==> r->Err_0@ == nzb_parsed(data@)->Err_0,
        !readable ==> r is Err && r->Err_0@ == UNREADABLE@,
{
}

/// The number that decimal digits stand for.
pub open spec fn digits_value(d: Seq<u8>) -> int
    decreases d.len(),
{
    if d.len() == 0 {
        0
    } else {
        digits_value(d.drop_last()) * 10 + (d.last() - 0x30)
    }
}

/// Whether all bytes are decimal digits.
pub open spec fn is_digits(d: Seq<u8>) -> bool {
    forall|k: int| 0 <= k < d.len() ==> 0x30 <= #[trigger] d[k] <= 0x39
}

proof fn lemma_number_in(d: Seq<u8>)
    requires
        is_digits(d),
    ensures
        digits_value(d) >= 0,
        digits_value(d) <= u64::MAX ==> number_in(d) == digits_value(d),
    decreases d.len(),
{
    if d.len() > 0 {
        let front = d.drop_last();
        assert forall|k: int| 0 <= k < front.len() implies 0x30 <= #[trigger] front[k] <= 0x39 by {
            assert(front[k] == d[k]);
        }
        lemma_number_in(front);
        assert(0x30 <= d[d.len() - 1] <= 0x39);
    }
}

/// The tag of a segment whose size is written in these digits.
pub open spec fn segment_tag(d: Seq<u8>) -> Seq<u8> {
    seq![
        0x3cu8,
        0x73,
        0x65,
        0x67,
        0x6d,
        0x65,
        0x6e,
        0x74,
        0x20,
        0x62,
        0x79,
        0x74,
        0x65,
        0x73,
        0x3d,
        0x22,
    ] + d + seq![0x22u8, 0x3e]
}

/// Whether a tag stands at a position.
pub open spec fn stands_at(data: Seq<u8>, o: int, tag: Seq<u8>) -> bool {
    &&& 0 <= o
    &&& o + tag.len() <= data.len()
    &&& forall|k: int| 0 <= k < tag.len() ==> data[o + k] == #[trigger] tag[k]
}

proof fn lemma_tag_plain(data: Seq<u8>, i: int, j: int)
    requires
        0 <= i <= j <= data.len(),
        forall|k: int|
            i <= k < j ==> #[trigger] data[k] != 0x3e && data[k] != 0x22 && data[k] != 0x27,
    ensures
        tag_end(data, i, 0) == tag_end(data, j, 0),
    decreases j - i,
{
    if i < j {
        lemma_tag_plain(data, i + 1, j);
    }
}

proof fn lemma_tag_quoted(data: Seq<u8>, i: int, j: int)
    requires
        0 <= i <= j <= data.len(),
        forall|k: int| i <= k < j ==> #[trigger] data[k] != 0x22,
    ensures
        tag_end(data, i, 0x22) == tag_end(data, j, 0x22),
    decreases j - i,
{
    if i < j {
        lemma_tag_quoted(data, i + 1, j);
    }
}

proof fn lemma_closing(data: Seq<u8>, i: int, j: int)
    requires
        0 <= i <= j < data.len(),
        data[j] == 0x22,
        forall|k: int| i <= k < j ==> #[trigger] data[k] != 0x22,
    ensures
        closing(data, i, 0x22) == j,
    decreases j - i,
{
    if i < j {
        lemma_closing(data, i + 1, j);
    }
}

proof fn lemma_no_sizes(data: Seq<u8>, from: int, i: int, j: int, end: int)
    requires
        from <= i <= j,
        forall|k: int| i <= k < j ==> #[trigger] byte_at(data, k) != 0x62,
    ensures
        sizes_between(data, from, j, end) == sizes_between(data, from, i, end),
    decreases j - i,
{
    if i < j {
        lemma_no_sizes(data, from, i, j - 1, end);
        assert(byte_at(data, j - 1) != 0x62);
    }
}

/// The bytes of a tag at a position.
proof fn lemma_tag_bytes(data: Seq<u8>, o: int, d: Seq<u8>)
    requires
        is_digits(d),
        stands_at(data, o, segment_tag(d)),
    ensures
        is_segment_tag(data, o),
        byte_at(data, o + 8) == 0x20,
        is_bytes_word(data, o + 9),
        byte_at(data, o + 14) == 0x3d,
        byte_at(data, o + 15) == 0x22,
        data[o + 15] == 0x22,
        byte_at(data, o + 16 + d.len()) == 0x22,
        byte_at(data, o + 17 + d.len()) == 0x3e,
        data.subrange(o + 16, o + 16 + d.len()) == d,
        forall|k: int|
            o < k <= o + 17 + d.len() ==> #[trigger] data[k] != 0x3c && (k != o + 9 ==> data[k]
                != 0x62),
        forall|k: int|
            o <= k < o + 15 ==> #[trigger] data[k] != 0x3e && data[k] != 0x22 && data[k] != 0x27,
        forall|k: int| o + 16 <= k < o + 16 + d.len() ==> 0x30 <= #[trigger] data[k] <= 0x39,
{
    let tag = segment_tag(d);
    let m = d.len() as int;
    assert forall|k: int| 0 <= k < 18 + m implies data[o + k] == #[trigger] tag[k] by {}
    assert(tag[0] == 0x3c && tag[1] == 0x73 && tag[2] == 0x65 && tag[3] == 0x67 && tag[4] == 0x6d);
    assert(tag[5] == 0x65 && tag[6] == 0x6e && tag[7] == 0x74 && tag[8] == 0x20 && tag[9] == 0x62);
    assert(tag[10] == 0x79 && tag[11] == 0x74 && tag[12] == 0x65 && tag[13] == 0x73);
    assert(tag[14] == 0x3d && tag[15] == 0x22 && tag[16 + m] == 0x22 && tag[17 + m] == 0x3e);
    assert forall|k: int| 0 <= k < m implies #[trigger] tag[16 + k] == d[k] by {}
    assert(data.subrange(o + 16, o + 16 + m) =~= d) by {
        assert forall|k: int| 0 <= k < m implies data[o + 16 + k] == d[k] by {
            assert(tag[16 + k] == d[k]);
        }
    }
    assert forall|k: int| o <= k < o + 18 + m implies #[trigger] data[k] == tag[k - o] by {
        assert(data[o + (k - o)] == tag[k - o]);
    }
    assert forall|k: int| o + 16 <= k < o + 16 + m implies 0x30 <= #[trigger] data[k] <= 0x39 by {
        assert(tag[16 + (k - o - 16)] == d[k - o - 16]);
    }
}

/// A tag at a position gives the size that its digits stand for.
proof fn lemma_tag_size(data: Seq<u8>, o: int, d: Seq<u8>)
    requires
        d.len() > 0,
        is_digits(d),
        digits_value(d) <= u64::MAX,
        stands_at(data, o, segment_tag(d)),
    ensures
        segment_size(data, o) == digits_value(d),
        sizes_before(data, o + 18 + d.len()) == sizes_before(data, o) + digits_value(d),
{
    let m = d.len() as int;
    let end = o + 17 + m;
    lemma_tag_bytes(data, o, d);
    lemma_tag_plain(data, o, o + 15);
    lemma_tag_quoted(data, o + 16, o + 16 + m);
    assert(data[o + 15] == 0x22 && data[o + 16 + m] == 0x22 && data[end] == 0x3e);
    assert(tag_end(data, o + 16 + m, 0x22) == tag_end(data, end, 0));
    assert(tag_end(data, o, 0) == end);
    lemma_closing(data, o + 16, o + 16 + m);
    assert(skip_spaces(data, o + 14) == o + 14);
    assert(skip_spaces(data, o + 15) == o + 15);
    assert(opening(data, o + 14) == o + 15);
    assert(value_behind(data, o + 14, end) == Some(d));
    lemma_number_in(d);
    assert(d[0] != 0x2b);
    assert(size_of(d) == digits_value(d));
    assert(can_start(data, o + 9));
    assert(size_at(data, o + 9, end) == digits_value(d));
    assert(byte_at(data, o) == 0x3c);
    lemma_no_sizes(data, o, o, o + 9, end);
    lemma_no_sizes(data, o, o + 10, end, end);
    lemma_no_tags(data, o + 1, end + 1);
}

proof fn lemma_no_tags(data: Seq<u8>, i: int, j: int)
    requires
        0 < i <= j,
        forall|k: int| i <= k < j ==> #[trigger] byte_at(data, k) != 0x3c,
    ensures
        sizes_before(data, j) == sizes_before(data, i),
    decreases j - i,
{
    if i < j {
        lemma_no_tags(data, i, j - 1);
        assert(byte_at(data, j - 1) != 0x3c);
    }
}

/// Two segments can be given to the parser if their sizes add up within 64 bits, and only
/// then.
pub proof fn law_sizes_must_fit_together(
    data: &[u8],
    first: Seq<u8>,
    second: Seq<u8>,
    r: bool,
)
    requires
        data@.len() + 16 <= usize::MAX,
        first.len() > 0 && is_digits(first) && digits_value(first) <= u64::MAX,
        second.len() > 0 && is_digits(second) && digits_value(second) <= u64::MAX,
        data@ == segment_tag(first) + segment_tag(second),
        call_ensures(nzb_is_readable, (data,), r),
    ensures
        r <==> digits_value(first) + digits_value(second) <= u64::MAX,
{
    let b = data@;
    let o = 18 + first.len();
    assert(segment_tag(first).len() == o);
    assert(stands_at(b, 0, segment_tag(first)));
    assert(stands_at(b, o as int, segment_tag(second))) by {
        let tag = segment_tag(second);
        assert forall|k: int| 0 <= k < tag.len() implies b[o + k] == #[trigger] tag[k] by {}
    }
    lemma_tag_size(b, 0, first);
    lemma_tag_size(b, o as int, second);
    assert(sizes_before(b, 0) == 0);
    assert(sizes_before(b, b.len() as int) == digits_value(first) + digits_value(second));
    lemma_tag_bytes(b, 0, first);
    lemma_tag_bytes(b, o as int, second);
    assert forall|i: int| 0 <= i < b.len() implies #[trigger] file_names_well(b, i) by {
        if i == 0 || i == o {
            assert(byte_at(b, i + 1) == 0x73);
        } else {
            assert(b[i] != 0x3c);
        }
        assert(!is_file_tag(b, i));
    }
}

/// Data without tags can be given to the parser.
pub proof fn law_data_without_tags_are_readable(data: &[u8], r: bool)
    requires
        data@.len() + 16 <= usize::MAX,
        forall|k: int| 0 <= k < data@.len() ==> #[trigger] data@[k] != 0x3c,
        call_ensures(nzb_is_readable, (data,), r),
    ensures
        r,
{
    let b = data@;
    assert forall|k: int| 0 <= k < b.len() implies #[trigger] byte_at(b, k) != 0x3c by {
        assert(b[k] != 0x3c);
    }
    if b.len() > 0 {
        assert(byte_at(b, 0) != 0x3c);
        assert(sizes_before(b, 1) == 0) by {
            assert(sizes_before(b, 0) == 0);
        }
        lemma_no_tags(b, 1, b.len() as int);
    }
    assert forall|i: int| 0 <= i < b.len() implies #[trigger] file_names_well(b, i) by {
        assert(byte_at(b, i) != 0x3c);
    }
}

/// The tag of a file with this subject.
pub open spec fn file_tag(subject: Seq<u8>) -> Seq<u8> {
    seq![
        0x3cu8,
        0x66,
        0x69,
        0x6c,
        0x65,
        0x20,
        0x73,
        0x75,
        0x62,
        0x6a,
        0x65,
        0x63,
        0x74,
        0x3d,
        0x22,
    ] + subject + seq![0x22u8, 0x3e]
}

proof fn lemma_skip_spaces(data: Seq<u8>, i: int)
    ensures
        skip_spaces(data, i) >= i,
    decreases data.len() - i,
{
    if 0 <= i < data.len() && is_space(data[i] as int) {
        lemma_skip_spaces(data, i + 1);
    }
}

/// A file can be given to the parser if its subject can, and only then.
pub proof fn law_subjects_decide_of_files(
    data: &[u8],
    value: &[u8],
    readable: bool,
    r: bool,
)
    requires
        data@.len() + 16 <= usize::MAX,
        forall|k: int|
            0 <= k < value@.len() ==> #[trigger] value@[k] != 0x22 && value@[k] != 0x3c && value@[k]
                != 0x3d,
        data@ == file_tag(value@),
        call_ensures(subject::subject_is_readable, (value,), readable),
        call_ensures(nzb_is_readable, (data,), r),
    ensures
        r <==> readable,
{
    let b = data@;
    let v = value@;
    let m = v.len() as int;
    let end = 16 + m;
    assert(b.len() == 17 + m);
    assert(b[0] == 0x3c && b[1] == 0x66 && b[2] == 0x69 && b[3] == 0x6c && b[4] == 0x65);
    assert(b[5] == 0x20 && b[6] == 0x73 && b[7] == 0x75 && b[8] == 0x62 && b[9] == 0x6a);
    assert(b[10] == 0x65 && b[11] == 0x63 && b[12] == 0x74 && b[13] == 0x3d && b[14] == 0x22);
    assert(b[15 + m] == 0x22 && b[end] == 0x3e);
    assert forall|k: int| 15 <= k < 15 + m implies #[trigger] b[k] == v[k - 15] by {}
    assert forall|k: int| 0 < k < b.len() implies #[trigger] b[k] != 0x3c && (k != 13 ==> b[k]
        != 0x3d) by {
        if 15 <= k < 15 + m {
            assert(b[k] == v[k - 15]);
        } else {
            assert(k <= 14 || k == 15 + m || k == end);
        }
    }
    assert forall|k: int| 0 <= k < 14 implies #[trigger] b[k] != 0x3e && b[k] != 0x22 && b[k]
        != 0x27 by {}
    lemma_tag_plain(b, 0, 14);
    assert forall|k: int| 15 <= k < 15 + m implies #[trigger] b[k] != 0x22 by {
        assert(b[k] == v[k - 15]);
    }
    lemma_tag_quoted(b, 15, 15 + m);
    assert(tag_end(b, 15 + m, 0x22) == tag_end(b, end, 0));
    assert(tag_end(b, 0, 0) == end);
    lemma_closing(b, 15, 15 + m);
    assert(opening(b, 13) == 14) by {
        assert(skip_spaces(b, 13) == 13);
        assert(skip_spaces(b, 14) == 14);
    }
    assert(b.subrange(15, 15 + m) =~= v);
    assert(value_behind(b, 13, end) == Some(v));
    assert(can_start(b, 6) && is_subject_word(b, 6));
    assert(names_well(b, 6, end) <==> subject::is_readable(v));
    assert forall|k: int| 0 < k < end && k != 6 implies #[trigger] names_well(b, k, end) by {
        if k > 6 {
            lemma_skip_spaces(b, k + 7);
            let equals = skip_spaces(b, k + 7);
            assert(byte_at(b, equals) != 0x3d);
            assert(opening(b, k + 7) == -1);
        } else {
            assert(k == 1 || k == 2 || k == 3 || k == 4 || k == 5);
        }
    }
    assert(is_file_tag(b, 0));
    assert(opens_element(b, end));
    assert(file_names_well(b, 0) <==> subject::is_readable(v));
    assert forall|i: int| 0 < i < b.len() implies #[trigger] file_names_well(b, i) by {
        assert(b[i] != 0x3c);
    }
    assert(sizes_before(b, 1) == 0) by {
        assert(sizes_before(b, 0) == 0);
    }
    assert forall|k: int| 1 <= k < b.len() implies #[trigger] byte_at(b, k) != 0x3c by {
        assert(b[k] != 0x3c);
    }
    lemma_no_tags(b, 1, b.len() as int);
}

} // verus!
