//! The recovery files: the smallest one is the index, and it knows the files by their real
//! names.

use vstd::prelude::*;

use crate::octets::byte_at;
use crate::pipeline::fetch_first_segments::NzbFileInfo;

verus! {

/// A file that an index describes.
#[derive(Clone, Debug, PartialEq, Eq)]
pub struct Par2File {
    pub file_id: [u8; 16],
    pub hash: [u8; 16],
    pub hash_16k: [u8; 16],
    pub size: u64,
    pub filename: String,
}

/// A `Par2File` with its fields as sequences.
pub struct Par2FileView {
    pub hash: Seq<u8>,
    pub hash_16k: Seq<u8>,
    pub size: u64,
    pub filename: Seq<char>,
}

impl View for Par2File {
    type V = Par2FileView;

    open spec fn view(&self) -> Par2FileView {
        Par2FileView {
            hash: self.hash@,
            hash_16k: self.hash_16k@,
            size: self.size,
            filename: self.filename@,
        }
    }
}

/// Whether the file at this place is the first of the smallest recovery files.
pub open spec fn is_smallest_par2(infos: Seq<NzbFileInfo>, at: int) -> bool {
    &&& 0 <= at < infos.len()
    &&& infos[at].is_par2
    &&& forall|i: int|
        0 <= i < infos.len() && (#[trigger] infos[i]).is_par2 ==> infos[at].file_size
            <= infos[i].file_size
    &&& forall|i: int|
        0 <= i < at && (#[trigger] infos[i]).is_par2 ==> infos[at].file_size < infos[i].file_size
}

/// Whether no file is a recovery file.
pub open spec fn no_par2(infos: Seq<NzbFileInfo>) -> bool {
    forall|i: int| 0 <= i < infos.len() ==> !(#[trigger] infos[i]).is_par2
}

/// Finds the index among the recovery files: the first of the smallest.
pub fn smallest_par2(infos: &Vec<NzbFileInfo>) -> (r: Option<usize>)
    ensures
        match r {
            Some(at) => is_smallest_par2(infos@, at as int),
            None => no_par2(infos@),
        },
{
    let mut best: Option<usize> = None;
    let mut i: usize = 0;
    while i < infos.len()
        invariant
            i <= infos@.len(),
            match best {
                Some(at) => at < i && infos@[at as int].is_par2 && (forall|k: int|
                    0 <= k < i && (#[trigger] infos@[k]).is_par2 ==> infos@[at as int].file_size
                        <= infos@[k].file_size) && (forall|k: int|
                    0 <= k < at && (#[trigger] infos@[k]).is_par2 ==> infos@[at as int].file_size
                        < infos@[k].file_size),
                None => forall|k: int| 0 <= k < i ==> !(#[trigger] infos@[k]).is_par2,
            },
        decreases infos@.len() - i,
    {
        if infos[i].is_par2 {
            let smaller = match best {
                Some(at) => infos[i].file_size < infos[at].file_size,
                None => true,
            };
            if smaller {
                best = Some(i);
            }
        }
        i += 1;
    }
    best
}

/// The segments of a file one after the other, or the error of the first one that could
/// not be fetched.
pub open spec fn assembled<E>(parts: Seq<Result<Vec<u8>, E>>) -> Result<Seq<u8>, E>
    decreases parts.len(),
{
    if parts.len() == 0 {
        Ok(Seq::empty())
    } else {
        match assembled(parts.drop_last()) {
            Err(e) => Err(e),
            Ok(data) => match parts.last() {
                Err(e) => Err(e),
                Ok(part) => Ok(data + part@),
            },
        }
    }
}

proof fn lemma_assembled_error<E>(parts: Seq<Result<Vec<u8>, E>>, k: int)
    requires
        0 <= k <= parts.len(),
        assembled(parts.take(k)) is Err,
    ensures
        assembled(parts) == assembled(parts.take(k)),
    decreases parts.len(),
{
    if k < parts.len() {
        assert(parts.drop_last().take(k) =~= parts.take(k));
        lemma_assembled_error(parts.drop_last(), k);
    } else {
        assert(parts.take(k) =~= parts);
    }
}

/// Puts the segments of a file together.
pub fn fetch_all_segments<E>(parts: Vec<Result<Vec<u8>, E>>) -> (r: Result<Vec<u8>, E>)
    ensures
        match assembled(parts@) {
            Ok(data) => r is Ok && r->Ok_0@ == data,
            Err(e) => r is Err && r->Err_0 == e,
        },
{
    let ghost all = parts@;
    let mut data: Vec<u8> = Vec::new();
    assert(all.take(0) =~= Seq::empty());
    for part in it: parts
        invariant
            it.seq() == all,
            assembled(all.take(it.index() as int)) == Ok::<Seq<u8>, E>(data@),
    {
        proof {
            assert(all.take(it.index() + 1).drop_last() =~= all.take(it.index() as int));
            assert(all.take(it.index() + 1).last() == part);
        }
        match part {
            Err(e) => {
                proof {
                    lemma_assembled_error(all, it.index() + 1);
                }
                return Err(e);
            },
            Ok(bytes) => {
                let mut more = bytes;
                data.append(&mut more);
            },
        }
    }
    assert(all.take(all.len() as int) =~= all);
    Ok(data)
}

/// Whether a packet starts here: the bytes `PAR2`, a zero byte and `PKT`.
pub open spec fn is_packet(data: Seq<u8>, i: int) -> bool {
    &&& byte_at(data, i) == 0x50
    &&& byte_at(data, i + 1) == 0x41
    &&& byte_at(data, i + 2) == 0x52
    &&& byte_at(data, i + 3) == 0x32
    &&& byte_at(data, i + 4) == 0x00
    &&& byte_at(data, i + 5) == 0x50
    &&& byte_at(data, i + 6) == 0x4b
    &&& byte_at(data, i + 7) == 0x54
}

/// The length in the header of a packet that starts here.
pub open spec fn packet_length(data: Seq<u8>, i: int) -> int {
    data[i + 8] + data[i + 9] * 0x100 + data[i + 10] * 0x1_0000 + data[i + 11] * 0x100_0000 + data[i
        + 12] * 0x1_0000_0000 + data[i + 13] * 0x100_0000_0000 + data[i + 14] * 0x1_0000_0000_0000
        + data[i + 15] * 0x100_0000_0000_0000
}

/// Where the next packet from here on starts, or the end.
pub open spec fn next_packet(data: Seq<u8>, i: int) -> int
    decreases data.len() - i,
{
    if i < 0 || i >= data.len() {
        data.len() as int
    } else if is_packet(data, i) {
        i
    } else {
        next_packet(data, i + 1)
    }
}

/// The longest packet that is read whole, without what stands before its checksum.
pub const LONGEST_READ: u64 = 0xa0_0000;

/// Where the parser goes on from a position, or the end where it stops there. It looks for a
/// packet, leaves out a header with an impossible length, reads short packets, and seeks past
/// long ones: by a signed number, so that the longest ones lead back.
pub open spec fn next_position(data: Seq<u8>, i: int) -> int {
    let end = data.len() as int;
    let length = packet_length(data, i);
    if !is_packet(data, i) {
        next_packet(data, i + 8)
    } else if i + 16 > end {
        end
    } else if length < 64 || length % 4 != 0 {
        i + 16
    } else if length - 16 <= LONGEST_READ {
        i + length
    } else if i + 64 > end {
        end
    } else if length - 64 <= i64::MAX {
        i + length
    } else if i + length > u64::MAX {
        i + length - u64::MAX - 1
    } else {
        end
    }
}

/// How many packets the parser comes across from a position on, or `-1` where it does not
/// stop within so many steps.
pub open spec fn packets_from(data: Seq<u8>, i: int, steps: nat) -> int
    decreases steps,
{
    if i < 0 || i >= data.len() {
        0
    } else if steps == 0 {
        -1
    } else {
        let rest = packets_from(data, next_position(data, i), (steps - 1) as nat);
        if rest < 0 {
            -1
        } else if is_packet(data, i) {
            rest + 1
        } else {
            rest
        }
    }
}

/// Whether the parser can be given the data: it comes to an end, which takes no more steps
/// than there are bytes, and it can count the packets.
pub open spec fn is_readable(data: Seq<u8>) -> bool {
    0 <= packets_from(data, 0, data.len()) <= u32::MAX
}

fn packet_at(data: &[u8], i: usize) -> (r: bool)
    requires
        i < data@.len(),
    ensures
        r == is_packet(data@, i as int),
{
    data.len() - i >= 8 && data[i] == 0x50 && data[i + 1] == 0x41 && data[i + 2] == 0x52 && data[i
        + 3] == 0x32 && data[i + 4] == 0x00 && data[i + 5] == 0x50 && data[i + 6] == 0x4b && data[i
        + 7] == 0x54
}

fn read_length(data: &[u8], i: usize) -> (r: u128)
    requires
        i + 16 <= data@.len(),
    ensures
        r == packet_length(data@, i as int),
        r <= u64::MAX,
{
    let n: usize = data.len();
    assert(i + 16 <= n);
    data[i + 8] as u128 + data[i + 9] as u128 * 0x100 + data[i + 10] as u128 * 0x1_0000 + data[i
        + 11] as u128 * 0x100_0000 + data[i + 12] as u128 * 0x1_0000_0000 + data[i + 13] as u128
        * 0x100_0000_0000 + data[i + 14] as u128 * 0x1_0000_0000_0000 + data[i + 15] as u128
        * 0x100_0000_0000_0000
}

/// Where the parser goes on from a packet, or the end where it stops there.
fn past_packet(data: &[u8], i: usize) -> (r: usize)
    requires
        i < data@.len(),
        is_packet(data@, i as int),
    ensures
        r == (if next_position(data@, i as int) < data@.len() {
            next_position(data@, i as int)
        } else {
            data@.len() as int
        }),
{
    let n: usize = data.len();
    if n - i < 16 {
        return n;
    }
    let length: u128 = read_length(data, i);
    let short = length <= LONGEST_READ as u128 + 16;
    let next: u128 = if length < 64 || length % 4 != 0 {
        i as u128 + 16
    } else if !short && n - i < 64 {
        return n;
    } else if short || length <= i64::MAX as u128 + 64 {
        i as u128 + length
    } else if i as u128 + length > u64::MAX as u128 {
        i as u128 + length - u64::MAX as u128 - 1
    } else {
        return n;
    };
    if next < n as u128 {
        next as usize
    } else {
        n
    }
}

/// Where the parser goes on where no packet starts, or the end where it stops there.
fn to_packet(data: &[u8], i: usize) -> (r: usize)
    requires
        i < data@.len(),
        !is_packet(data@, i as int),
    ensures
        r == (if next_position(data@, i as int) < data@.len() {
            next_position(data@, i as int)
        } else {
            data@.len() as int
        }),
{
    let n: usize = data.len();
    if n - i < 8 {
        return n;
    }
    let mut k: usize = i + 8;
    while k < n
        invariant
            i + 8 <= k <= n == data@.len(),
            !is_packet(data@, i as int),
            next_packet(data@, i + 8) == next_packet(data@, k as int),
        decreases n - k,
    {
        if packet_at(data, k) {
            return k;
        }
        k += 1;
    }
    n
}

/// Checks whether the parser can be given the data.
pub fn par2_is_readable(data: &[u8]) -> (r: bool)
    ensures
        r == is_readable(data@),
{
    let n: usize = data.len();
    let mut i: usize = 0;
    let mut steps: usize = n;
    let mut count: usize = 0;
    while i < n
        invariant
            n == data@.len(),
            i <= n,
            steps <= n,
            count <= n - steps,
            packets_from(data@, 0, n as nat) == (if packets_from(data@, i as int, steps as nat) < 0 {
                -1
            } else {
                count + packets_from(data@, i as int, steps as nat)
            }),
        decreases steps,
    {
        if steps == 0 {
            return false;
        }
        let ghost next = next_position(data@, i as int);
        if packet_at(data, i) {
            i = past_packet(data, i);
            count += 1;
        } else {
            i = to_packet(data, i);
        }
        steps -= 1;
        assert(packets_from(data@, next, steps as nat) == packets_from(
            data@,
            i as int,
            steps as nat,
        ));
    }
    count as u64 <= u32::MAX as u64
}

/// The files that `rust_par2` finds in the bytes of a recovery file, by their identifiers,
/// where it can parse them.
pub uninterp spec fn par2_parsed(data: Seq<u8>) -> Option<Map<Seq<u8>, Par2FileView>>;

/// Whether a list holds the files of a set, each once.
pub open spec fn lists(files: Seq<Par2File>, set: Map<Seq<u8>, Par2FileView>) -> bool {
    &&& set.dom().finite()
    &&& files.len() == set.dom().len()
    &&& forall|i: int|
        0 <= i < files.len() ==> set.contains_key((#[trigger] files[i]).file_id@)
            && set[files[i].file_id@] == files[i]@
    &&& forall|i: int, j: int|
        0 <= i < j < files.len() ==> (#[trigger] files[i]).file_id@ != (
        #[trigger] files[j]).file_id@
}

/// Whether a result lists what the parser found.
pub open spec fn lists_parsed(
    r: Option<Vec<Par2File>>,
    parsed: Option<Map<Seq<u8>, Par2FileView>>,
) -> bool {
    match (r, parsed) {
        (Some(files), Some(set)) => lists(files@, set),
        (None, None) => true,
        _ => false,
    }
}

/// `rust_par2::parse_par2_reader` on the bytes of a recovery file: the files that its
/// packets describe, each once and in no particular order, or nothing where it finds no
/// packets. They depend on the bytes alone, and what they are is left unsaid. The parser
/// seeks by the length in a packet and counts in 32 bits: the data are such that it comes to
/// an end and can count.
#[verifier::external_body]
fn parse_par2(data: &[u8]) -> (r: Option<Vec<Par2File>>)
    requires
        is_readable(data@),
    ensures
        lists_parsed(r, par2_parsed(data@)),
{
    let mut cursor = std::io::Cursor::new(data);
    let set = rust_par2::parse_par2_reader(&mut cursor, data.len() as u64).ok()?;
    let convert = |f: rust_par2::Par2File| Par2File {
        file_id: f.file_id,
        hash: f.hash,
        hash_16k: f.hash_16k,
        size: f.size,
        filename: f.filename,
    };
    Some(set.files.into_values().map(convert).collect())
}

/// The descriptors that were parsed, or none where the index cannot be parsed: files then
/// keep the names of their subjects.
pub fn descriptors_or_none(parsed: Option<Vec<Par2File>>) -> (r: Vec<Par2File>)
    ensures
        match parsed {
            Some(files) => r == files,
            None => r@.len() == 0,
        },
{
    match parsed {
        Some(files) => files,
        None => Vec::new(),
    }
}

/// Parses the descriptors of an index. An index that cannot be parsed has none.
pub fn get_par2_file_descriptors(data: &Vec<u8>) -> (r: Vec<Par2File>)
    requires
        is_readable(data@),
    ensures
        match par2_parsed(data@) {
            Some(set) => lists(r@, set),
            None => r@.len() == 0,
        },
{
    descriptors_or_none(parse_par2(data.as_slice()))
}

/// Parses the descriptors of an index, where the parser can be given it. Any other index
/// has none: the files keep the names of their subjects.
pub fn descriptors_if_readable(data: &Vec<u8>) -> (r: Vec<Par2File>)
    ensures
        match par2_parsed(data@) {
            Some(set) if is_readable(data@) => lists(r@, set),
            _ => r@.len() == 0,
        },
{
    if par2_is_readable(data.as_slice()) {
        get_par2_file_descriptors(data)
    } else {
        Vec::new()
    }
}

/// The descriptors of an index are those that were parsed, and an index that was not parsed
/// has none. Whether the data were tested before makes no difference.
pub proof fn law_descriptors_are_those_parsed(
    data: &Vec<u8>,
    bytes: &[u8],
    files: Vec<Par2File>,
    readable: bool,
    some: Vec<Par2File>,
    none: Vec<Par2File>,
    direct: Vec<Par2File>,
    tested: Vec<Par2File>,
)
    requires
        bytes@ == data@,
        call_ensures(par2_is_readable, (bytes,), readable),
        call_ensures(descriptors_or_none, (Some(files),), some),
        call_ensures(descriptors_or_none, (None,), none),
        call_ensures(get_par2_file_descriptors, (data,), direct),
        call_ensures(descriptors_if_readable, (data,), tested),
    ensures
        some == files,
        none@.len() == 0,
        readable && par2_parsed(data@) is Some ==> lists(direct@, par2_parsed(data@)->0) && lists(
            tested@,
            par2_parsed(data@)->0,
        ),
        par2_parsed(data@) is None ==> direct@.len() == 0 && tested@.len() == 0,
        !readable ==> tested@.len() == 0,
{
}

proof fn lemma_no_packet(data: Seq<u8>, i: int)
    requires
        0 <= i,
        forall|k: int| 0 <= k < data.len() ==> #[trigger] data[k] != 0x50,
    ensures
        next_packet(data, i) == data.len(),
        i < data.len() ==> !is_packet(data, i),
    decreases data.len() - i,
{
    if i < data.len() {
        assert(data[i] != 0x50);
        lemma_no_packet(data, i + 1);
    }
}

/// Data without the letter that packets start with can be given to the parser: it finds
/// nothing in them, and stops.
pub proof fn law_data_without_packets_are_readable(data: &[u8], r: bool)
    requires
        forall|k: int| 0 <= k < data@.len() ==> #[trigger] data@[k] != 0x50,
        call_ensures(par2_is_readable, (data,), r),
    ensures
        r,
{
    if data@.len() > 0 {
        lemma_no_packet(data@, 0);
        lemma_no_packet(data@, 8);
        reveal_with_fuel(packets_from, 2);
        assert(next_position(data@, 0) == data@.len());
    }
}

/// The first sixteen bytes of a packet: what packets start with, and the length in eight
/// bytes, the lowest first.
pub open spec fn packet_start(a: u8, b: u8, c: u8, rest: u8) -> Seq<u8> {
    seq![0x50u8, 0x41, 0x52, 0x32, 0x00, 0x50, 0x4b, 0x54, a, b, c, rest, rest, rest, rest, rest]
}

/// A packet that holds all the data, and whose length says so, can be given to the parser.
pub proof fn law_whole_packets_are_readable(
    data: &[u8],
    a: u8,
    b: u8,
    c: u8,
    body: Seq<u8>,
    r: bool,
)
    requires
        data@ == packet_start(a, b, c, 0) + body,
        data@.len() == a + b * 0x100 + c * 0x1_0000,
        data@.len() >= 64,
        data@.len() % 4 == 0,
        data@.len() <= 0xa0_0000,
        call_ensures(par2_is_readable, (data,), r),
    ensures
        r,
{
    let s = data@;
    let h = packet_start(a, b, c, 0);
    assert forall|k: int| 0 <= k < 16 implies #[trigger] s[k] == h[k] by {}
    assert(is_packet(s, 0));
    assert(packet_length(s, 0) == s.len());
    assert(next_position(s, 0) == s.len());
    reveal_with_fuel(packets_from, 2);
}

proof fn lemma_packets_loop(data: Seq<u8>, steps: nat)
    requires
        data.len() > 64,
        next_position(data, 0) == 64,
        next_position(data, 64) == 0,
    ensures
        packets_from(data, 0, steps) == -1,
        packets_from(data, 64, steps) == -1,
    decreases steps,
{
    if steps > 0 {
        lemma_packets_loop(data, (steps - 1) as nat);
    }
}

/// A packet whose length leads the parser back to where it came from is refused: the parser
/// would never end.
pub proof fn law_looping_packets_are_refused(
    data: &[u8],
    body: Seq<u8>,
    rest: Seq<u8>,
    r: bool,
)
    requires
        body.len() == 48,
        rest.len() >= 48,
        data@ == packet_start(64, 0, 0, 0) + body + packet_start(0xc0, 0xff, 0xff, 0xff) + rest,
        call_ensures(par2_is_readable, (data,), r),
    ensures
        !r,
{
    let s = data@;
    let h = packet_start(64, 0, 0, 0);
    let g = packet_start(0xc0, 0xff, 0xff, 0xff);
    assert forall|k: int| 0 <= k < 16 implies #[trigger] s[k] == h[k] by {}
    assert forall|k: int| 0 <= k < 16 implies s[64 + k] == #[trigger] g[k] by {}
    assert(is_packet(s, 0));
    assert(packet_length(s, 0) == 64);
    assert(next_position(s, 0) == 64);
    assert(s[64] == g[0] && s[65] == g[1] && s[66] == g[2] && s[67] == g[3]);
    assert(s[68] == g[4] && s[69] == g[5] && s[70] == g[6] && s[71] == g[7]);
    assert(s[72] == g[8] && s[73] == g[9] && s[74] == g[10] && s[75] == g[11]);
    assert(s[76] == g[12] && s[77] == g[13] && s[78] == g[14] && s[79] == g[15]);
    assert(is_packet(s, 64));
    assert(packet_length(s, 64) == 0x1_0000_0000_0000_0000 - 64);
    assert(next_position(s, 64) == 0);
    lemma_packets_loop(s, s.len());
}

} // verus!
