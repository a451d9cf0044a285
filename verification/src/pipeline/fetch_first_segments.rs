//! The first segment of each file: it shows what kind of file it is, and its hash is what
//! recovery files know it by.

use vstd::prelude::*;

use crate::nzb;
use crate::nzb::{NzbFile, NzbJob};
use crate::text;

verus! {

/// How many bytes of a file the hash covers.
pub const FIRST_16K: usize = 16384;

/// With so many connections or fewer, segments are fetched one after the other.
pub const SEQUENTIAL_LIMIT: usize = 2;

/// What is known of a file of a job.
#[derive(Clone, Debug, PartialEq, Eq)]
pub struct NzbFileInfo {
    pub file_index: usize,
    pub subject_name: String,
    pub yenc_name: Option<String>,
    pub resolved_name: String,
    pub file_size: u64,
    pub segment_ids: Vec<String>,
    pub is_rar: bool,
    pub is_par2: bool,
    pub first_16k: Option<Vec<u8>>,
    pub hash_16k: Option<[u8; 16]>,
}

/// The first segment of a file, which is to be fetched.
#[derive(Clone, Debug, PartialEq, Eq)]
pub struct FirstSegment {
    pub file_index: usize,
    /// The article of the segment. A file without articles has none to fetch.
    pub message_id: Option<String>,
    pub subject_name: String,
    pub file_size: u64,
    pub segment_ids: Vec<String>,
    pub is_par2: bool,
}

/// How the first segments are fetched.
#[derive(Clone, Debug, PartialEq, Eq)]
pub struct FetchPlan {
    /// How many segments may be fetched at the same time.
    pub concurrency: usize,
    /// Whether they are fetched one after the other.
    pub sequential: bool,
    /// One for each file of the job, in their order.
    pub segments: Vec<FirstSegment>,
}

/// A `FirstSegment` with its texts as sequences of characters.
pub struct FirstSegmentView {
    pub file_index: int,
    pub message_id: Option<Seq<char>>,
    pub subject_name: Seq<char>,
    pub file_size: u64,
    pub segment_ids: Seq<Seq<char>>,
    pub is_par2: bool,
}

impl View for FirstSegment {
    type V = FirstSegmentView;

    open spec fn view(&self) -> FirstSegmentView {
        FirstSegmentView {
            file_index: self.file_index as int,
            message_id: text::chars_of(self.message_id),
            subject_name: self.subject_name@,
            file_size: self.file_size,
            segment_ids: nzb::texts(self.segment_ids@),
            is_par2: self.is_par2,
        }
    }
}

/// The first segment of the file number `index`. `named_par2` says whether the name of the
/// file is that of a recovery file.
pub open spec fn first_segment_of(file: NzbFile, index: int, named_par2: bool) -> FirstSegmentView {
    FirstSegmentView {
        file_index: index,
        message_id: if file.message_ids@.len() > 0 {
            Some(file.message_ids@[0]@)
        } else {
            None
        },
        subject_name: file.filename@,
        file_size: file.bytes,
        segment_ids: nzb::texts(file.message_ids@),
        is_par2: file.is_par2 || named_par2,
    }
}

/// The first segments of files, in their order.
pub open spec fn first_segments(files: Seq<NzbFile>, named_par2: Seq<bool>) -> Seq<
    FirstSegmentView,
> {
    Seq::new(files.len(), |i: int| first_segment_of(files[i], i, named_par2[i]))
}

/// The segments are those of all files, in their order.
pub open spec fn is_numbered(segments: Seq<FirstSegment>) -> bool {
    forall|i: int| 0 <= i < segments.len() ==> (#[trigger] segments[i]).file_index == i
}

/// The same texts once more.
pub fn copy_texts(v: &Vec<String>) -> (r: Vec<String>)
    ensures
        nzb::texts(r@) == nzb::texts(v@),
        r@ == v@,
{
    let mut r: Vec<String> = Vec::new();
    let mut i: usize = 0;
    while i < v.len()
        invariant
            i <= v@.len(),
            r@ == v@.take(i as int),
        decreases v@.len() - i,
    {
        r.push(v[i].clone());
        assert(r@ =~= v@.take(i + 1));
        i += 1;
    }
    assert(r@ =~= v@);
    r
}

/// Plans which first segments of a job are fetched, and how.
///
/// `named_par2` says of each file whether its name is that of a recovery file.
pub fn fetch_first_segments(
    job: &NzbJob,
    named_par2: &Vec<bool>,
    total_connections: usize,
) -> (r: FetchPlan)
    requires
        named_par2@.len() == job.files@.len(),
    ensures
        r.concurrency == if total_connections == 0 {
            1
        } else {
            total_connections
        },
        r.sequential == (r.concurrency <= SEQUENTIAL_LIMIT),
        r.segments@.map_values(|s: FirstSegment| s@) == first_segments(
            job.files@,
            named_par2@,
        ),
        is_numbered(r.segments@),
{
    let concurrency: usize = if total_connections == 0 {
        1
    } else {
        total_connections
    };
    let mut segments: Vec<FirstSegment> = Vec::new();
    let mut i: usize = 0;
    while i < job.files.len()
        invariant
            i <= job.files@.len(),
            named_par2@.len() == job.files@.len(),
            segments@.len() == i,
            forall|k: int|
                0 <= k < i ==> (#[trigger] segments@[k])@ == first_segment_of(
                    job.files@[k],
                    k,
                    named_par2@[k],
                ),
        decreases job.files@.len() - i,
    {
        let file = &job.files[i];
        let message_id = if file.message_ids.len() > 0 {
            Some(file.message_ids[0].clone())
        } else {
            None
        };
        segments.push(
            FirstSegment {
                file_index: i,
                message_id,
                subject_name: file.filename.clone(),
                file_size: file.bytes,
                segment_ids: copy_texts(&file.message_ids),
                is_par2: file.is_par2 || named_par2[i],
            },
        );
        i += 1;
    }
    assert(segments@.map_values(|s: FirstSegment| s@) =~= first_segments(job.files@, named_par2@));
    FetchPlan { concurrency, sequential: concurrency <= SEQUENTIAL_LIMIT, segments }
}

/// The MD5 digest of bytes.
pub uninterp spec fn md5_digest(data: Seq<u8>) -> Seq<u8>;

/// `md5::Md5::digest`: the digest of the bytes, which depends on them alone. Which it is
/// is left unsaid.
#[verifier::external_body]
fn md5_of(data: &[u8]) -> (r: [u8; 16])
    ensures
        r@ == md5_digest(data@),
{
    <md5::Md5 as md5::Digest>::digest(data).into()
}

/// The bytes that the hash of a file covers.
pub open spec fn window(decoded: Seq<u8>) -> Seq<u8> {
    if decoded.len() <= FIRST_16K {
        decoded
    } else {
        decoded.take(FIRST_16K as int)
    }
}

/// Cuts the bytes that the hash covers from a first segment. They also show whether the
/// file is an archive.
pub fn first_window(decoded: Vec<u8>) -> (r: Vec<u8>)
    ensures
        r@ == window(decoded@),
{
    let mut data = decoded;
    if data.len() > FIRST_16K {
        data.truncate(FIRST_16K);
        assert(data@ =~= decoded@.take(FIRST_16K as int));
    }
    data
}

/// Whether an entry is what a first segment shows of its file.
pub open spec fn is_analysed(
    info: NzbFileInfo,
    segment: FirstSegment,
    yenc_name: Option<String>,
    data: Seq<u8>,
    is_rar: bool,
    hash: Seq<u8>,
) -> bool {
    &&& info.file_index == segment.file_index
    &&& info.subject_name@ == segment.subject_name@
    &&& info.yenc_name == yenc_name
    &&& info.resolved_name@ == segment.subject_name@
    &&& info.file_size == segment.file_size
    &&& info.segment_ids == segment.segment_ids
    &&& info.is_rar == is_rar
    &&& info.is_par2 == segment.is_par2
    &&& info.first_16k is Some && info.first_16k->0@ == data
    &&& info.hash_16k is Some && info.hash_16k->0@ == hash
}

/// What a first segment with this hash shows of its file.
pub fn analysed(
    segment: FirstSegment,
    yenc_name: Option<String>,
    data: Vec<u8>,
    is_rar: bool,
    hash: [u8; 16],
) -> (r: NzbFileInfo)
    ensures
        is_analysed(r, segment, yenc_name, data@, is_rar, hash@),
{
    NzbFileInfo {
        file_index: segment.file_index,
        subject_name: segment.subject_name.clone(),
        yenc_name,
        resolved_name: segment.subject_name,
        file_size: segment.file_size,
        segment_ids: segment.segment_ids,
        is_rar,
        is_par2: segment.is_par2,
        first_16k: Some(data),
        hash_16k: Some(hash),
    }
}

/// What a first segment shows of its file. `yenc_name` is the name that the segment itself
/// gives the file, `data` the window that the hash covers, and `is_rar` whether it is that
/// of an archive.
pub fn fetch_single_first_segment(
    segment: FirstSegment,
    yenc_name: Option<String>,
    data: Vec<u8>,
    is_rar: bool,
) -> (r: NzbFileInfo)
    ensures
        is_analysed(r, segment, yenc_name, data@, is_rar, md5_digest(data@)),
{
    let hash = md5_of(data.as_slice());
    analysed(segment, yenc_name, data, is_rar, hash)
}

/// Whether an entry is all that is known of a file whose first segment could not be had: it
/// goes by the name of its subject.
pub open spec fn is_unfetched(info: NzbFileInfo, segment: FirstSegment) -> bool {
    &&& info.file_index == segment.file_index
    &&& info.subject_name@ == segment.subject_name@
    &&& info.yenc_name is None
    &&& info.resolved_name@ == segment.subject_name@
    &&& info.file_size == segment.file_size
    &&& info.segment_ids == segment.segment_ids
    &&& !info.is_rar
    &&& info.is_par2 == segment.is_par2
    &&& info.first_16k is None
    &&& info.hash_16k is None
}

/// What is known of a file whose first segment could not be had.
pub fn unfetched(segment: FirstSegment) -> (r: NzbFileInfo)
    ensures
        is_unfetched(r, segment),
{
    NzbFileInfo {
        file_index: segment.file_index,
        subject_name: segment.subject_name.clone(),
        yenc_name: None,
        resolved_name: segment.subject_name,
        file_size: segment.file_size,
        segment_ids: segment.segment_ids,
        is_rar: false,
        is_par2: segment.is_par2,
        first_16k: None,
        hash_16k: None,
    }
}

/// Whether an entry is that of a file: what its first segment showed, or else all that is
/// known without it.
pub open spec fn is_entry(
    info: NzbFileInfo,
    segment: FirstSegment,
    shown: Option<NzbFileInfo>,
) -> bool {
    match shown {
        Some(s) => info == s,
        None => is_unfetched(info, segment),
    }
}

/// What the segment of a file showed, where it could be fetched.
pub open spec fn shown_by(result: Result<NzbFileInfo, String>) -> Option<NzbFileInfo> {
    match result {
        Ok(info) => Some(info),
        Err(_) => None,
    }
}

/// Makes the entries of the files whose segments were fetched one after the other: entry
/// for entry, `results` holds what came of the segments.
pub fn fetch_sequential(
    segments: Vec<FirstSegment>,
    results: Vec<Result<NzbFileInfo, String>>,
) -> (r: Vec<NzbFileInfo>)
    requires
        is_numbered(segments@),
        results@.len() == segments@.len(),
        forall|i: int|
            0 <= i < results@.len() ==> ((#[trigger] results@[i]) matches Ok(info)
                ==> info.file_index == i),
    ensures
        r@.len() == segments@.len(),
        forall|i: int|
            0 <= i < r@.len() ==> is_entry(
                #[trigger] r@[i],
                segments@[i],
                shown_by(results@[i]),
            ),
        forall|i: int| 0 <= i < r@.len() ==> (#[trigger] r@[i]).file_index == i,
{
    let ghost all = results@;
    let mut shown: Vec<Option<NzbFileInfo>> = Vec::new();
    for result in it: results
        invariant
            it.seq() == all,
            shown@.len() == it.index(),
            forall|i: int| 0 <= i < shown@.len() ==> #[trigger] shown@[i] == shown_by(all[i]),
    {
        shown.push(result.ok());
    }
    entries(segments, shown)
}

/// Makes the entries of files, with what is shown of each.
fn entries(segments: Vec<FirstSegment>, shown: Vec<Option<NzbFileInfo>>) -> (r: Vec<NzbFileInfo>)
    requires
        shown@.len() == segments@.len(),
    ensures
        r@.len() == segments@.len(),
        forall|i: int|
            0 <= i < r@.len() ==> is_entry(#[trigger] r@[i], segments@[i], shown@[i]),
{
    let ghost all = segments@;
    let ghost all_shown = shown@;
    let count: usize = segments.len();
    let mut shown = shown;
    let mut infos: Vec<NzbFileInfo> = Vec::new();
    let mut n: usize = 0;
    for segment in it: segments
        invariant
            it.seq() == all,
            n == it.index(),
            count == all.len(),
            shown@.len() == all.len(),
            all_shown.len() == all.len(),
            infos@.len() == n,
            forall|i: int| n <= i < all.len() ==> shown@[i] == all_shown[i],
            forall|i: int|
                0 <= i < n ==> is_entry(#[trigger] infos@[i], all[i], all_shown[i]),
    {
        let mut taken: Option<NzbFileInfo> = None;
        std::mem::swap(&mut taken, &mut shown[n]);
        let info = match taken {
            Some(info) => info,
            None => unfetched(segment),
        };
        infos.push(info);
        n += 1;
    }
    infos
}

/// The entries among results, in their order. A segment that could not be fetched has none.
pub open spec fn fetched(results: Seq<Result<NzbFileInfo, String>>) -> Seq<NzbFileInfo>
    decreases results.len(),
{
    if results.len() == 0 {
        Seq::empty()
    } else {
        match results.last() {
            Ok(info) => fetched(results.drop_last()).push(info),
            Err(_) => fetched(results.drop_last()),
        }
    }
}

/// The first entry of a file.
pub open spec fn entry_of(infos: Seq<NzbFileInfo>, index: int) -> Option<NzbFileInfo>
    decreases infos.len(),
{
    if infos.len() == 0 {
        None
    } else {
        match entry_of(infos.drop_last(), index) {
            Some(info) => Some(info),
            None => if infos.last().file_index == index {
                Some(infos.last())
            } else {
                None
            },
        }
    }
}

/// Makes the entries of the files whose segments were fetched at the same time. `results`
/// holds what came of the segments, in the order in which that came.
pub fn collect_results(
    segments: Vec<FirstSegment>,
    results: Vec<Result<NzbFileInfo, String>>,
) -> (r: Vec<NzbFileInfo>)
    requires
        is_numbered(segments@),
    ensures
        r@.len() == segments@.len(),
        forall|i: int|
            0 <= i < r@.len() ==> is_entry(
                #[trigger] r@[i],
                segments@[i],
                entry_of(fetched(results@), i),
            ),
        forall|i: int| 0 <= i < r@.len() ==> (#[trigger] r@[i]).file_index == i,
{
    let ghost all = results@;
    let count: usize = segments.len();
    let mut shown: Vec<Option<NzbFileInfo>> = Vec::new();
    let mut k: usize = 0;
    while k < count
        invariant
            k <= count,
            shown@.len() == k,
            forall|i: int| 0 <= i < k ==> #[trigger] shown@[i] is None,
        decreases count - k,
    {
        shown.push(None);
        k += 1;
    }
    assert(all.take(0) =~= Seq::empty());
    for result in it: results
        invariant
            it.seq() == all,
            count == shown@.len(),
            forall|i: int|
                0 <= i < count ==> #[trigger] shown@[i] == entry_of(
                    fetched(all.take(it.index() as int)),
                    i,
                ),
    {
        let ghost before = fetched(all.take(it.index() as int));
        proof {
            assert(all.take(it.index() + 1).drop_last() =~= all.take(it.index() as int));
            assert(all.take(it.index() + 1).last() == result);
        }
        if let Ok(info) = result {
            assert(before.push(info).drop_last() =~= before);
            let at: usize = info.file_index;
            if at < count && shown[at].is_none() {
                shown.set(at, Some(info));
            }
        }
    }
    assert(all.take(all.len() as int) =~= all);
    proof {
        assert forall|i: int| 0 <= i < count implies (#[trigger] shown@[i] matches Some(info)
            ==> info.file_index == i) by {
            lemma_entry_of(fetched(all), i);
        }
    }
    entries(segments, shown)
}

/// What is found of a file is an entry of it, and something is found where there is one.
proof fn lemma_entry_of(infos: Seq<NzbFileInfo>, index: int)
    ensures
        entry_of(infos, index) matches Some(info) ==> info.file_index == index && infos.contains(
            info,
        ),
        entry_of(infos, index) is None ==> forall|i: int|
            0 <= i < infos.len() ==> (#[trigger] infos[i]).file_index != index,
    decreases infos.len(),
{
    if infos.len() > 0 {
        let rest = infos.drop_last();
        lemma_entry_of(rest, index);
        match entry_of(rest, index) {
            Some(info) => {
                let k = choose|k: int| 0 <= k < rest.len() && rest[k] == info;
                assert(infos[k] == info);
            },
            None => {
                assert(infos[infos.len() - 1] == infos.last());
                if infos.last().file_index != index {
                    assert forall|i: int| 0 <= i < infos.len() implies (
                    #[trigger] infos[i]).file_index != index by {
                        if i < rest.len() {
                            assert(rest[i] == infos[i]);
                        }
                    }
                }
            },
        }
    }
}

/// The entries among results are those of the segments that could be fetched.
proof fn lemma_fetched(results: Seq<Result<NzbFileInfo, String>>)
    ensures
        forall|info: NzbFileInfo| #[trigger]
            fetched(results).contains(info) <==> results.contains(Ok(info)),
    decreases results.len(),
{
    if results.len() > 0 {
        let rest = results.drop_last();
        lemma_fetched(rest);
        let before = fetched(rest);
        let all = fetched(results);
        assert forall|info: NzbFileInfo| #[trigger]
            all.contains(info) <==> results.contains(Ok(info)) by {
            if all.contains(info) {
                let k = choose|k: int| 0 <= k < all.len() && all[k] == info;
                if k < before.len() {
                    assert(before[k] == info);
                    assert(before.contains(info));
                    let j = choose|j: int| 0 <= j < rest.len() && rest[j] == Ok::<
                        NzbFileInfo,
                        String,
                    >(info);
                    assert(results[j] == Ok::<NzbFileInfo, String>(info));
                } else {
                    assert(results[results.len() - 1] == Ok::<NzbFileInfo, String>(info));
                }
            }
            if results.contains(Ok(info)) {
                let j = choose|j: int| 0 <= j < results.len() && results[j] == Ok::<
                    NzbFileInfo,
                    String,
                >(info);
                if j < rest.len() {
                    assert(rest[j] == Ok::<NzbFileInfo, String>(info));
                    assert(before.contains(info));
                    let k = choose|k: int| 0 <= k < before.len() && before[k] == info;
                    assert(all[k] == info);
                } else {
                    assert(all[all.len() - 1] == info);
                }
            }
        }
    }
}

/// How many connections there are, and so in which order first segments arrive, has no
/// bearing: segments that are fetched at the same time give each file the entry that it has
/// when they are fetched one after the other.
///
/// `results` is what comes of the segments in the order of the files, and `arrived` the same
/// in any other order.
pub proof fn law_arrival_order_does_not_matter(
    results: Seq<Result<NzbFileInfo, String>>,
    arrived: Seq<Result<NzbFileInfo, String>>,
)
    requires
        forall|i: int|
            0 <= i < results.len() ==> ((#[trigger] results[i]) matches Ok(info)
                ==> info.file_index == i),
        forall|x: Result<NzbFileInfo, String>| #[trigger]
            arrived.contains(x) <==> results.contains(x),
    ensures
        forall|i: int|
            0 <= i < results.len() ==> #[trigger] entry_of(fetched(arrived), i) == shown_by(
                results[i],
            ),
{
    lemma_fetched(arrived);
    let infos = fetched(arrived);
    assert forall|i: int| 0 <= i < results.len() implies #[trigger] entry_of(infos, i) == shown_by(
        results[i],
    ) by {
        lemma_entry_of(infos, i);
        match entry_of(infos, i) {
            Some(info) => {
                let x = Ok::<NzbFileInfo, String>(info);
                assert(arrived.contains(x));
                assert(results.contains(x));
                let k = choose|k: int| 0 <= k < results.len() && results[k] == x;
                assert(results[k] matches Ok(a) ==> a.file_index == k);
            },
            None => {
                if let Ok(info) = results[i] {
                    assert(results.contains(results[i]));
                    assert(arrived.contains(results[i]));
                    assert(infos.contains(info));
                    let k = choose|k: int| 0 <= k < infos.len() && infos[k] == info;
                    assert(infos[k].file_index != i);
                }
            },
        }
    }
}

/// Every file of a job has one entry, in the order of the files: the numbers of the files
/// strictly increase.
pub proof fn law_every_file_has_one_entry(
    segments: Seq<FirstSegment>,
    results: Seq<Result<NzbFileInfo, String>>,
    infos: Seq<NzbFileInfo>,
)
    requires
        is_numbered(segments),
        infos.len() == segments.len(),
        forall|i: int|
            0 <= i < infos.len() ==> is_entry(
                #[trigger] infos[i],
                segments[i],
                entry_of(fetched(results), i),
            ),
    ensures
        forall|i: int| 0 <= i < infos.len() ==> (#[trigger] infos[i]).file_index == i,
        forall|i: int, j: int|
            0 <= i < j < infos.len() ==> (#[trigger] infos[i]).file_index < (
            #[trigger] infos[j]).file_index,
{
    assert forall|i: int| 0 <= i < infos.len() implies (#[trigger] infos[i]).file_index == i by {
        lemma_entry_of(fetched(results), i);
        assert(is_entry(infos[i], segments[i], entry_of(fetched(results), i)));
        assert(segments[i].file_index == i);
    }
    assert forall|i: int, j: int| 0 <= i < j < infos.len() implies (#[trigger] infos[i]).file_index
        < (#[trigger] infos[j]).file_index by {
        assert(infos[i].file_index == i && infos[j].file_index == j);
    }
}

} // verus!
