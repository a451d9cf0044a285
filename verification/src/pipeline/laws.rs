//! What holds of the pipeline as a whole: what is known of a file at one stage is what the
//! stage before had of it. Each law speaks of the functions themselves:
//! `call_ensures(f, args, r)` says that `f` returns `r` for these arguments.

use vstd::prelude::*;

use crate::db;
use crate::error::{PipelineError, PipelineErrorView};
use crate::models::FilePart;
use crate::nzb;
use crate::nzb::{NzbFile, NzbJob};
use crate::pipeline::fetch_first_segments;
use crate::pipeline::fetch_first_segments::{FetchPlan, FirstSegment, NzbFileInfo};
use crate::pipeline::get_par2_file_descriptors;
use crate::pipeline::get_par2_file_descriptors::Par2File;
use crate::pipeline::queue_item_processor::PlacedJob;
use crate::pipeline::rar_processor;
use crate::pipeline::rar_processor::{ProcessedFile, RarFileHeader, RarOutcome};

verus! {

/// The sizes of first segments' files together.
pub open spec fn planned_bytes(segments: Seq<FirstSegment>) -> nat
    decreases segments.len(),
{
    if segments.len() == 0 {
        0
    } else {
        planned_bytes(segments.drop_last()) + segments.last().file_size as nat
    }
}

proof fn lemma_planned_bytes(segments: Seq<FirstSegment>, files: Seq<NzbFile>)
    requires
        segments.len() == files.len(),
        forall|i: int|
            0 <= i < files.len() ==> (#[trigger] segments[i]).file_size == files[i].bytes,
    ensures
        planned_bytes(segments) == nzb::total_bytes(files.map_values(|f: NzbFile| f@)),
    decreases files.len(),
{
    let views = files.map_values(|f: NzbFile| f@);
    if files.len() > 0 {
        assert(views.drop_last() =~= files.drop_last().map_values(|f: NzbFile| f@));
        assert(views.last() == files.last()@);
        assert forall|i: int| 0 <= i < files.len() - 1 implies (
        #[trigger] segments.drop_last()[i]).file_size == files.drop_last()[i].bytes by {
            assert(segments[i].file_size == files[i].bytes);
        }
        lemma_planned_bytes(segments.drop_last(), files.drop_last());
        let n = files.len() - 1;
        assert(segments[n].file_size == files[n].bytes);
    }
}

/// The plan for a job has one segment for each file, and says of it what the NZB file says:
/// its name, its size, its articles in order, of which the first is fetched, and whether it
/// is a recovery file. The sizes add up to those of the NZB file.
pub proof fn law_plan_says_what_the_nzb_says(
    job: &NzbJob,
    named_par2: &Vec<bool>,
    connections: usize,
    plan: FetchPlan,
)
    requires
        named_par2@.len() == job.files@.len(),
        call_ensures(
            fetch_first_segments::fetch_first_segments,
            (job, named_par2, connections),
            plan,
        ),
    ensures
        plan.segments@.len() == job.files@.len(),
        forall|i: int|
            0 <= i < job.files@.len() ==> {
                let s = #[trigger] plan.segments@[i];
                let f = job.files@[i];
                &&& s.file_index == i
                &&& s.file_size == f.bytes
                &&& s.subject_name@ == f.filename@
                &&& s.segment_ids@.len() == f.message_ids@.len()
                &&& forall|k: int|
                    0 <= k < f.message_ids@.len() ==> (#[trigger] s.segment_ids@[k])@
                        == f.message_ids@[k]@
                &&& s.message_id is Some <==> f.message_ids@.len() > 0
                &&& s.message_id matches Some(id) ==> id@ == f.message_ids@[0]@
                &&& s.is_par2 <==> f.is_par2 || named_par2@[i]
            },
        planned_bytes(plan.segments@) == nzb::total_bytes(job@.files),
{
    let shown = plan.segments@.map_values(|s: FirstSegment| s@);
    let wanted = fetch_first_segments::first_segments(job.files@, named_par2@);
    assert(shown.len() == wanted.len());
    assert forall|i: int| 0 <= i < job.files@.len() implies {
        let s = #[trigger] plan.segments@[i];
        let f = job.files@[i];
        &&& s.file_index == i
        &&& s.file_size == f.bytes
        &&& s.subject_name@ == f.filename@
        &&& s.segment_ids@.len() == f.message_ids@.len()
        &&& forall|k: int|
            0 <= k < f.message_ids@.len() ==> (#[trigger] s.segment_ids@[k])@
                == f.message_ids@[k]@
        &&& s.message_id is Some <==> f.message_ids@.len() > 0
        &&& s.message_id matches Some(id) ==> id@ == f.message_ids@[0]@
        &&& s.is_par2 <==> f.is_par2 || named_par2@[i]
    } by {
        let s = plan.segments@[i];
        let f = job.files@[i];
        assert(shown[i] == wanted[i]);
        assert(shown[i] == s@);
        let a = nzb::texts(s.segment_ids@);
        let b = nzb::texts(f.message_ids@);
        assert(a == b);
        assert(a.len() == b.len());
        assert forall|k: int| 0 <= k < f.message_ids@.len() implies (
        #[trigger] s.segment_ids@[k])@ == f.message_ids@[k]@ by {
            assert(a[k] == b[k]);
        }
    }
    lemma_planned_bytes(plan.segments@, job.files@);
}

/// Segments are fetched over as many connections as there are, at least one, and one after
/// the other where there are at most two.
pub proof fn law_plan_uses_the_connections(
    job: &NzbJob,
    named_par2: &Vec<bool>,
    connections: usize,
    plan: FetchPlan,
)
    requires
        call_ensures(
            fetch_first_segments::fetch_first_segments,
            (job, named_par2, connections),
            plan,
        ),
    ensures
        plan.concurrency >= 1,
        connections > 0 ==> plan.concurrency == connections,
        connections == 0 ==> plan.concurrency == 1,
        plan.sequential <==> connections <= 2,
{
}

/// The stage of a placed job plans the files of its own NZB file.
pub proof fn law_placed_jobs_plan_their_files(
    placed: &PlacedJob,
    named_par2: &Vec<bool>,
    connections: usize,
    plan: FetchPlan,
)
    requires
        named_par2@.len() == placed.job.files@.len(),
        call_ensures(PlacedJob::first_segments, (placed, named_par2, connections), plan),
    ensures
        plan.segments@.len() == placed.job.files@.len(),
        forall|i: int|
            0 <= i < placed.job.files@.len() ==> {
                let s = #[trigger] plan.segments@[i];
                let f = placed.job.files@[i];
                &&& s.file_index == i
                &&& s.file_size == f.bytes
                &&& s.subject_name@ == f.filename@
                &&& s.message_id is Some <==> f.message_ids@.len() > 0
                &&& s.message_id matches Some(id) ==> id@ == f.message_ids@[0]@
                &&& s.is_par2 <==> f.is_par2 || named_par2@[i]
            },
        plan.concurrency >= 1,
        connections > 0 ==> plan.concurrency == connections,
        plan.sequential <==> connections <= 2,
{
    let shown = plan.segments@.map_values(|s: FirstSegment| s@);
    let wanted = fetch_first_segments::first_segments(placed.job.files@, named_par2@);
    assert(shown.len() == wanted.len());
    assert forall|i: int| 0 <= i < placed.job.files@.len() implies {
        let s = #[trigger] plan.segments@[i];
        let f = placed.job.files@[i];
        &&& s.file_index == i
        &&& s.file_size == f.bytes
        &&& s.subject_name@ == f.filename@
        &&& s.message_id is Some <==> f.message_ids@.len() > 0
        &&& s.message_id matches Some(id) ==> id@ == f.message_ids@[0]@
        &&& s.is_par2 <==> f.is_par2 || named_par2@[i]
    } by {
        assert(shown[i] == wanted[i]);
        assert(shown[i] == plan.segments@[i]@);
    }
}

/// The window that a hash covers is the front of the segment: at most 16 KiB, and all of a
/// segment that is no longer.
pub proof fn law_window_is_the_front(decoded: Vec<u8>, r: Vec<u8>)
    requires
        call_ensures(fetch_first_segments::first_window, (decoded,), r),
    ensures
        r@.len() <= decoded@.len(),
        r@ == decoded@.take(r@.len() as int),
        r@.len() <= 16384,
        r@.len() < decoded@.len() ==> r@.len() == 16384,
{
    assert(decoded@.take(decoded@.len() as int) =~= decoded@);
}

/// The entry of a file whose first segment was fetched keeps all that was planned for it, and
/// adds what the segment showed: its own name for the file, its bytes, their hash, and
/// whether it is that of an archive.
pub proof fn law_entry_keeps_what_was_planned(
    segment: FirstSegment,
    yenc_name: Option<String>,
    data: Vec<u8>,
    is_rar: bool,
    r: NzbFileInfo,
)
    requires
        call_ensures(
            fetch_first_segments::fetch_single_first_segment,
            (segment, yenc_name, data, is_rar),
            r,
        ),
    ensures
        r.file_index == segment.file_index,
        r.file_size == segment.file_size,
        r.segment_ids == segment.segment_ids,
        r.is_par2 == segment.is_par2,
        r.subject_name@ == segment.subject_name@,
        r.resolved_name@ == segment.subject_name@,
        r.yenc_name == yenc_name,
        r.is_rar == is_rar,
        r.first_16k matches Some(bytes) && bytes@ == data@,
        r.hash_16k matches Some(hash) && hash@ == fetch_first_segments::md5_digest(data@),
{
}

/// Two files that start alike have the same hash, whatever else tells them apart.
pub proof fn law_equal_fronts_have_equal_hashes(
    a: FirstSegment,
    b: FirstSegment,
    name_a: Option<String>,
    name_b: Option<String>,
    data_a: Vec<u8>,
    data_b: Vec<u8>,
    rar_a: bool,
    rar_b: bool,
    x: NzbFileInfo,
    y: NzbFileInfo,
)
    requires
        data_a@ == data_b@,
        call_ensures(
            fetch_first_segments::fetch_single_first_segment,
            (a, name_a, data_a, rar_a),
            x,
        ),
        call_ensures(
            fetch_first_segments::fetch_single_first_segment,
            (b, name_b, data_b, rar_b),
            y,
        ),
    ensures
        x.hash_16k is Some && y.hash_16k is Some,
        x.hash_16k->0@ == y.hash_16k->0@,
{
}

/// A hash that is handed in is the one that the entry gets.
pub proof fn law_entry_has_its_hash(
    segment: FirstSegment,
    yenc_name: Option<String>,
    data: Vec<u8>,
    is_rar: bool,
    hash: [u8; 16],
    r: NzbFileInfo,
)
    requires
        call_ensures(
            fetch_first_segments::analysed,
            (segment, yenc_name, data, is_rar, hash),
            r,
        ),
    ensures
        r.hash_16k matches Some(h) && h@ == hash@,
        r.first_16k matches Some(bytes) && bytes@ == data@,
        r.subject_name@ == segment.subject_name@,
        r.file_index == segment.file_index,
        r.file_size == segment.file_size,
        r.segment_ids == segment.segment_ids,
        r.is_par2 == segment.is_par2,
        r.is_rar == is_rar,
        r.yenc_name == yenc_name,
        r.resolved_name@ == segment.subject_name@,
{
}

/// The entry of a file whose first segment could not be had keeps all that was planned for
/// it. It is taken for no archive, and has no hash.
pub proof fn law_lost_segment_keeps_what_was_planned(segment: FirstSegment, r: NzbFileInfo)
    requires
        call_ensures(fetch_first_segments::unfetched, (segment,), r),
    ensures
        r.file_index == segment.file_index,
        r.file_size == segment.file_size,
        r.segment_ids == segment.segment_ids,
        r.is_par2 == segment.is_par2,
        r.subject_name@ == segment.subject_name@,
        r.resolved_name@ == segment.subject_name@,
        r.yenc_name is None,
        !r.is_rar,
        r.hash_16k is None,
        r.first_16k is None,
{
}

/// Fetched one after the other, each file has the entry that its segment gave, and one whose
/// segment was lost still has its name, its size and its articles.
pub proof fn law_entries_follow_the_segments(
    segments: Vec<FirstSegment>,
    results: Vec<Result<NzbFileInfo, String>>,
    r: Vec<NzbFileInfo>,
)
    requires
        results@.len() == segments@.len(),
        call_ensures(fetch_first_segments::fetch_sequential, (segments, results), r),
    ensures
        r@.len() == segments@.len(),
        forall|i: int|
            0 <= i < r@.len() ==> match results@[i] {
                Ok(info) => #[trigger] r@[i] == info,
                Err(_) => {
                    &&& r@[i].file_index == segments@[i].file_index
                    &&& r@[i].file_size == segments@[i].file_size
                    &&& r@[i].segment_ids == segments@[i].segment_ids
                    &&& r@[i].resolved_name@ == segments@[i].subject_name@
                    &&& r@[i].is_par2 == segments@[i].is_par2
                    &&& !r@[i].is_rar
                    &&& r@[i].hash_16k is None
                },
            },
{
    assert forall|i: int| 0 <= i < r@.len() implies match results@[i] {
        Ok(info) => #[trigger] r@[i] == info,
        Err(_) => {
            &&& r@[i].file_index == segments@[i].file_index
            &&& r@[i].file_size == segments@[i].file_size
            &&& r@[i].segment_ids == segments@[i].segment_ids
            &&& r@[i].resolved_name@ == segments@[i].subject_name@
            &&& r@[i].is_par2 == segments@[i].is_par2
            &&& !r@[i].is_rar
            &&& r@[i].hash_16k is None
        },
    } by {
        assert(fetch_first_segments::is_entry(
            r@[i],
            segments@[i],
            fetch_first_segments::shown_by(results@[i]),
        ));
    }
}

/// Fetched at the same time, each file has the entry that its segment gave, whenever that
/// came: the same as when they are fetched one after the other.
pub proof fn law_entries_are_the_same_in_any_order(
    segments: Vec<FirstSegment>,
    results: Vec<Result<NzbFileInfo, String>>,
    arrived: Vec<Result<NzbFileInfo, String>>,
    r: Vec<NzbFileInfo>,
    i: int,
)
    requires
        results@.len() == segments@.len(),
        forall|k: int|
            0 <= k < results@.len() ==> ((#[trigger] results@[k]) matches Ok(info)
                ==> info.file_index == k),
        forall|x: Result<NzbFileInfo, String>| #[trigger]
            arrived@.contains(x) <==> results@.contains(x),
        call_ensures(fetch_first_segments::collect_results, (segments, arrived), r),
        0 <= i < segments@.len(),
    ensures
        r@.len() == segments@.len(),
        match results@[i] {
            Ok(info) => r@[i] == info,
            Err(_) => {
                &&& r@[i].file_index == segments@[i].file_index
                &&& r@[i].file_size == segments@[i].file_size
                &&& r@[i].segment_ids == segments@[i].segment_ids
                &&& r@[i].resolved_name@ == segments@[i].subject_name@
                &&& r@[i].is_par2 == segments@[i].is_par2
                &&& !r@[i].is_rar
                &&& r@[i].hash_16k is None
            },
        },
{
    fetch_first_segments::law_arrival_order_does_not_matter(results@, arrived@);
    assert(fetch_first_segments::entry_of(fetch_first_segments::fetched(arrived@), i)
        == fetch_first_segments::shown_by(results@[i]));
    assert(fetch_first_segments::is_entry(
        r@[i],
        segments@[i],
        fetch_first_segments::entry_of(fetch_first_segments::fetched(arrived@), i),
    ));
}

/// The index among recovery files is one of them, no other is smaller, and none before it is
/// as small. There is none only where no file is a recovery file.
pub proof fn law_index_is_the_smallest_recovery_file(infos: &Vec<NzbFileInfo>, r: Option<usize>)
    requires
        call_ensures(get_par2_file_descriptors::smallest_par2, (infos,), r),
    ensures
        r is None ==> forall|i: int| 0 <= i < infos@.len() ==> !(#[trigger] infos@[i]).is_par2,
        r matches Some(at) ==> at < infos@.len() && infos@[at as int].is_par2,
        r matches Some(at) ==> forall|i: int|
            0 <= i < infos@.len() && (#[trigger] infos@[i]).is_par2 ==> infos@[i].file_size
                >= infos@[at as int].file_size,
        r matches Some(at) ==> forall|i: int|
            0 <= i < at && (#[trigger] infos@[i]).is_par2 ==> infos@[i].file_size
                > infos@[at as int].file_size,
{
}

/// Segments are put together in their order: those of two runs one after the other are the
/// bytes of the first and then of the second. A single segment is its own bytes.
pub proof fn law_segments_are_put_together_in_order<E>(
    first: Vec<Result<Vec<u8>, E>>,
    last: Result<Vec<u8>, E>,
    whole: Vec<Result<Vec<u8>, E>>,
    a: Result<Vec<u8>, E>,
    b: Result<Vec<u8>, E>,
)
    requires
        whole@ == first@.push(last),
        call_ensures(get_par2_file_descriptors::fetch_all_segments::<E>, (first,), a),
        call_ensures(get_par2_file_descriptors::fetch_all_segments::<E>, (whole,), b),
    ensures
        first@.len() == 0 ==> a is Ok && a->Ok_0@.len() == 0,
        a is Ok && last is Ok ==> b is Ok && b->Ok_0@ == a->Ok_0@ + last->Ok_0@,
        a is Ok && last is Err ==> b is Err && b->Err_0 == last->Err_0,
        a is Err ==> b is Err && b->Err_0 == a->Err_0,
{
    assert(whole@.drop_last() =~= first@);
}

/// Each descriptor of an index is one that the parser found, with its hashes, its size and
/// its name, and every one that it found is listed, once.
pub proof fn law_descriptors_are_those_of_the_index(data: &Vec<u8>, r: Vec<Par2File>)
    requires
        get_par2_file_descriptors::is_readable(data@),
        call_ensures(get_par2_file_descriptors::descriptors_if_readable, (data,), r),
    ensures
        ({
            let parsed = get_par2_file_descriptors::par2_parsed(data@);
            &&& parsed is None ==> r@.len() == 0
            &&& parsed matches Some(set) ==> r@.len() == set.dom().len() && forall|i: int|
                0 <= i < r@.len() ==> {
                    let f = #[trigger] r@[i];
                    let id = f.file_id@;
                    &&& set.contains_key(id)
                    &&& set[id].hash == f.hash@
                    &&& set[id].hash_16k == f.hash_16k@
                    &&& set[id].size == f.size
                    &&& set[id].filename == f.filename@
                }
            &&& forall|i: int, j: int|
                0 <= i < j < r@.len() ==> (#[trigger] r@[i]).file_id@ != (
                #[trigger] r@[j]).file_id@
        }),
{
}

/// The part of an archive that a file lies in: as many bytes as the header says, from where
/// it says on, in the segments of the archive.
pub open spec fn lies_at(part: FilePart, start: u64, size: u64, segment_ids: Seq<String>) -> bool {
    &&& part.segment_ids@ == segment_ids
    &&& start + size <= i64::MAX ==> {
        &&& part.segment_id_byte_range.start == start
        &&& part.segment_id_byte_range.end - part.segment_id_byte_range.start == size
        &&& part.file_part_byte_range.start == 0
        &&& part.file_part_byte_range.end - part.file_part_byte_range.start == size
    }
}

/// An archive without directories gives one file for each header, in their order, with the
/// name, the size, the volume, the place and the encryption that the header says.
pub proof fn law_files_are_as_their_headers<V, E>(
    info: &NzbFileInfo,
    headers: Vec<RarFileHeader<V, E>>,
    files: Vec<ProcessedFile<V, E>>,
)
    requires
        forall|i: int| 0 <= i < headers@.len() ==> !(#[trigger] headers@[i]).is_directory,
        call_ensures(rar_processor::processed_files::<V, E>, (info, headers), files),
    ensures
        files@.len() == headers@.len(),
        forall|i: int|
            0 <= i < files@.len() ==> {
                let f = #[trigger] files@[i];
                let h = headers@[i];
                &&& f.is_encrypted <==> h.is_encrypted
                &&& f.encryption == h.encryption
                &&& f.filename == h.filename
                &&& f.file_size == h.uncompressed_size
                &&& f.volume_number == h.volume_number
                &&& f.source_file_index == info.file_index
                &&& !f.is_directory
                &&& f.file_parts@.len() == 1
                &&& lies_at(
                    f.file_parts@[0],
                    h.data_start_position,
                    h.data_size,
                    info.segment_ids@,
                )
            },
{
    let keep = |h: RarFileHeader<V, E>| !h.is_directory;
    db::lemma_filter_all(headers@, keep);
    let described = rar_processor::file_headers(headers@);
    assert(described == headers@);
    assert forall|i: int| 0 <= i < files@.len() implies {
        let f = #[trigger] files@[i];
        let h = headers@[i];
        &&& f.is_encrypted <==> h.is_encrypted
        &&& f.encryption == h.encryption
        &&& f.filename == h.filename
        &&& f.file_size == h.uncompressed_size
        &&& f.volume_number == h.volume_number
        &&& f.source_file_index == info.file_index
        &&& !f.is_directory
        &&& f.file_parts@.len() == 1
        &&& lies_at(f.file_parts@[0], h.data_start_position, h.data_size, info.segment_ids@)
    } by {
        assert(rar_processor::is_processed(files@[i], described[i], *info));
    }
}

/// Whether the header number `k` of the archive number `i` describes a file.
pub open spec fn is_file_at<V, E>(
    infos: Seq<NzbFileInfo>,
    outcomes: Seq<RarOutcome<V, E>>,
    i: int,
    k: int,
) -> bool {
    &&& 0 <= i < infos.len()
    &&& infos[i].is_rar
    &&& outcomes[i] matches RarOutcome::Headers(headers)
    &&& 0 <= k < headers@.len()
    &&& !headers@[k].is_directory
}

/// The header number `k` of the archive number `i`.
pub open spec fn header_at<V, E>(outcomes: Seq<RarOutcome<V, E>>, i: int, k: int) -> RarFileHeader<
    V,
    E,
> {
    outcomes[i]->Headers_0@[k]
}

/// What is described comes from a header of an archive.
proof fn lemma_described<V, E>(infos: Seq<NzbFileInfo>, outcomes: Seq<RarOutcome<V, E>>, j: int) -> (r:
    (int, int))
    requires
        outcomes.len() == infos.len(),
        0 <= j < rar_processor::described(infos, outcomes).len(),
    ensures
        is_file_at(infos, outcomes, r.0, r.1),
        rar_processor::described(infos, outcomes)[j] == (
            infos[r.0],
            header_at(outcomes, r.0, r.1),
        ),
    decreases infos.len(),
{
    let n = infos.len() - 1;
    let info = infos[n];
    let before = rar_processor::described(infos.drop_last(), outcomes.drop_last());
    let headers = rar_processor::headers_of(info, outcomes[n]);
    let kept = rar_processor::file_headers(headers);
    if j < before.len() {
        lemma_described(infos.drop_last(), outcomes.drop_last(), j)
    } else {
        let h = kept[j - before.len()];
        db::lemma_filter_contains(headers, |h: RarFileHeader<V, E>| !h.is_directory);
        assert(kept.contains(h));
        let k = choose|k: int| 0 <= k < headers.len() && headers[k] == h;
        (n, k)
    }
}

/// Every header that describes a file is among what is described.
proof fn lemma_described_all<V, E>(
    infos: Seq<NzbFileInfo>,
    outcomes: Seq<RarOutcome<V, E>>,
    i: int,
    k: int,
) -> (j: int)
    requires
        outcomes.len() == infos.len(),
        is_file_at(infos, outcomes, i, k),
    ensures
        0 <= j < rar_processor::described(infos, outcomes).len(),
        rar_processor::described(infos, outcomes)[j] == (infos[i], header_at(outcomes, i, k)),
    decreases infos.len(),
{
    let n = infos.len() - 1;
    let info = infos[n];
    let before = rar_processor::described(infos.drop_last(), outcomes.drop_last());
    if i < n {
        lemma_described_all(infos.drop_last(), outcomes.drop_last(), i, k)
    } else {
        let headers = rar_processor::headers_of(info, outcomes[n]);
        let kept = rar_processor::file_headers(headers);
        let h = header_at(outcomes, i, k);
        db::lemma_filter_contains(headers, |h: RarFileHeader<V, E>| !h.is_directory);
        assert(headers[k] == h);
        assert(headers.contains(h));
        assert(kept.contains(h));
        let m = choose|m: int| 0 <= m < kept.len() && kept[m] == h;
        before.len() + m
    }
}

/// Every file that comes out of archives is one that a header of an archive describes: with
/// the same name, size, volume and place, and encrypted if and only if the header says so.
/// In particular, archives without encrypted files give none.
pub proof fn law_every_file_has_a_header<V, E>(
    infos: &Vec<NzbFileInfo>,
    outcomes: Vec<RarOutcome<V, E>>,
    r: Result<Vec<ProcessedFile<V, E>>, PipelineError>,
    j: int,
)
    requires
        outcomes@.len() == infos@.len(),
        call_ensures(rar_processor::process_rar_files::<V, E>, (infos, outcomes), r),
        r is Ok,
        0 <= j < r->Ok_0@.len(),
    ensures
        exists|i: int, k: int|
            #[trigger] is_file_at(infos@, outcomes@, i, k) && {
                let f = r->Ok_0@[j];
                let h = header_at(outcomes@, i, k);
                &&& f.is_encrypted == h.is_encrypted
                &&& f.encryption == h.encryption
                &&& f.filename == h.filename
                &&& f.file_size == h.uncompressed_size
                &&& f.volume_number == h.volume_number
                &&& f.source_file_index == infos@[i].file_index
                &&& f.file_parts@.len() == 1
                &&& lies_at(
                    f.file_parts@[0],
                    h.data_start_position,
                    h.data_size,
                    infos@[i].segment_ids@,
                )
            },
        (forall|i: int, k: int| #[trigger]
            is_file_at(infos@, outcomes@, i, k) ==> !header_at(outcomes@, i, k).is_encrypted)
            ==> !r->Ok_0@[j].is_encrypted,
        !r->Ok_0@[j].is_directory,
{
    let all = rar_processor::described(infos@, outcomes@);
    lemma_first_failure(infos@, outcomes@, 0);
    assert(rar_processor::are_described(r->Ok_0@, all));
    let (i, k) = lemma_described(infos@, outcomes@, j);
    assert(rar_processor::is_processed(r->Ok_0@[j], all[j].1, all[j].0));
}

/// Every header that describes a file gives one: nothing that an archive holds is lost.
pub proof fn law_every_header_gives_a_file<V, E>(
    infos: &Vec<NzbFileInfo>,
    outcomes: Vec<RarOutcome<V, E>>,
    r: Result<Vec<ProcessedFile<V, E>>, PipelineError>,
    i: int,
    k: int,
)
    requires
        outcomes@.len() == infos@.len(),
        call_ensures(rar_processor::process_rar_files::<V, E>, (infos, outcomes), r),
        r is Ok,
        is_file_at(infos@, outcomes@, i, k),
    ensures
        exists|j: int|
            0 <= j < r->Ok_0@.len() && {
                let f = #[trigger] r->Ok_0@[j];
                let h = header_at(outcomes@, i, k);
                &&& f.filename == h.filename
                &&& f.file_size == h.uncompressed_size
                &&& f.is_encrypted == h.is_encrypted
                &&& f.source_file_index == infos@[i].file_index
            },
{
    let files = r->Ok_0@;
    let all = rar_processor::described(infos@, outcomes@);
    lemma_first_failure(infos@, outcomes@, 0);
    let j = lemma_described_all(infos@, outcomes@, i, k);
    assert(rar_processor::is_processed(files[j], all[j].1, all[j].0));
}

proof fn lemma_first_failure<V, E>(
    infos: Seq<NzbFileInfo>,
    outcomes: Seq<RarOutcome<V, E>>,
    from: int,
)
    requires
        0 <= from <= infos.len(),
    ensures
        from <= rar_processor::first_failure(infos, outcomes, from) <= infos.len(),
        forall|i: int|
            from <= i < rar_processor::first_failure(infos, outcomes, from)
                ==> rar_processor::failure(#[trigger] infos[i], outcomes[i]) is None,
        rar_processor::first_failure(infos, outcomes, from) < infos.len()
            ==> rar_processor::failure(
            infos[rar_processor::first_failure(infos, outcomes, from)],
            outcomes[rar_processor::first_failure(infos, outcomes, from)],
        ) is Some,
    decreases infos.len() - from,
{
    if from < infos.len() && rar_processor::failure(infos[from], outcomes[from]) is None {
        lemma_first_failure(infos, outcomes, from + 1);
    }
}

/// Archives end a job only where one of them cannot be fetched or its parser breaks off. One
/// that cannot be parsed does not.
pub proof fn law_only_lost_archives_end_a_job<V, E>(
    infos: &Vec<NzbFileInfo>,
    outcomes: Vec<RarOutcome<V, E>>,
    r: Result<Vec<ProcessedFile<V, E>>, PipelineError>,
)
    requires
        outcomes@.len() == infos@.len(),
        call_ensures(rar_processor::process_rar_files::<V, E>, (infos, outcomes), r),
    ensures
        r is Err <==> exists|i: int|
            0 <= i < infos@.len() && (#[trigger] infos@[i]).is_rar && (outcomes@[i] is FetchFailed
                || outcomes@[i] is JoinFailed),
{
    lemma_first_failure(infos@, outcomes@, 0);
    let at = rar_processor::first_failure(infos@, outcomes@, 0);
    if r is Err {
        assert(infos@[at].is_rar && (outcomes@[at] is FetchFailed || outcomes@[at] is JoinFailed));
    } else {
        assert forall|i: int| 0 <= i < infos@.len() implies !((#[trigger] infos@[i]).is_rar && (
        outcomes@[i] is FetchFailed || outcomes@[i] is JoinFailed)) by {
            assert(rar_processor::failure(infos@[i], outcomes@[i]) is None);
        }
    }
}

/// The error of an archive that cannot be fetched names the segment, the archive and the
/// cause.
pub proof fn law_lost_archives_are_named<V, E>(
    infos: &Vec<NzbFileInfo>,
    outcomes: Vec<RarOutcome<V, E>>,
    segment_id: String,
    error: String,
    r: Result<Vec<ProcessedFile<V, E>>, PipelineError>,
)
    requires
        infos@.len() == 1,
        outcomes@.len() == 1,
        infos@[0].is_rar,
        outcomes@[0] == (RarOutcome::<V, E>::FetchFailed { segment_id, error }),
        call_ensures(rar_processor::process_rar_files::<V, E>, (infos, outcomes), r),
    ensures
        r is Err,
        r->Err_0@ == PipelineErrorView::Other(
            "failed to fetch segment "@ + segment_id@ + " for RAR file "@
                + infos@[0].resolved_name@ + ": "@ + error@,
        ),
{
    lemma_first_failure(infos@, outcomes@, 0);
}

/// All segments of an archive are fetched for its headers, in their order.
pub proof fn law_headers_are_read_from_all_segments(info: &NzbFileInfo, r: Vec<String>)
    requires
        call_ensures(rar_processor::header_segments, (info,), r),
    ensures
        r@.len() == info.segment_ids@.len(),
        forall|i: int| 0 <= i < r@.len() ==> #[trigger] r@[i] == info.segment_ids@[i],
{
}

/// Whether two files are the same file of the same archive.
pub open spec fn same_file<V, E>(x: ProcessedFile<V, E>, y: ProcessedFile<V, E>) -> bool {
    &&& x.filename == y.filename
    &&& x.file_size == y.file_size
    &&& x.source_file_index == y.source_file_index
    &&& x.volume_number == y.volume_number
    &&& x.is_encrypted == y.is_encrypted
    &&& x.encryption == y.encryption
    &&& x.file_parts@.len() == y.file_parts@.len()
    &&& x.file_parts@[0].segment_ids@ == y.file_parts@[0].segment_ids@
    &&& x.file_parts@[0].segment_id_byte_range == y.file_parts@[0].segment_id_byte_range
    &&& x.file_parts@[0].file_part_byte_range == y.file_parts@[0].file_part_byte_range
}

/// Two files that the same header of the same archive describes are the same.
proof fn lemma_same_file<V, E>(
    x: ProcessedFile<V, E>,
    y: ProcessedFile<V, E>,
    h: RarFileHeader<V, E>,
    info: NzbFileInfo,
)
    requires
        rar_processor::is_processed(x, h, info),
        rar_processor::is_processed(y, h, info),
    ensures
        same_file(x, y),
{
}

/// One more header of an archive gives one more file behind the others, unless it is that of
/// a directory: directories give none.
pub proof fn law_directories_give_no_file<V, E>(
    info: &NzbFileInfo,
    headers: Vec<RarFileHeader<V, E>>,
    longer: Vec<RarFileHeader<V, E>>,
    h: RarFileHeader<V, E>,
    a: Vec<ProcessedFile<V, E>>,
    b: Vec<ProcessedFile<V, E>>,
)
    requires
        longer@ == headers@.push(h),
        call_ensures(rar_processor::processed_files::<V, E>, (info, headers), a),
        call_ensures(rar_processor::processed_files::<V, E>, (info, longer), b),
    ensures
        headers@.len() == 0 ==> a@.len() == 0,
        h.is_directory ==> b@.len() == a@.len(),
        !h.is_directory ==> b@.len() == a@.len() + 1,
        !h.is_directory ==> b@.last().filename == h.filename && b@.last().file_size
            == h.uncompressed_size && b@.last().is_encrypted == h.is_encrypted,
        forall|i: int| 0 <= i < a@.len() ==> same_file(#[trigger] b@[i], a@[i]),
{
    reveal(Seq::filter);
    assert(longer@.drop_last() =~= headers@);
    let d = rar_processor::file_headers(headers@);
    let e = rar_processor::file_headers(longer@);
    assert(e == if h.is_directory {
        d
    } else {
        d.push(h)
    });
    assert forall|i: int| 0 <= i < a@.len() implies same_file(#[trigger] b@[i], a@[i]) by {
        assert(e[i] == d[i]);
        assert(rar_processor::is_processed(b@[i], e[i], *info));
        assert(rar_processor::is_processed(a@[i], d[i], *info));
        lemma_same_file(b@[i], a@[i], d[i], *info);
    }
    if !h.is_directory {
        let k = d.len() as int;
        assert(rar_processor::is_processed(b@[k], e[k], *info));
    }
}

/// The files of one more archive come behind those of the archives before it, as the archive
/// holds them.
pub proof fn law_archives_are_read_in_order<V, E>(
    infos: &Vec<NzbFileInfo>,
    longer: &Vec<NzbFileInfo>,
    info: NzbFileInfo,
    outcomes: Vec<RarOutcome<V, E>>,
    more: Vec<RarOutcome<V, E>>,
    headers: Vec<RarFileHeader<V, E>>,
    a: Vec<ProcessedFile<V, E>>,
    b: Vec<ProcessedFile<V, E>>,
    c: Vec<ProcessedFile<V, E>>,
)
    requires
        info.is_rar,
        outcomes@.len() == infos@.len(),
        longer@ == infos@.push(info),
        more@ == outcomes@.push(RarOutcome::Headers(headers)),
        call_ensures(rar_processor::process_rar_files::<V, E>, (infos, outcomes), Ok(a)),
        call_ensures(rar_processor::process_rar_files::<V, E>, (longer, more), Ok(b)),
        call_ensures(rar_processor::processed_files::<V, E>, (&info, headers), c),
    ensures
        b@.len() == a@.len() + c@.len(),
        forall|i: int| 0 <= i < a@.len() ==> same_file(#[trigger] b@[i], a@[i]),
        forall|i: int| 0 <= i < c@.len() ==> same_file(#[trigger] b@[a@.len() + i], c@[i]),
{
    let d = rar_processor::described(infos@, outcomes@);
    let e = rar_processor::described(longer@, more@);
    let f = rar_processor::file_headers(headers@);
    assert(longer@.drop_last() =~= infos@);
    assert(more@.drop_last() =~= outcomes@);
    let g = f.map_values(|h: RarFileHeader<V, E>| (info, h));
    assert(e == d + g);
    assert forall|i: int| 0 <= i < a@.len() implies same_file(#[trigger] b@[i], a@[i]) by {
        assert(e[i] == d[i]);
        assert(rar_processor::is_processed(b@[i], e[i].1, e[i].0));
        assert(rar_processor::is_processed(a@[i], d[i].1, d[i].0));
        lemma_same_file(b@[i], a@[i], d[i].1, d[i].0);
    }
    assert forall|i: int| 0 <= i < c@.len() implies same_file(
        #[trigger] b@[a@.len() + i],
        c@[i],
    ) by {
        let k = a@.len() + i;
        assert(e[k] == g[i]);
        assert(g[i] == (info, f[i]));
        assert(rar_processor::is_processed(b@[k], e[k].1, e[k].0));
        assert(rar_processor::is_processed(c@[i], f[i], info));
        lemma_same_file(b@[k], c@[i], f[i], info);
    }
}

} // verus!
