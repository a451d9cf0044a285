//! Archives: the files that their headers describe, and where in the segments they lie.

use vstd::prelude::*;

use crate::error::{PipelineError, PipelineErrorView};
use crate::models::{FilePart, LongRange};
use crate::num;
use crate::pipeline::fetch_first_segments;
use crate::pipeline::fetch_first_segments::NzbFileInfo;
use crate::text;

verus! {

/// A file that the headers of an archive describe. `V` numbers volumes, and `E` says how
/// a file is encrypted.
#[derive(Clone, Debug, PartialEq, Eq)]
pub struct RarFileHeader<V, E> {
    pub filename: String,
    pub is_directory: bool,
    pub data_start_position: u64,
    pub data_size: u64,
    pub uncompressed_size: u64,
    pub volume_number: V,
    pub is_encrypted: bool,
    pub encryption: E,
}

/// A file that was found in a job.
#[derive(Clone, Debug, PartialEq, Eq)]
pub struct ProcessedFile<V, E> {
    pub filename: String,
    pub file_size: u64,
    pub is_directory: bool,
    pub source_file_index: usize,
    pub volume_number: V,
    pub file_parts: Vec<FilePart>,
    pub is_encrypted: bool,
    pub encryption: E,
}

/// What came of reading the headers of a file.
#[derive(Clone, Debug, PartialEq, Eq)]
pub enum RarOutcome<V, E> {
    /// The file was not read: it is no archive, or an earlier one failed.
    NotRead,
    /// A segment could not be fetched.
    FetchFailed { segment_id: String, error: String },
    /// The parser did not end.
    JoinFailed(String),
    /// The headers could not be parsed.
    Unparsed(String),
    Headers(Vec<RarFileHeader<V, E>>),
}

/// The segments of an archive that are fetched for its headers: all of them, in order, for
/// a header may stand anywhere.
pub fn header_segments(info: &NzbFileInfo) -> (r: Vec<String>)
    ensures
        r@ == info.segment_ids@,
{
    fetch_first_segments::copy_texts(&info.segment_ids)
}

/// The end of the data of a file is a `u64`.
pub open spec fn fits<V, E>(h: RarFileHeader<V, E>) -> bool {
    h.data_start_position + h.data_size <= u64::MAX
}

/// Whether a file is the one that a header of an archive describes.
pub open spec fn is_processed<V, E>(
    file: ProcessedFile<V, E>,
    h: RarFileHeader<V, E>,
    info: NzbFileInfo,
) -> bool {
    &&& file.filename == h.filename
    &&& file.file_size == h.uncompressed_size
    &&& !file.is_directory
    &&& file.source_file_index == info.file_index
    &&& file.volume_number == h.volume_number
    &&& file.file_parts@.len() == 1
    &&& file.file_parts@[0].segment_ids@ == info.segment_ids@
    &&& file.file_parts@[0].segment_id_byte_range.start == num::as_signed(h.data_start_position)
    &&& file.file_parts@[0].segment_id_byte_range.end == num::as_signed(
        (h.data_start_position + h.data_size) as u64,
    )
    &&& file.file_parts@[0].file_part_byte_range.start == 0
    &&& file.file_parts@[0].file_part_byte_range.end == num::as_signed(h.data_size)
    &&& file.is_encrypted == h.is_encrypted
    &&& file.encryption == h.encryption
}

/// The headers that describe files, not directories.
pub open spec fn file_headers<V, E>(headers: Seq<RarFileHeader<V, E>>) -> Seq<RarFileHeader<V, E>> {
    headers.filter(|h: RarFileHeader<V, E>| !h.is_directory)
}

/// Whether files are those that the headers of an archive describe, in their order.
pub open spec fn are_processed<V, E>(
    files: Seq<ProcessedFile<V, E>>,
    headers: Seq<RarFileHeader<V, E>>,
    info: NzbFileInfo,
) -> bool {
    let described = file_headers(headers);
    &&& files.len() == described.len()
    &&& forall|i: int|
        0 <= i < files.len() ==> is_processed(#[trigger] files[i], described[i], info)
}

/// The files that the headers of an archive describe.
pub fn processed_files<V, E>(info: &NzbFileInfo, headers: Vec<RarFileHeader<V, E>>) -> (r: Vec<
    ProcessedFile<V, E>,
>)
    requires
        forall|i: int| 0 <= i < headers@.len() ==> fits(#[trigger] headers@[i]),
    ensures
        are_processed(r@, headers@, *info),
{
    let ghost all = headers@;
    let ghost keep = |h: RarFileHeader<V, E>| !h.is_directory;
    let mut files: Vec<ProcessedFile<V, E>> = Vec::new();
    proof {
        reveal(Seq::filter);
        assert(all.take(0) =~= Seq::empty());
    }
    for h in it: headers
        invariant
            it.seq() == all,
            forall|i: int| 0 <= i < all.len() ==> fits(#[trigger] all[i]),
            are_processed(files@, all.take(it.index() as int), *info),
    {
        proof {
            reveal(Seq::filter);
            assert(all.take(it.index() + 1).drop_last() =~= all.take(it.index() as int));
            assert(all.take(it.index() + 1).last() == h);
            assert(fits(all[it.index() as int]));
        }
        if !h.is_directory {
            let start: i64 = num::to_signed(h.data_start_position);
            let end: i64 = num::to_signed(h.data_start_position + h.data_size);
            let size: i64 = num::to_signed(h.data_size);
            let part = FilePart {
                segment_ids: fetch_first_segments::copy_texts(&info.segment_ids),
                segment_id_byte_range: LongRange { start, end },
                file_part_byte_range: LongRange { start: 0, end: size },
            };
            let mut file_parts: Vec<FilePart> = Vec::new();
            file_parts.push(part);
            files.push(
                ProcessedFile {
                    filename: h.filename,
                    file_size: h.uncompressed_size,
                    is_directory: false,
                    source_file_index: info.file_index,
                    volume_number: h.volume_number,
                    file_parts,
                    is_encrypted: h.is_encrypted,
                    encryption: h.encryption,
                },
            );
        }
    }
    assert(all.take(all.len() as int) =~= all);
    files
}

/// Why an archive ends the job, where it does.
pub open spec fn failure<V, E>(info: NzbFileInfo, outcome: RarOutcome<V, E>) -> Option<
    PipelineErrorView,
> {
    if !info.is_rar {
        None
    } else {
        match outcome {
            RarOutcome::FetchFailed { segment_id, error } => Some(
                PipelineErrorView::Other(
                    "failed to fetch segment "@ + segment_id@ + " for RAR file "@
                        + info.resolved_name@ + ": "@ + error@,
                ),
            ),
            RarOutcome::JoinFailed(e) => Some(
                PipelineErrorView::Other("spawn_blocking join error: "@ + e@),
            ),
            _ => None,
        }
    }
}

/// The headers of a file: those of an archive that could be parsed.
pub open spec fn headers_of<V, E>(info: NzbFileInfo, outcome: RarOutcome<V, E>) -> Seq<
    RarFileHeader<V, E>,
> {
    match outcome {
        RarOutcome::Headers(h) if info.is_rar => h@,
        _ => Seq::empty(),
    }
}

/// The position of the first archive that ends the job, or the number of files.
pub open spec fn first_failure<V, E>(
    infos: Seq<NzbFileInfo>,
    outcomes: Seq<RarOutcome<V, E>>,
    from: int,
) -> int
    decreases infos.len() - from,
{
    if from >= infos.len() {
        infos.len() as int
    } else if failure(infos[from], outcomes[from]) is Some {
        from
    } else {
        first_failure(infos, outcomes, from + 1)
    }
}

/// The headers that describe files in all archives, one archive after the other, each with
/// its archive.
pub open spec fn described<V, E>(
    infos: Seq<NzbFileInfo>,
    outcomes: Seq<RarOutcome<V, E>>,
) -> Seq<(NzbFileInfo, RarFileHeader<V, E>)>
    decreases infos.len(),
{
    if infos.len() == 0 {
        Seq::empty()
    } else {
        let info = infos.last();
        described(infos.drop_last(), outcomes.drop_last()) + file_headers(
            headers_of(info, outcomes.last()),
        ).map_values(|h: RarFileHeader<V, E>| (info, h))
    }
}

/// Whether files are those that headers describe, in their order.
pub open spec fn are_described<V, E>(
    files: Seq<ProcessedFile<V, E>>,
    headers: Seq<(NzbFileInfo, RarFileHeader<V, E>)>,
) -> bool {
    &&& files.len() == headers.len()
    &&& forall|i: int|
        0 <= i < files.len() ==> is_processed(#[trigger] files[i], headers[i].1, headers[i].0)
}

/// Collects the files of all archives, in the order of the archives and of their headers.
/// An archive whose headers cannot be parsed is passed over; one that cannot be fetched
/// ends the job.
pub fn process_rar_files<V, E>(infos: &Vec<NzbFileInfo>, outcomes: Vec<RarOutcome<V, E>>) -> (r:
    Result<Vec<ProcessedFile<V, E>>, PipelineError>)
    requires
        outcomes@.len() == infos@.len(),
        forall|i: int, k: int|
            0 <= i < infos@.len() && 0 <= k < headers_of(infos@[i], outcomes@[i]).len() ==> fits(
                #[trigger] headers_of(infos@[i], outcomes@[i])[k],
            ),
    ensures
        ({
            let at = first_failure(infos@, outcomes@, 0);
            if at < infos@.len() {
                r is Err && Some(r->Err_0@) == failure(infos@[at], outcomes@[at])
            } else {
                r is Ok && are_described(r->Ok_0@, described(infos@, outcomes@))
            }
        }),
{
    let ghost all = outcomes@;
    let mut files: Vec<ProcessedFile<V, E>> = Vec::new();
    let count: usize = infos.len();
    let mut i: usize = 0;
    assert(infos@.take(0) =~= Seq::empty());
    for outcome in it: outcomes
        invariant
            it.seq() == all,
            all.len() == infos@.len() == count,
            i == it.index(),
            forall|i: int, k: int|
                0 <= i < infos@.len() && 0 <= k < headers_of(infos@[i], all[i]).len() ==> fits(
                    #[trigger] headers_of(infos@[i], all[i])[k],
                ),
            first_failure(infos@, all, 0) == first_failure(infos@, all, i as int),
            are_described(files@, described(infos@.take(i as int), all.take(i as int))),
    {
        let info = &infos[i];
        let ghost before = files@;
        let mut more: Vec<ProcessedFile<V, E>> = Vec::new();
        proof {
            reveal(Seq::filter);
        }
        if info.is_rar {
            match outcome {
                RarOutcome::FetchFailed { segment_id, error } => {
                    let mut message = text::join3(
                        "failed to fetch segment ",
                        segment_id.as_str(),
                        " for RAR file ",
                    );
                    message.append(info.resolved_name.as_str());
                    message.append(": ");
                    message.append(error.as_str());
                    return Err(PipelineError::Other(message));
                },
                RarOutcome::JoinFailed(e) => {
                    return Err(
                        PipelineError::Other(
                            text::join("spawn_blocking join error: ", e.as_str()),
                        ),
                    );
                },
                RarOutcome::Headers(headers) => {
                    proof {
                        assert(headers_of(infos@[i as int], all[i as int]) == headers@);
                        assert forall|k: int| 0 <= k < headers@.len() implies fits(
                            #[trigger] headers@[k],
                        ) by {
                            assert(fits(headers_of(infos@[i as int], all[i as int])[k]));
                        }
                    }
                    more = processed_files(info, headers);
                },
                RarOutcome::Unparsed(_) => {},
                RarOutcome::NotRead => {},
            }
        }
        assert(are_processed(more@, headers_of(infos@[i as int], all[i as int]), *info));
        let ghost added = more@;
        files.append(&mut more);
        proof {
            assert(files@ == before + added);
            assert(infos@.take(i + 1).drop_last() =~= infos@.take(i as int));
            assert(all.take(i + 1).drop_last() =~= all.take(i as int));
            assert(infos@.take(i + 1).last() == *info);
            assert(all.take(i + 1).last() == all[i as int]);
            let d = described(infos@.take(i + 1), all.take(i + 1));
            assert forall|k: int| 0 <= k < files@.len() implies is_processed(
                #[trigger] files@[k],
                d[k].1,
                d[k].0,
            ) by {
                if k < before.len() {
                    assert(files@[k] == before[k]);
                } else {
                    assert(files@[k] == added[k - before.len()]);
                }
            }
        }
        i += 1;
    }
    assert(first_failure(infos@, all, count as int) == count);
    assert(infos@.take(count as int) =~= infos@);
    assert(all.take(count as int) =~= all);
    Ok(files)
}

} // verus!
