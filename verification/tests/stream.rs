use nzbdav::stream::multi_segment_stream::{MultiSegmentStream, SegmentRead};
use nzbdav::stream::provider::{
    article_exists, article_headers, article_payload, decoded_headers, decoded_payload,
    Disposition, ServerFailure, StreamError, UsenetArticleProvider, YencDecoded, YencHeaders,
};
use nzbdav::stream::seekable_segment_stream::{
    find_segment, FoundSegment, ReadPlan, SearchStep, SeekError, SeekFrom, SeekableSegmentStream,
};

fn make_stream(segment_count: usize, file_size: u64) -> SeekableSegmentStream {
    let segment_ids: Vec<String> =
        (0..segment_count).map(|i| format!("seg-{}@example.com", i)).collect();
    SeekableSegmentStream::new(segment_ids, file_size, 2)
}

fn seek(stream: &mut SeekableSegmentStream, pos: SeekFrom) -> Result<u64, SeekError> {
    stream.start_seek(pos)?;
    Ok(stream.poll_complete())
}

#[test]
fn test_new_creates_stream_empty() {
    let stream = make_stream(0, 0);
    assert_eq!(stream.position, 0);
    assert!(stream.inner.is_none());
    assert_eq!(stream.segment_ids.len(), 0);
}

#[test]
fn test_new_creates_stream_non_empty() {
    let stream = make_stream(10, 50000);
    assert_eq!(stream.position, 0);
    assert!(stream.inner.is_none());
    assert_eq!(stream.segment_ids.len(), 10);
    assert_eq!(stream.file_size, 50000);
}

#[test]
fn test_seek_to_start() {
    let mut stream = make_stream(5, 1000);
    let pos = seek(&mut stream, SeekFrom::Start(0)).unwrap();
    assert_eq!(pos, 0);
    assert_eq!(stream.position, 0);
}

#[test]
fn test_seek_to_end() {
    let mut stream = make_stream(5, 1000);
    let pos = seek(&mut stream, SeekFrom::Start(1000)).unwrap();
    assert_eq!(pos, 1000);
    assert_eq!(stream.position, 1000);
}

#[test]
fn test_seek_from_end() {
    let mut stream = make_stream(5, 1000);
    let pos = seek(&mut stream, SeekFrom::End(-100)).unwrap();
    assert_eq!(pos, 900);
    assert_eq!(stream.position, 900);
}

#[test]
fn test_seek_from_current() {
    let mut stream = make_stream(5, 1000);
    seek(&mut stream, SeekFrom::Start(500)).unwrap();
    let pos = seek(&mut stream, SeekFrom::Current(200)).unwrap();
    assert_eq!(pos, 700);
    assert_eq!(stream.position, 700);
}

#[test]
fn test_seek_negative_errors() {
    let mut stream = make_stream(5, 1000);
    let result = seek(&mut stream, SeekFrom::Current(-100));
    assert!(result.is_err());
    assert_eq!(result.unwrap_err(), SeekError::InvalidInput);
}

#[test]
fn seeks_behind_the_end_stop_there() {
    let mut stream = make_stream(5, 1000);
    assert_eq!(seek(&mut stream, SeekFrom::Start(5000)), Ok(1000));
    assert_eq!(seek(&mut stream, SeekFrom::End(7)), Ok(1000));
    // Without a pending seek the position is reported.
    assert_eq!(stream.poll_complete(), 1000);
}

#[test]
fn reads_open_the_stream_where_it_is_due() {
    let mut stream = make_stream(100, 100_000);
    assert_eq!(stream.poll_read(), ReadPlan::Forward);
    assert_eq!(stream.inner, Some(0));
    stream.forwarded(10);
    assert_eq!(stream.position, 10);

    seek(&mut stream, SeekFrom::Start(48_500)).unwrap();
    assert!(stream.needs_resolve);
    match stream.poll_read() {
        ReadPlan::Search(s) => assert_eq!(s.interpolation(), (48_500, 100_000, 100)),
        other => panic!("unexpected plan {:?}", other),
    }
    stream.resolved(FoundSegment { index: 0, start_byte: 1000 });
    assert_eq!(stream.discard_bytes, 47_500);
    stream.resolved(FoundSegment { index: 47, start_byte: 48_000 });
    assert_eq!(stream.inner, Some(47));
    assert_eq!(stream.poll_read(), ReadPlan::Discard(500));
    assert!(stream.discarded(500));
    assert_eq!(stream.poll_read(), ReadPlan::Forward);
    assert_eq!(stream.remaining_segments(98), vec!["seg-98@example.com", "seg-99@example.com"]);

    stream.discard_bytes = 70_000;
    assert_eq!(stream.poll_read(), ReadPlan::Discard(65536));
    assert!(stream.discarded(65536));
    assert_eq!(stream.poll_read(), ReadPlan::Discard(4464));
    assert!(!stream.discarded(0));

    stream.inner = None;
    assert_eq!(stream.poll_read(), ReadPlan::Eof);
    // At the end of the file there is nothing to read.
    seek(&mut stream, SeekFrom::End(0)).unwrap();
    assert_eq!(stream.poll_read(), ReadPlan::Eof);
    let mut empty = make_stream(0, 1000);
    seek(&mut empty, SeekFrom::Start(10)).unwrap();
    assert_eq!(empty.poll_read(), ReadPlan::Eof);
}

/// Reads a file of the given segments from an offset on, `room` bytes at a time. The guesses
/// of the search are always the first segment considered.
fn read_from(segments: &[Vec<u8>], size: u64, offset: u64, room: usize) -> Vec<u8> {
    let mut bounds = vec![0u64];
    for s in segments {
        bounds.push(bounds[bounds.len() - 1] + s.len() as u64);
    }
    let mut stream = make_stream(segments.len(), size);
    seek(&mut stream, SeekFrom::Start(offset)).unwrap();
    if let ReadPlan::Search(search) = stream.poll_read() {
        let mut step = SearchStep::Probe(search);
        let found = loop {
            match step {
                SearchStep::Found(f) => break f,
                SearchStep::Probe(s) => {
                    let index = s.probe_index(0);
                    let headers = YencHeaders {
                        part_begin: bounds[index],
                        part_end: bounds[index + 1],
                        total_size: size,
                    };
                    step = s.observe(index, &headers);
                }
                SearchStep::NoSegments => panic!("there are segments"),
            }
        };
        stream.resolved(found);
    }
    let mut next = stream.inner.unwrap();
    let mut articles = MultiSegmentStream::new();
    let mut out: Vec<u8> = vec![];
    loop {
        let plan = stream.poll_read();
        let count = match plan {
            ReadPlan::Discard(n) => n,
            ReadPlan::Forward => room,
            other => panic!("unexpected plan {:?}", other),
        };
        let bytes = match articles.poll_read(count) {
            SegmentRead::Bytes(v) => v,
            SegmentRead::Eof => {
                return out;
            }
            SegmentRead::Receive => {
                let article = segments.get(next).map(|s| Ok(s.clone()));
                next += 1;
                articles.received(article, count).unwrap()
            }
        };
        match plan {
            ReadPlan::Discard(_) => {
                stream.discarded(bytes.len());
            }
            _ => {
                stream.forwarded(bytes.len());
                out.extend(bytes);
            }
        }
    }
}

#[test]
fn reads_after_a_seek_give_the_bytes_from_there() {
    // Ninety-nine segments of one byte and a long last one.
    let mut segments: Vec<Vec<u8>> = (0..99).map(|i| vec![i as u8]).collect();
    segments.push((0..1000).map(|i| (i % 251) as u8).collect());
    let content: Vec<u8> = segments.concat();
    for offset in [0usize, 1, 50, 98, 99, 100, 1000, 1098] {
        for size in [1099u64, 2000] {
            let read = read_from(&segments, size, offset as u64, 7);
            assert_eq!(read, content[offset..], "from {}", offset);
        }
    }
    // Behind the true end there is nothing, whatever size was told.
    assert!(read_from(&segments, 2000, 1099, 7).is_empty());
    assert!(read_from(&segments, 2000, 1999, 7).is_empty());
    // The range 0-3 is the first four bytes.
    assert_eq!(&read_from(&segments, 1099, 0, 4)[..4], &content[..4]);
}

/// The byte range of a segment in a file of segments with 100 bytes.
fn header(index: usize) -> YencHeaders {
    YencHeaders {
        part_begin: index as u64 * 100,
        part_end: index as u64 * 100 + 100,
        total_size: 1000,
    }
}

#[test]
fn the_search_finds_the_segment() {
    assert_eq!(find_segment(0, 1000, 5), SearchStep::NoSegments);
    let start = FoundSegment { index: 0, start_byte: 0 };
    assert_eq!(find_segment(10, 1000, 0), SearchStep::Found(start));
    for target in [1u64, 99, 100, 555, 999] {
        let mut step = find_segment(10, 1000, target);
        let mut probes: usize = 0;
        let found = loop {
            match step {
                SearchStep::Found(f) => break f,
                SearchStep::Probe(s) => {
                    // A guess that is always wrong still ends at the right segment.
                    let index = s.probe_index(i64::MAX);
                    step = s.observe(index, &header(index));
                    probes += 1;
                }
                SearchStep::NoSegments => panic!("there are segments"),
            }
        };
        assert_eq!(found.index as u64, target / 100);
        assert_eq!(found.start_byte, target / 100 * 100);
        assert!(probes <= 10);
    }
}

#[test]
fn the_search_settles_for_an_estimate() {
    match find_segment(10, 1000, 555) {
        SearchStep::Probe(s) => {
            assert_eq!(s.interpolation(), (555, 1000, 10));
            assert_eq!(s.probe_index(5), 5);
            assert_eq!(s.probe_failed(), FoundSegment { index: 4, start_byte: 400 });
        }
        other => panic!("unexpected step {:?}", other),
    }
    // A target behind the file is estimated at once.
    let end = FoundSegment { index: 8, start_byte: 800 };
    assert_eq!(find_segment(10, 1000, 5000), SearchStep::Found(end));
}

#[test]
fn test_empty_provider_fetch_decoded() {
    let provider = UsenetArticleProvider::new(vec![]);
    let request = provider.request("test@example.com");
    assert_eq!(request.next_server(), None);
    let result = UsenetArticleProvider::fetch_decoded(request, None);
    assert!(result.is_err());
    let err = result.unwrap_err();
    assert!(
        matches!(err, StreamError::AllServersExhausted(_)),
        "expected AllServersExhausted, got: {:?}",
        err
    );
}

#[test]
fn test_empty_provider_stat() {
    let provider = UsenetArticleProvider::new(vec![]);
    let result = UsenetArticleProvider::stat(provider.request("test@example.com"), None);
    assert!(result.is_err());
    let err = result.unwrap_err();
    assert!(matches!(err, StreamError::AllServersExhausted(_)));
}

#[test]
fn test_replace_pools() {
    let mut provider = UsenetArticleProvider::new(vec![]);
    assert_eq!(provider.total_connections(), 0);
    provider.replace_pools(vec![]);
    assert_eq!(provider.total_connections(), 0);
    provider.replace_pools(vec![10, 20, 8]);
    assert_eq!(provider.total_connections(), 38);
}

#[test]
fn servers_are_asked_in_order() {
    let provider = UsenetArticleProvider::new(vec![1, 1, 1]);
    let mut request = provider.request("a@b");
    assert_eq!(request.next_server(), Some(0));
    assert_eq!(
        request.failed(ServerFailure::Acquire("timeout".to_string())),
        Disposition::NotHeld
    );
    assert_eq!(request.next_server(), Some(1));
    assert_eq!(request.failed(ServerFailure::Nntp("502".to_string())), Disposition::Discard);
    assert_eq!(request.next_server(), Some(2));
    assert_eq!(request.failed(ServerFailure::NotFound), Disposition::Release);
    assert_eq!(request.next_server(), None);
    assert_eq!(request.exhausted(), StreamError::ArticleNotFound("a@b".to_string()));

    let mut request = provider.request("a@b");
    request.failed(ServerFailure::NotFound);
    request.failed(ServerFailure::NotFound);
    request.failed(ServerFailure::NotFound);
    assert_eq!(request.stat_exhausted(), Ok(false));

    let mut request = provider.request("a@b");
    request.failed(ServerFailure::Nntp("502".to_string()));
    assert_eq!(request.stat_exhausted(), Err(StreamError::NntpError("502".to_string())));

    // The server that failed may have the article.
    let mut request = provider.request("a@b");
    request.failed(ServerFailure::Acquire("timeout".to_string()));
    request.failed(ServerFailure::Nntp("502".to_string()));
    request.failed(ServerFailure::NotFound);
    assert_eq!(request.stat_exhausted(), Err(StreamError::NntpError("502".to_string())));
    let mut request = provider.request("a@b");
    request.failed(ServerFailure::NotFound);
    request.failed(ServerFailure::Acquire("timeout".to_string()));
    request.failed(ServerFailure::NotFound);
    assert_eq!(
        UsenetArticleProvider::stat(request, None),
        Err(StreamError::NntpError("timeout".to_string()))
    );
    assert!(article_exists(223));
    assert!(!article_exists(430));
}

/// An article of a two-part file whose part holds `abc`.
fn article() -> Vec<u8> {
    b"=ybegin part=2 total=2 line=128 size=8 name=x.bin\r\n=ypart begin=6 end=8\r\n\x8b\x8c\x8d\r\n=yend size=3 part=2\r\n".to_vec()
}

#[test]
fn articles_are_decoded() {
    assert_eq!(article_payload(Some(article()), "a@b"), Ok(b"abc".to_vec()));
    let headers = article_headers(Some(article()), "a@b").unwrap();
    assert_eq!(headers.total_size, 8);
    assert_eq!(headers.part_end, 8);
    assert_eq!(
        article_payload(None, "a@b"),
        Err(StreamError::NntpError("empty response for article a@b".to_string()))
    );
    assert_eq!(
        article_headers(None, "a@b"),
        Err(StreamError::NntpError("empty response for article a@b".to_string()))
    );
    assert!(matches!(
        article_payload(Some(b"no yenc here".to_vec()), "a@b"),
        Err(StreamError::YencDecode(_))
    ));
}

#[test]
fn answers_end_a_request() {
    let provider = UsenetArticleProvider::new(vec![1]);
    let ask = || provider.request("a@b");
    assert_eq!(
        UsenetArticleProvider::fetch_decoded(ask(), Some(Some(article()))),
        Ok(b"abc".to_vec())
    );
    assert_eq!(
        UsenetArticleProvider::fetch_decoded(ask(), Some(None)),
        Err(StreamError::NntpError("empty response for article a@b".to_string()))
    );
    let headers = UsenetArticleProvider::yenc_headers(ask(), Some(Some(article()))).unwrap();
    assert_eq!(headers.part_end, 8);
    let part = UsenetArticleProvider::fetch_part(ask(), Some(Some(article()))).unwrap();
    assert_eq!(part.data, b"abc".to_vec());
    assert_eq!(part.filename, Some("x.bin".to_string()));
    assert_eq!(
        UsenetArticleProvider::fetch_part(ask(), Some(None)),
        Err(StreamError::NntpError("empty response for article a@b".to_string()))
    );
    assert!(UsenetArticleProvider::fetch_part(ask(), None).is_err());
    assert!(matches!(
        UsenetArticleProvider::yenc_headers(ask(), None),
        Err(StreamError::AllServersExhausted(_))
    ));
    assert_eq!(UsenetArticleProvider::stat(ask(), Some(223)), Ok(true));
    assert_eq!(UsenetArticleProvider::stat(ask(), Some(430)), Ok(false));
    let mut failed = ask();
    failed.failed(ServerFailure::NotFound);
    assert_eq!(UsenetArticleProvider::stat(failed, None), Ok(false));
}

#[test]
fn missing_yenc_headers_count_as_zero() {
    let decoded =
        YencDecoded { data: vec![1], filename: None, part_begin: None, part_end: Some(7), file_size: None };
    assert_eq!(
        decoded_headers(Ok(decoded)),
        Ok(YencHeaders { part_begin: 0, part_end: 7, total_size: 0 })
    );
    assert_eq!(
        decoded_headers(Err("bad".to_string())),
        Err(StreamError::YencDecode("bad".to_string()))
    );
    assert_eq!(
        decoded_payload(Err("bad".to_string())),
        Err(StreamError::YencDecode("bad".to_string()))
    );
}

#[test]
fn reads_deliver_every_byte_in_order() {
    let articles = vec![b"hello ".to_vec(), b"".to_vec(), b"wide world".to_vec()];
    let mut stream = MultiSegmentStream::new();
    let mut next = 0;
    let mut out: Vec<u8> = vec![];
    loop {
        match stream.poll_read(4) {
            SegmentRead::Bytes(v) => out.extend(v),
            SegmentRead::Eof => break,
            SegmentRead::Receive => {
                if next < articles.len() {
                    out.extend(stream.received(Some(Ok(articles[next].clone())), 4).unwrap());
                    next += 1;
                } else {
                    assert_eq!(stream.received(None, 4), Ok(vec![]));
                }
            }
        }
    }
    assert_eq!(out, b"hello wide world");
    assert_eq!(stream.bytes_read(), 16);
}

#[test]
fn a_failing_segment_ends_the_stream() {
    let gone = StreamError::ArticleNotFound("b@x".to_string());
    let mut stream = MultiSegmentStream::new();
    assert_eq!(stream.received(Some(Ok(b"abc".to_vec())), 2), Ok(b"ab".to_vec()));
    assert!(matches!(stream.poll_read(9), SegmentRead::Bytes(v) if v == b"c"));
    assert!(matches!(stream.poll_read(9), SegmentRead::Receive));
    assert_eq!(stream.received(Some(Err(gone.clone())), 9), Err(gone));
    assert!(matches!(stream.poll_read(9), SegmentRead::Eof));
    assert_eq!(stream.bytes_read(), 3);
}
