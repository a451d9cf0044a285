use nzbdav::db::{DbWrite, PlannedWrite};
use nzbdav::error::PipelineError;
use nzbdav::models::{
    DavItem, DavMultipartFile, DavNzbFile, ItemSubType, ItemType, QueueItem, Timestamp,
};
use nzbdav::nzb::{nzb_is_readable, read_nzb, NzbFile, NzbJob};
use nzbdav::pipeline::fetch_first_segments::{
    analysed, collect_results, fetch_first_segments, fetch_sequential, fetch_single_first_segment,
    first_window, unfetched, FirstSegment, NzbFileInfo,
};
use nzbdav::pipeline::get_par2_file_descriptors::{
    descriptors_if_readable, descriptors_or_none, fetch_all_segments, get_par2_file_descriptors, par2_is_readable,
    smallest_par2, Par2File,
};
use nzbdav::pipeline::queue_item_processor::{
    collect_items, ensure_directory, ensure_directory_with_history, job_or_error, job_password,
    job_paths, persist, split_files, Encoded, QueueItemProcessor,
};
use nzbdav::pipeline::rar_processor::{
    header_segments, process_rar_files, RarFileHeader, RarOutcome,
};
use nzbdav::seed::root_item;

const NOW: Timestamp = Timestamp { secs: 1_700_000_000, nanos: 0 };

fn queue_item(category: &str) -> QueueItem {
    QueueItem {
        id: 1,
        created_at: NOW,
        file_name: "Film.nzb".to_string(),
        job_name: "Film".to_string(),
        nzb_file_size: 1,
        total_segment_bytes: 2,
        category: category.to_string(),
        priority: 0,
        post_processing: -1,
        pause_until: None,
    }
}

fn nzb_file(name: &str, ids: &[&str], is_par2: bool) -> NzbFile {
    NzbFile {
        filename: name.to_string(),
        bytes: 500,
        is_par2,
        message_ids: ids.iter().map(|s| s.to_string()).collect(),
    }
}

fn info(index: usize, size: u64, is_rar: bool, is_par2: bool) -> NzbFileInfo {
    NzbFileInfo {
        file_index: index,
        subject_name: format!("s{}", index),
        yenc_name: None,
        resolved_name: format!("r{}", index),
        file_size: size,
        segment_ids: (0..5).map(|i| format!("{}-{}", index, i)).collect(),
        is_rar,
        is_par2,
        first_16k: None,
        hash_16k: None,
    }
}

fn item(id: u128, path: &str) -> DavItem {
    let mut i = root_item("f", path, ItemSubType::NzbFile, Some(1), NOW);
    i.id = id;
    i.item_type = ItemType::UsenetFile;
    i
}

#[test]
fn nzb_files_are_parsed() {
    let nzb = b"<nzb><head><meta type=\"password\">pw</meta></head><file subject='&quot;a.par2&quot; (1/1)'><segments><segment bytes=\"10\" number=\"1\">x@y</segment><segment bytes=\"+5\" number=\"2\">z@y</segment></segments></file></nzb>";
    assert!(nzb_is_readable(nzb));
    let job = QueueItemProcessor::process(queue_item(""), nzb).unwrap().job;
    assert_eq!(job.files.len(), 1);
    assert_eq!(job.files[0].filename, "a.par2");
    assert_eq!(job.files[0].bytes, 15);
    assert!(job.files[0].is_par2);
    assert_eq!(job.files[0].message_ids, vec!["x@y", "z@y"]);
    assert_eq!(job.password, Some("pw".to_string()));
    assert!(matches!(
        QueueItemProcessor::process(queue_item(""), b"<nzb/>"),
        Err(PipelineError::Other(_))
    ));
    assert_eq!(
        job_or_error(Err("bad".to_string())),
        Err(PipelineError::Other("NZB parse error: bad".to_string()))
    );
}

#[test]
fn nzb_files_with_growing_characters_are_parsed() {
    let nzb = "<nzb><file subject=\"&quot;İİ.vol00+01.par2&quot; (1/1)\"><segments><segment bytes=\"10\" number=\"1\">x@y</segment></segments></file><file subject=\"&quot;ẞ &#304;.mkv&quot; (1/1)\"><segments></segments></file></nzb>";
    assert!(nzb_is_readable(nzb.as_bytes()));
    let job = QueueItemProcessor::process(queue_item(""), nzb.as_bytes()).unwrap().job;
    assert_eq!(job.files.len(), 2);
    assert_eq!(job.files[0].filename, "İİ.vol00+01.par2");
    assert!(job.files[0].is_par2);
    assert_eq!(job.files[1].filename, "ẞ İ.mkv");
}

#[test]
fn names_that_can_be_cut_are_parsed() {
    for name in ["e\u{307}.vol.par2", "I\u{307}.vol0+1.par2", "ẞa.vol0+1.par2", "ẞẞab.vol.par2"] {
        let nzb = format!(
            "<nzb><file subject=\"&quot;{}&quot; (1/1)\"><segments><segment bytes=\"99999999999\" number=\"1\">x@y</segment></segments></file></nzb>",
            name
        );
        assert!(nzb_is_readable(nzb.as_bytes()), "{}", name);
        let job = read_nzb("job", nzb.as_bytes()).unwrap();
        assert_eq!(job.files[0].bytes, 99_999_999_999);
        assert!(job.files[0].is_par2);
    }
    let refused = QueueItemProcessor::process_if_readable(
        queue_item(""),
        "<nzb><file subject=\"ẞ.vol0+1.par2\"></file></nzb>".as_bytes(),
    );
    assert_eq!(
        refused,
        Err(PipelineError::Other(
            "NZB parse error: sizes or names that the parser cannot take".to_string()
        ))
    );
}

#[test]
fn unreadable_nzb_files_are_told_apart() {
    let reads = |attributes: &str| nzb_is_readable(format!("<file {}>", attributes).as_bytes());
    assert!(nzb_is_readable(b""));
    assert!(reads("subject=\"Größe ™ &#039;x&#x27;\""));
    assert!(nzb_is_readable(b"<segment bytes=\"1234567890\">"));
    assert!(nzb_is_readable(b"<segment bytes = \"12345678901\">"));
    assert!(nzb_is_readable(b"<segment bytes='+18446744073709551615'>"));
    assert!(nzb_is_readable(b"<segment bytes='18446744073709551616'><segment bytes='7'>"));
    assert!(!nzb_is_readable(b"<segment bytes='18446744073709551615'><segment bytes='1'>"));
    assert!(reads("subject=\"İ ẞ I\u{307} &#304; &#x1e9e;\""));
    assert!(reads("subject=\"İ.vol00+01.par2\""));
    assert!(reads("subject=\"I\u{307}.vol00+01.par2\""));
    assert!(reads("subject=\"&#304;.vol00+01.par2\""));
    assert!(reads("subject=\"e\u{307}.vol.par2\""));
    assert!(reads("subject=\"ẞa.vol00+01.par2\""));
    assert!(reads("a=\"ẞ\" subject=\"b.vol00+01.par2\""));
    assert!(reads("subject=\"&#8211;.vol00+01.par2\""));
    assert!(!reads("subject=\"İ.vol.par2\""));
    assert!(!reads("subject=\"I\u{307}.vol.par2\""));
    assert!(!reads("subject=\"İİİ.VOL0?.par2\""));
    assert!(reads("subject=\"İ.v:ol0+1.par2\""));
    assert!(!reads("subject=\"İ.v:o|l.p?ar2..\""));
    assert!(reads("subject=\"İ&#46;vol0+1.par2\""));
    assert!(!reads("subject=\"İ&#46;vol.p&#97;r2\""));
    assert!(!reads("subject=\"İ&#x2E;vol.par2\""));
    assert!(!reads("subject=\"ẞ.vol00+01.par2\""));
    assert!(!reads("subject=\"&#x2c62;.vol00+01.par2\""));
    assert!(reads("a='ẞẞ' subject=\"b.vol00+01.par2\""));
    assert!(reads("subject=\"KİŞİ. &quot;film.mkv&quot; yEnc (1/9)\""));
    assert!(reads("subject=\"İstanbul.Best.Of.Vol.1.rar\""));
    assert!(reads("subject=\"İ.vol &quot;a.par2&quot;\""));
    assert!(reads("subject=\"İ.vol.par2 &quot;a.rar&quot;\""));
    assert!(reads("subject=\"İ.vol.par2 b.rar (1/2)\""));
    assert!(!reads("subject=\"b.rar İ.vol.par2 (1/2)\""));
    assert!(reads("subject=\"b.rar İ.vol.par2 x\""));
    assert!(!reads("subject=\"b.rar İ.vol.par2 (\""));
    assert!(reads("subject=\"İ.vol.vol00+01.par2\""));
    assert!(reads("subject=\"İẞ.vol.par2\""));
    assert!(reads("subject=\"ẞẞé.vol0+1.par2\""));
    assert!(!reads("subject=\"aẞé.vol0+1.par2\""));
    assert!(!reads("subject = 'İ.vol.par2'"));
    assert!(!reads("subject='&quot;İ.vol.par2&quot;'"));
    assert!(!reads("subject='\"İ.vol.par2\"'"));
    assert!(reads("xsubject=\"İ.vol.par2\""));
    assert!(reads("subjects=\"İ.vol.par2\""));
    assert!(reads("poster=\"İ.vol.par2\""));
    // A reference that names nothing leaves all references as they are.
    assert!(reads("subject=\"&quot;a.rar&quot; İ.vol.par2 (x\""));
    assert!(!reads("subject=\"&quot;a.rar&quot; &x; İ.vol.par2 (x\""));
    assert!(!reads("subject=\"a &amp İ.vol.par2 (x\""));
    assert!(nzb_is_readable(b"<file subject=\"Gr\xf6\xdfe.vol.par2\">"));
    assert!(!nzb_is_readable(b"<file subject=\"\xf6 \xc4\xb0.vol.par2\">"));
    assert!(nzb_is_readable(b"date=\"123456789012\""));
    // Only the attributes of files and segments count.
    assert!(!reads("poster=\"x > y\" subject=\"İ.vol.par2\""));
    assert!(!reads("poster=\"x\"subject=\"İ.vol.par2\""));
    assert!(reads("subject=\"İ.vol.par2\"/"));
    assert!(reads("poster=\"x\"> subject=\"İ.vol.par2\""));
    assert!(reads("subject=\"İ.vol.par2"));
    for tag in ["<files ", "<file", "<meta ", "</file ", "file "] {
        assert!(nzb_is_readable(format!("{}subject=\"İ.vol.par2\">", tag).as_bytes()), "{}", tag);
    }
    let most = "<segment bytes=\"18446744073709551615\">";
    for other in [
        "<meta bytes=\"1\">", "<segment xbytes=\"1\">", "<segment bytes=\"1 \">",
        "<segment bytes=\"1\"/>", "<segment>bytes=\"1\"", "<segment bytes=\"+\">",
        "<segment bytes=\"-1\">", "<segment bytes=1>", "bytes 1",
    ] {
        assert!(nzb_is_readable(format!("{}{}", most, other).as_bytes()), "{}", other);
    }
    for other in ["<segment bytes=\"1\">", "<segment number='7' bytes = '+01'>"] {
        assert!(!nzb_is_readable(format!("{}{}", most, other).as_bytes()), "{}", other);
    }
}

/// An NZB file with one file for each name.
fn nzb_with(names: &[String]) -> String {
    let mut nzb = "<nzb>".to_string();
    for name in names {
        nzb.push_str(&format!("<file subject=\"{}\"></file>", name));
    }
    nzb.push_str("</nzb>");
    nzb
}

#[test]
fn the_parser_takes_every_character_in_a_readable_name() {
    let mut readable: Vec<String> = Vec::new();
    let mut refused: Vec<char> = Vec::new();
    for c in ('\u{80}'..='\u{1ffff}').filter(|c| !c.is_control()) {
        let name = format!("{}.vol.par2", c);
        if nzb_is_readable(format!("<file subject=\"{}\">", name).as_bytes()) {
            readable.push(name);
        } else {
            refused.push(c);
        }
    }
    let job = read_nzb("job", nzb_with(&readable).as_bytes()).unwrap();
    assert_eq!(job.files.len(), readable.len());
    assert!(job.files.iter().all(|f| f.is_par2));
    assert_eq!(refused.len(), 24);
    for c in refused {
        let changed = c.to_lowercase().collect::<String>().len() != c.len_utf8();
        assert!(changed || c == '\u{a7cb}' || c == '\u{a7dc}', "{}", c);
    }
}

#[test]
fn the_parser_takes_readable_names_and_no_others() {
    let parts = [
        "I", "\u{307}", "İ", "ẞ", "é", "e", "\u{301}", "l\u{327}", ".vol", ".VOL", "0+1", "\u{212a}",
        "中", "Ⱥ", "?", " ", "Ɫ", ".",
    ];
    let mut seed: u64 = 1;
    let mut readable: Vec<String> = Vec::new();
    let mut refused: usize = 0;
    for _ in 0..20000 {
        let mut base = String::new();
        seed = seed.wrapping_mul(6364136223846793005).wrapping_add(1442695040888963407);
        for k in 0..2 + (seed >> 60) / 2 {
            base.push_str(parts[(seed >> (20 + 4 * k)) as usize % parts.len()]);
        }
        let name = format!("{}.par2", base);
        let ok = nzb_is_readable(format!("<file subject=\"{}\">", name).as_bytes());
        let composed =
            !base.chars().any(|c| ('\u{300}'..'\u{370}').contains(&c) || c == '\u{212a}');
        if composed {
            let kept: String = base.chars().filter(|c| *c != '?').collect();
            let kept = kept.trim_start();
            let cut = match kept.to_lowercase().rfind(".vol") {
                Some(at) => kept.is_char_boundary(at) && kept.is_char_boundary(at + 4),
                None => true,
            };
            assert_eq!(ok, cut, "{}", name);
        }
        if ok {
            readable.push(name);
        } else {
            refused += 1;
        }
    }
    assert!(refused > 500 && readable.len() > 5000);
    let job = read_nzb("job", nzb_with(&readable).as_bytes()).unwrap();
    assert_eq!(job.files.len(), readable.len());
}

#[test]
fn jobs_lie_in_their_category() {
    let p = job_paths(&queue_item(""));
    assert!(!p.has_category);
    assert_eq!(p.parent_path, "/content/");
    assert_eq!(p.job_dir_path, "/content/Film/");
    let p = job_paths(&queue_item("tv"));
    assert!(p.has_category);
    assert_eq!(p.parent_path, "/content/tv/");
    assert_eq!(p.job_dir_path, "/content/tv/Film/");
}

#[test]
fn directories_are_made_once() {
    let parent = item(7, "/content/");
    let made = ensure_directory_with_history(
        "/content/Film/",
        "Film",
        "/content/",
        Some(1),
        Ok(None),
        Ok(Some(parent.clone())),
        9,
        NOW,
    )
    .unwrap();
    assert!(made.is_new);
    assert_eq!(made.item.id, 9);
    assert_eq!(made.item.id_prefix, "f");
    assert_eq!(made.item.parent_id, Some(7));
    assert_eq!(made.item.history_item_id, Some(1));
    let again = ensure_directory(
        "/content/Film/",
        "Film",
        "/content/",
        Ok(Some(made.item.clone())),
        Ok(Some(parent)),
        10,
        NOW,
    )
    .unwrap();
    assert!(!again.is_new);
    assert_eq!(again.item, made.item);
    let e = ensure_directory("/x/y/", "", "/x/", Ok(None), Ok(None), 1, NOW);
    assert_eq!(e, Err(PipelineError::Other("parent directory not found: /x/".to_string())));
    let nameless = ensure_directory("/x//", "", "/x/", Ok(None), Ok(Some(item(1, "/x/"))), 1, NOW);
    assert_eq!(nameless.unwrap().item.id_prefix, "d");
    let db = PipelineError::Database("locked".to_string());
    assert_eq!(
        ensure_directory("/x/", "x", "/", Err(db.clone()), Ok(None), 1, NOW),
        Err(db.clone())
    );
    assert_eq!(ensure_directory("/x/", "x", "/", Ok(None), Err(db.clone()), 1, NOW), Err(db));
}

#[test]
fn first_segments_are_planned() {
    let job = NzbJob {
        files: vec![
            nzb_file("a.rar", &["1@x", "2@x"], false),
            nzb_file("empty", &[], false),
            nzb_file("b.par2", &["3@x"], false),
            nzb_file("c", &["4@x"], true),
        ],
        password: None,
    };
    let plan = fetch_first_segments(&job, &vec![false, false, true, false], 0);
    assert_eq!(plan.concurrency, 1);
    assert!(plan.sequential);
    let indexes: Vec<usize> = plan.segments.iter().map(|s| s.file_index).collect();
    assert_eq!(indexes, vec![0, 1, 2, 3]);
    assert_eq!(plan.segments[0].message_id, Some("1@x".to_string()));
    assert_eq!(plan.segments[1].message_id, None);
    assert_eq!(plan.segments[0].segment_ids, vec!["1@x", "2@x"]);
    let par2: Vec<bool> = plan.segments.iter().map(|s| s.is_par2).collect();
    assert_eq!(par2, vec![false, false, true, true]);
    assert!(fetch_first_segments(&job, &vec![false; 4], 2).sequential);
    assert!(!fetch_first_segments(&job, &vec![false; 4], 3).sequential);
}

fn first_segment() -> FirstSegment {
    FirstSegment {
        file_index: 3,
        message_id: Some("1@x".to_string()),
        subject_name: "a.rar".to_string(),
        file_size: 500,
        segment_ids: vec!["1@x".to_string()],
        is_par2: false,
    }
}

#[test]
fn first_segments_are_hashed() {
    assert_eq!(first_window(vec![7; 20000]).len(), 16384);
    assert_eq!(first_window(vec![1, 2]), vec![1, 2]);
    let entry = fetch_single_first_segment(
        first_segment(),
        Some("film.rar".to_string()),
        b"abc".to_vec(),
        true,
    );
    // The MD5 digest of `abc`.
    let digest = [
        0x90, 0x01, 0x50, 0x98, 0x3c, 0xd2, 0x4f, 0xb0, 0xd6, 0x96, 0x3f, 0x7d, 0x28, 0xe1, 0x7f,
        0x72,
    ];
    assert_eq!(entry.hash_16k, Some(digest));
    assert_eq!(entry.first_16k, Some(b"abc".to_vec()));
    assert!(entry.is_rar);
    assert_eq!(entry.resolved_name, "a.rar");
    assert_eq!(entry.yenc_name, Some("film.rar".to_string()));
    let other = analysed(first_segment(), None, vec![], false, [9; 16]);
    assert_eq!(other.hash_16k, Some([9; 16]));
    assert_eq!(other.file_index, 3);
    assert_eq!(other.yenc_name, None);
}

#[test]
fn every_file_has_an_entry_in_any_order() {
    let segments: Vec<FirstSegment> =
        (0..4).map(|i| FirstSegment { file_index: i, ..first_segment() }).collect();
    let a = info(0, 1, false, false);
    let b = info(1, 2, true, false);
    let c = info(3, 3, false, true);
    let lost = || Err("x".to_string());
    let sequential = fetch_sequential(
        segments.clone(),
        vec![Ok(a.clone()), Ok(b.clone()), lost(), Ok(c.clone())],
    );
    let collected = collect_results(
        segments.clone(),
        vec![Ok(c.clone()), lost(), Ok(a.clone()), Ok(b.clone())],
    );
    assert_eq!(sequential, collected);
    let missing = unfetched(segments[2].clone());
    assert_eq!(missing.resolved_name, "a.rar");
    assert_eq!(missing.file_index, 2);
    assert_eq!(missing.hash_16k, None);
    assert!(!missing.is_rar);
    assert_eq!(collected, vec![a.clone(), b, missing, c]);
    let nothing = collect_results(segments, vec![]);
    let indexes: Vec<usize> = nothing.iter().map(|i| i.file_index).collect();
    assert_eq!(indexes, vec![0, 1, 2, 3]);
}

#[test]
fn the_smallest_recovery_file_is_the_index() {
    let infos = vec![
        info(0, 1, false, false),
        info(1, 50, false, true),
        info(2, 20, false, true),
        info(3, 20, false, true),
    ];
    assert_eq!(smallest_par2(&infos), Some(2));
    assert_eq!(smallest_par2(&vec![info(0, 1, true, false)]), None);
    let parts: Vec<Result<Vec<u8>, String>> = vec![Ok(vec![1]), Ok(vec![2, 3])];
    assert_eq!(fetch_all_segments(parts), Ok(vec![1, 2, 3]));
    let parts = vec![Ok(vec![1]), Err("a".to_string()), Err("b".to_string())];
    assert_eq!(fetch_all_segments(parts), Err("a".to_string()));
}

/// A packet of a recovery file.
fn packet(kind: &[u8; 16], body: &[u8]) -> Vec<u8> {
    let mut data = vec![0x11; 16];
    data.extend_from_slice(kind);
    data.extend_from_slice(body);
    let mut p = b"PAR2\0PKT".to_vec();
    p.extend_from_slice(&(data.len() as u64 + 32).to_le_bytes());
    let segment = FirstSegment {
        file_index: 0,
        message_id: None,
        subject_name: String::new(),
        file_size: 0,
        segment_ids: vec![],
        is_par2: true,
    };
    let hash = fetch_single_first_segment(segment, None, data.clone(), false).hash_16k.unwrap();
    p.extend_from_slice(&hash);
    p.extend_from_slice(&data);
    p
}

#[test]
fn recovery_files_describe_files() {
    let mut main = 1000u64.to_le_bytes().to_vec();
    main.extend_from_slice(&1u32.to_le_bytes());
    main.extend_from_slice(&[5; 16]);
    let mut desc = vec![5; 16];
    desc.extend_from_slice(&[6; 16]);
    desc.extend_from_slice(&[7; 16]);
    desc.extend_from_slice(&1234u64.to_le_bytes());
    desc.extend_from_slice(b"real.mkv");
    let mut data = packet(b"PAR 2.0\0Main\0\0\0\0", &main);
    data.extend(packet(b"PAR 2.0\0FileDesc", &desc));
    assert!(par2_is_readable(&data));
    let files = get_par2_file_descriptors(&data);
    assert_eq!(
        files,
        vec![Par2File {
            file_id: [5; 16],
            hash: [6; 16],
            hash_16k: [7; 16],
            size: 1234,
            filename: "real.mkv".to_string(),
        }]
    );
    assert_eq!(descriptors_or_none(Some(files.clone())), files);
    assert_eq!(descriptors_or_none(None), vec![]);
    assert_eq!(get_par2_file_descriptors(&b"garbage".to_vec()), vec![]);
    assert_eq!(descriptors_if_readable(&data), files);
}

/// A header with a length and nothing behind it, padded to 64 bytes.
fn long_packet(length: u64) -> Vec<u8> {
    let mut p = b"PAR2\0PKT".to_vec();
    p.extend_from_slice(&length.to_le_bytes());
    p.resize(64, 0);
    p
}

#[test]
fn packets_that_lead_nowhere_end_the_index() {
    let index = {
        let mut main = 4u64.to_le_bytes().to_vec();
        main.extend_from_slice(&1u32.to_le_bytes());
        let mut desc = vec![5u8; 16];
        desc.extend_from_slice(&[6; 16]);
        desc.extend_from_slice(&[7; 16]);
        desc.extend_from_slice(&1234u64.to_le_bytes());
        desc.extend_from_slice(b"a.mkv\0\0\0");
        let mut data = packet(b"PAR 2.0\0Main\0\0\0\0", &main);
        data.extend(packet(b"PAR 2.0\0FileDesc", &desc));
        data
    };
    let listed = descriptors_if_readable(&index);
    assert_eq!(listed.len(), 1);
    // Back to the start, over and over.
    let mut back = index.clone();
    back.extend(long_packet(0u64.wrapping_sub(index.len() as u64)));
    assert!(!par2_is_readable(&back));
    assert_eq!(descriptors_if_readable(&back), vec![]);
    let mut itself = b"xxxxxxxxxxxx".to_vec();
    itself.extend(long_packet(u64::MAX - 11));
    assert!(!par2_is_readable(&itself));
    // A length that is no multiple of four is left out.
    for length in [u64::MAX, 1 << 63 | 1, 3, 60] {
        let mut odd = long_packet(length);
        odd.extend_from_slice(&index);
        assert!(par2_is_readable(&odd));
        assert_eq!(descriptors_if_readable(&odd), listed);
    }
    // The parser gives up before the start of the data, and stops behind their end.
    for length in [1u64 << 63, (1 << 63) + 64, (1 << 63) + 128, 1 << 40, (1 << 63) - 4] {
        let mut far = index.clone();
        far.extend(long_packet(length));
        assert!(par2_is_readable(&far));
    }
    let mut behind = index.clone();
    behind.extend(long_packet(1 << 40));
    assert_eq!(descriptors_if_readable(&behind), listed);
    // What stands inside a packet is never seen.
    let mut inside = index.clone();
    inside.extend(packet(b"PAR 2.0\0Creator\0", &long_packet(u64::MAX - 63)));
    assert!(par2_is_readable(&inside));
    assert_eq!(descriptors_if_readable(&inside), listed);
    // The parser is led back once, to where it does not see that packet any more.
    let mut once = index.clone();
    once.extend(long_packet(u64::MAX - 3));
    assert!(par2_is_readable(&once));
    assert_eq!(descriptors_if_readable(&once), listed);
    assert!(par2_is_readable(b""));
    assert!(par2_is_readable(b"PAR2\0PKT"));
}

fn rar_header(name: &str, is_directory: bool) -> RarFileHeader<Option<u32>, Option<String>> {
    RarFileHeader {
        filename: name.to_string(),
        is_directory,
        data_start_position: 100,
        data_size: 50,
        uncompressed_size: 80,
        volume_number: Some(2),
        is_encrypted: true,
        encryption: Some("salt".to_string()),
    }
}

#[test]
fn archives_describe_their_files() {
    let infos = vec![
        info(0, 1, true, false),
        info(1, 1, false, false),
        info(2, 1, true, false),
        info(3, 1, true, false),
    ];
    assert_eq!(header_segments(&infos[0]), vec!["0-0", "0-1", "0-2", "0-3", "0-4"]);
    let outcomes = vec![
        RarOutcome::Headers(vec![rar_header("d", true), rar_header("a.mkv", false)]),
        RarOutcome::Headers(vec![rar_header("ignored", false)]),
        RarOutcome::Unparsed("no signature".to_string()),
        RarOutcome::Headers(vec![rar_header("b.mkv", false)]),
    ];
    let files = process_rar_files(&infos, outcomes).unwrap();
    assert_eq!(files.len(), 2);
    assert_eq!(files[0].filename, "a.mkv");
    assert_eq!(files[0].file_size, 80);
    assert_eq!(files[0].source_file_index, 0);
    assert_eq!(files[0].volume_number, Some(2));
    assert!(files[0].is_encrypted);
    let part = &files[0].file_parts[0];
    assert_eq!(part.segment_ids.len(), 5);
    assert_eq!((part.segment_id_byte_range.start, part.segment_id_byte_range.end), (100, 150));
    assert_eq!((part.file_part_byte_range.start, part.file_part_byte_range.end), (0, 50));
    assert_eq!(files[1].filename, "b.mkv");
    assert_eq!(files[1].source_file_index, 3);
}

#[test]
fn archives_that_cannot_be_fetched_end_the_job() {
    let infos = vec![info(0, 1, true, false), info(1, 1, true, false)];
    let failed: Vec<RarOutcome<Option<u32>, Option<String>>> = vec![
        RarOutcome::FetchFailed { segment_id: "0-1".to_string(), error: "430".to_string() },
        RarOutcome::NotRead,
    ];
    assert_eq!(
        process_rar_files(&infos, failed),
        Err(PipelineError::Other(
            "failed to fetch segment 0-1 for RAR file r0: 430".to_string()
        ))
    );
    let joined: Vec<RarOutcome<Option<u32>, Option<String>>> =
        vec![RarOutcome::NotRead, RarOutcome::JoinFailed("panic".to_string())];
    assert_eq!(
        process_rar_files(&infos, joined),
        Err(PipelineError::Other("spawn_blocking join error: panic".to_string()))
    );
}

#[test]
fn files_are_split_by_kind() {
    let infos = vec![
        info(0, 1, true, false),
        info(1, 1, false, false),
        info(2, 1, false, true),
        info(3, 1, true, true),
    ];
    let (rar, plain) = split_files(infos);
    let rar: Vec<usize> = rar.iter().map(|f| f.file_index).collect();
    let plain: Vec<usize> = plain.iter().map(|f| f.file_index).collect();
    assert_eq!(rar, vec![0, 3]);
    assert_eq!(plain, vec![1]);
    let job = NzbJob { files: vec![], password: Some("meta".to_string()) };
    assert_eq!(job_password(Some("name".to_string()), &job), Some("name".to_string()));
    assert_eq!(job_password(None, &job), Some("meta".to_string()));
}

#[test]
fn files_are_persisted_with_their_metadata() {
    let multipart = DavMultipartFile { file_parts: vec![], aes_params: None };
    let nzb_file = DavNzbFile { segment_ids: vec!["1@x".to_string()] };
    let collected = collect_items(
        vec![(item(1, "/content/a"), multipart)],
        vec![(item(2, "/content/b"), nzb_file)],
    );
    assert_eq!(collected.items.len(), 2);
    assert_eq!(collected.multipart_blobs[0].0, 1);
    assert_eq!(collected.nzb_file_blobs[0].0, 2);

    let multipart: Vec<Encoded> = vec![(1, Ok(vec![1])), (1, Ok(vec![9]))];
    let nzb_files: Vec<Encoded> = vec![(2, Ok(vec![2]))];
    let mut items = collected.items;
    items.push(item(3, "/content/c"));
    let ids = vec![10, 11, 12, 13, 14, 15];
    let links = vec![item(4, "/content/c.strm")];
    let plan = persist(items.clone(), &multipart, &nzb_files, &ids, links, 77, 2);
    let result = plan.result.unwrap();
    assert_eq!(result.items_created, 6);
    assert_eq!(result.job_dir_id, 77);
    let written: Vec<DbWrite> = plan.writes.iter().map(|w: &PlannedWrite| w.write.clone()).collect();
    let mut a = items[0].clone();
    a.file_blob_id = Some(10);
    let mut b = items[1].clone();
    b.file_blob_id = Some(13);
    assert_eq!(
        written,
        vec![
            DbWrite::PutFileBlob { id: 10, data: vec![1] },
            DbWrite::InsertItem(a),
            DbWrite::PutFileBlob { id: 13, data: vec![2] },
            DbWrite::InsertItem(b),
            DbWrite::InsertItem(items[2].clone()),
            DbWrite::InsertItem(item(4, "/content/c.strm")),
        ]
    );

    let broken: Vec<Encoded> = vec![(2, Err("too large".to_string()))];
    let plan = persist(items, &multipart, &broken, &ids, vec![], 77, 0);
    assert_eq!(plan.result, Err(PipelineError::Other("bincode error: too large".to_string())));
    assert_eq!(plan.writes.len(), 2);
}

#[test]
fn a_job_goes_through_its_stages() {
    let job = NzbJob {
        files: vec![nzb_file("a.rar", &["1@x"], false), nzb_file("b.mkv", &["2@x"], false)],
        password: Some("meta".to_string()),
    };
    let parsed = QueueItemProcessor::begin(queue_item("tv"), Ok(job)).unwrap();
    let root = item(5, "/content/");
    let made = parsed.category_directory(Ok(None), Ok(Some(root)), 20, NOW).unwrap();
    let category = made.clone().unwrap();
    assert!(category.is_new);
    assert_eq!(category.item.path, "/content/tv/");
    assert_eq!(category.item.history_item_id, None);
    let placed = parsed.job_directory(&made, Ok(None), Ok(Some(category.item)), 21, NOW).unwrap();
    assert_eq!(placed.directory.item.path, "/content/tv/Film/");
    assert_eq!(placed.directory.item.parent_id, Some(20));
    assert_eq!(placed.directory.item.history_item_id, Some(1));
    let plan = placed.first_segments(&vec![false, false], 8);
    assert_eq!(plan.concurrency, 8);
    assert_eq!(plan.segments.len(), 2);
    let sorted =
        placed.sort_files(vec![info(0, 1, true, false), info(1, 1, false, false)], None);
    assert_eq!(sorted.job_dir_id, 21);
    assert_eq!(sorted.path, "/content/tv/Film/");
    assert_eq!(sorted.password, Some("meta".to_string()));
    let files = sorted
        .archived_files(vec![RarOutcome::Headers(vec![rar_header("film.mkv", false)])])
        .unwrap();
    assert_eq!(files[0].filename, "film.mkv");
    let plan = sorted.finish(vec![item(30, "/x")], &vec![], &vec![], &vec![1, 2], vec![]);
    let result = plan.result.unwrap();
    assert_eq!(result.job_dir_id, 21);
    // The file, and the directories of the job and its category.
    assert_eq!(result.items_created, 3);

    let nameless = QueueItemProcessor::begin(
        queue_item(""),
        Ok(NzbJob { files: vec![], password: None }),
    )
    .unwrap();
    assert_eq!(nameless.category_directory(Ok(None), Ok(None), 1, NOW), Ok(None));
    assert!(nameless.job_directory(&None, Ok(None), Ok(None), 1, NOW).is_err());
}
