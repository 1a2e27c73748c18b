use movable::proto::Copy as CopyMsg;
use movable::{
    chunk_file, chunker_accepts, chunker_runs, chunks_from_cuts, compare_bytes, compare_keys, determine_params,
    file_params, path_key, reply, Chunk, Collector, Create, Data, Delete, File, FileTable, Info,
    InfoOneOfKind, Meta, Params, PathOrder, Presence, Progress, Reply, SyncError, Update,
    UpdateOneOfKind, GIGABYTE, MEGABYTE,
};

fn file(path: &str, params: Option<Params>) -> File {
    File { path: path.to_string(), params: params.map(Box::new), chunks: Vec::new() }
}

fn params(min_size: u32, avg_size: u32, max_size: u32) -> Params {
    Params { min_size, avg_size, max_size }
}

fn info(kind: InfoOneOfKind) -> Info {
    Info { Kind: Some(kind) }
}

#[test]
fn determine_params_small_files() {
    assert_eq!(determine_params(0), (32 * 1024, 128 * 1024, 512 * 1024));
    assert_eq!(determine_params(MEGABYTE), (32 * 1024, 128 * 1024, 512 * 1024));
}

#[test]
fn determine_params_middling_files() {
    assert_eq!(determine_params(MEGABYTE + 1), (512 * 1024, 2 * 1024 * 1024, 64 * 2014 * 1024));
    assert_eq!(determine_params(GIGABYTE), (512 * 1024, 2 * 1024 * 1024, 64 * 2014 * 1024));
}

#[test]
fn determine_params_large_files() {
    assert_eq!(determine_params(GIGABYTE + 1), (1_048_576, 4_194_304, 16_777_216));
    assert_eq!(determine_params(u64::MAX), (1_048_576, 4_194_304, 16_777_216));
}

#[test]
fn chunker_limits() {
    assert!(chunker_accepts(64, 256, 1024));
    assert!(chunker_accepts(1_048_576, 4_194_304, 16_777_216));
    assert!(!chunker_accepts(63, 256, 1024));
    assert!(!chunker_accepts(64, 255, 1024));
    assert!(!chunker_accepts(64, 256, 1023));
    assert!(!chunker_accepts(1_048_577, 256, 1024));
    assert!(!chunker_accepts(64, 4_194_305, 1024));
    assert!(!chunker_accepts(64, 256, 16_777_217));
    let (min, avg, max) = determine_params(10 * MEGABYTE);
    assert!(!chunker_accepts(min, avg, max));
    for size in [0, MEGABYTE, GIGABYTE + 1, u64::MAX] {
        let (min, avg, max) = determine_params(size);
        assert!(min <= avg && avg <= max);
        assert!(chunker_accepts(min, avg, max));
    }
}

#[test]
fn chunk_all_zeros_gives_maximum_chunks() {
    let data = vec![0u8; 10240];
    let chunks = chunk_file(&data, &params(64, 256, 1024)).unwrap();
    assert_eq!(chunks.len(), 10);
    for (i, c) in chunks.iter().enumerate() {
        assert_eq!(c.hash, 14169102344523991076);
        assert_eq!(c.start, (i * 1024) as u64);
        assert_eq!(c.len, 1024);
    }
}

#[test]
fn chunk_empty_and_short_data() {
    assert_eq!(chunk_file(&[], &params(64, 256, 1024)).unwrap(), Vec::<Chunk>::new());
    let short = vec![7u8; 50];
    let chunks = chunk_file(&short, &params(64, 256, 1024)).unwrap();
    assert_eq!(chunks, vec![Chunk { hash: 0, start: 0, len: 50 }]);
}

#[test]
fn chunks_cover_data_back_to_back() {
    let data: Vec<u8> = (0..200_000u32).map(|i| (i.wrapping_mul(2654435761) >> 13) as u8).collect();
    let chunks = chunk_file(&data, &params(2048, 8192, 32768)).unwrap();
    assert!(chunks.len() > 1);
    let mut next = 0u64;
    for c in &chunks {
        assert_eq!(c.start, next);
        assert!(c.len > 0 && c.len <= 32768);
        next += c.len as u64;
    }
    assert_eq!(next, data.len() as u64);
}

#[test]
fn chunk_refuses_bounds_out_of_range() {
    let data = vec![1u8; 100];
    assert_eq!(chunk_file(&data, &params(63, 256, 1024)), Err(SyncError::ParamsOutOfRange));
    assert_eq!(chunk_file(&data, &params(64, 256, 16_777_217)), Err(SyncError::ParamsOutOfRange));
    // an average above the maximum: refused on data longer than the maximum,
    // chunked on data no longer than it
    let longer = vec![3u8; 2000];
    assert!(chunker_accepts(64, 4096, 1024));
    assert!(!chunker_runs(2000, 64, 4096, 1024));
    assert_eq!(chunk_file(&longer, &params(64, 4096, 1024)), Err(SyncError::ParamsOutOfRange));
    let shorter = vec![3u8; 500];
    assert!(chunker_runs(500, 64, 4096, 1024));
    let chunks = chunk_file(&shorter, &params(64, 4096, 1024)).unwrap();
    assert_eq!(chunks.iter().map(|c| c.len as usize).sum::<usize>(), 500);
    assert_eq!(chunks[0].start, 0);
    assert!(chunker_runs(2000, 64, 1024, 1024));
}

#[test]
fn chunks_from_cuts_one_for_one() {
    let cuts = vec![(5u64, 0usize, 10usize), (9u64, 10usize, 3usize)];
    assert_eq!(
        chunks_from_cuts(&cuts),
        vec![Chunk { hash: 5, start: 0, len: 10 }, Chunk { hash: 9, start: 10, len: 3 }]
    );
}

#[test]
fn path_keys_fold_separators() {
    assert_eq!(path_key("a//b/"), path_key("a/b"));
    assert_eq!(path_key("./a"), vec![(2u8, Vec::new()), (4u8, b"a".to_vec())]);
    assert_eq!(path_key("/x/../y"), vec![(1u8, Vec::new()), (4u8, b"x".to_vec()), (3u8, Vec::new()), (4u8, b"y".to_vec())]);
    assert_eq!(path_key(""), Vec::new());
}

#[test]
fn path_order_by_components() {
    // "a" < "a-b" as names, so "a/b" comes first although '-' < '/'.
    assert_eq!(compare_keys(&path_key("a/b"), &path_key("a-b")), PathOrder::Less);
    assert_eq!(compare_keys(&path_key("a-b"), &path_key("a/b")), PathOrder::Greater);
    assert_eq!(compare_keys(&path_key("a/b"), &path_key("a//b")), PathOrder::Equal);
    assert_eq!(compare_keys(&path_key("a"), &path_key("a/b")), PathOrder::Less);
    assert_eq!(compare_keys(&path_key("/z"), &path_key("a")), PathOrder::Less);
    assert_eq!(compare_bytes(&b"ab".to_vec(), &b"b".to_vec()), PathOrder::Less);
    assert_eq!(compare_bytes(&b"ab".to_vec(), &b"a".to_vec()), PathOrder::Greater);
    assert_eq!(compare_bytes(&b"".to_vec(), &b"".to_vec()), PathOrder::Equal);
}

#[test]
fn table_lookup_after_insert() {
    let mut t = FileTable::new();
    assert!(t.get("a").is_none());
    t.insert(file("a", Some(params(64, 256, 1024))));
    assert_eq!(t.get("a"), Some(&file("a", Some(params(64, 256, 1024)))));
    assert_eq!(t.get("a/"), Some(&file("a", Some(params(64, 256, 1024)))));
    assert!(t.get("b").is_none());
}

#[test]
fn table_later_file_wins_first_text_stays() {
    let mut t = FileTable::new();
    t.insert(file("d//e", None));
    t.insert(file("c", None));
    t.insert(file("d/e", Some(params(64, 256, 1024))));
    let out = t.into_sorted();
    assert_eq!(out.len(), 2);
    assert_eq!(out[0], ("c".to_string(), file("c", None)));
    assert_eq!(out[1], ("d//e".to_string(), file("d/e", Some(params(64, 256, 1024)))));
}

#[test]
fn table_walks_in_path_order() {
    let mut t = FileTable::new();
    for p in ["z", "a-b", "a/b", "a", "m/n/o", "m/n"] {
        t.insert(file(p, None));
    }
    let names: Vec<String> = t.into_sorted().into_iter().map(|(n, _)| n).collect();
    assert_eq!(names, vec!["a", "a/b", "a-b", "m/n", "m/n/o", "z"]);
}

#[test]
fn collector_gathers_until_done() {
    let mut c = Collector::new();
    assert_eq!(c.accept(info(InfoOneOfKind::Meta(Meta { volume: "vol".to_string() }))), Ok(Progress::Continue));
    assert_eq!(c.volume(), Some(&"vol".to_string()));
    assert_eq!(c.accept(info(InfoOneOfKind::File(file("b", None)))), Ok(Progress::Continue));
    assert_eq!(c.accept(info(InfoOneOfKind::File(file("a", None)))), Ok(Progress::Continue));
    assert_eq!(c.file("b"), Some(&file("b", None)));
    assert_eq!(c.accept(info(InfoOneOfKind::Done(false))), Ok(Progress::Complete));
    let out = c.finish().unwrap();
    assert_eq!(out, vec![("a".to_string(), file("a", None)), ("b".to_string(), file("b", None))]);
}

#[test]
fn collector_refuses_empty_message() {
    let mut c = Collector::new();
    assert_eq!(c.accept(Info { Kind: None }), Err(SyncError::UnexpectedMessage));
    assert!(c.volume().is_none());
}

#[test]
fn collector_dropped_without_done() {
    let mut c = Collector::new();
    assert_eq!(c.accept(info(InfoOneOfKind::File(file("a", None)))), Ok(Progress::Continue));
    assert_eq!(c.finish(), Err(SyncError::Dropped));
}

#[test]
fn missing_params_refused() {
    assert_eq!(file_params(&file("a", None)), Err(SyncError::MissingParams));
    assert_eq!(file_params(&file("a", Some(params(1, 2, 3)))), Ok(params(1, 2, 3)));
}

#[test]
fn missing_file_is_deleted_under_its_path() {
    let r = reply(&"d//e".to_string(), &params(64, 256, 1024), Presence::Missing).unwrap();
    match r {
        Reply::Send(u) => assert_eq!(
            u,
            Update { Kind: Some(UpdateOneOfKind::Delete(Delete { path: "d//e".to_string() })) }
        ),
        Reply::Chunks(_) => panic!("expected an update"),
    }
}

#[test]
fn unreadable_file_fails() {
    assert!(matches!(
        reply(&"a".to_string(), &params(64, 256, 1024), Presence::Unreadable),
        Err(SyncError::Unreadable)
    ));
}

#[test]
fn present_file_is_chunked() {
    let data = vec![0u8; 2048];
    match reply(&"a".to_string(), &params(64, 256, 1024), Presence::Present(&data)).unwrap() {
        Reply::Chunks(c) => {
            assert_eq!(c.len(), 2);
            assert_eq!(c[1], Chunk { hash: 14169102344523991076, start: 1024, len: 1024 });
        }
        Reply::Send(_) => panic!("expected chunks"),
    }
    assert!(matches!(
        reply(&"a".to_string(), &params(1, 256, 1024), Presence::Present(&data)),
        Err(SyncError::ParamsOutOfRange)
    ));
}

#[test]
fn message_defaults() {
    assert_eq!(InfoOneOfKind::default(), InfoOneOfKind::Meta(Meta { volume: String::new() }));
    assert_eq!(UpdateOneOfKind::default(), UpdateOneOfKind::Create(Create { path: String::new() }));
    let _ = CopyMsg { src_path: "a".to_string(), dst_path: "b".to_string() };
    let _ = Data { data: vec![1], pos: 0, len: 1 };
}

fn gather_all(msgs: Vec<Info>) -> Result<Vec<(String, File)>, SyncError> {
    let mut c = Collector::new();
    for m in msgs {
        match c.accept(m)? {
            Progress::Continue => {}
            Progress::Complete => break,
        }
    }
    c.finish()
}

#[test]
fn stream_ends_at_done_whatever_it_carries() {
    let head = vec![info(InfoOneOfKind::File(file("x", None))), info(InfoOneOfKind::File(file("a", None)))];
    let mut first = head.clone();
    first.push(info(InfoOneOfKind::Done(true)));
    let mut second = head.clone();
    second.push(info(InfoOneOfKind::Done(false)));
    second.push(Info { Kind: None });
    second.push(info(InfoOneOfKind::File(file("b", None))));
    assert_eq!(gather_all(first.clone()), gather_all(second));
    assert_eq!(
        gather_all(first),
        Ok(vec![("a".to_string(), file("a", None)), ("x".to_string(), file("x", None))])
    );
}

#[test]
fn stream_ignores_volumes() {
    let plain = vec![info(InfoOneOfKind::File(file("a", None))), info(InfoOneOfKind::Done(true))];
    let with_volumes = vec![
        info(InfoOneOfKind::Meta(Meta { volume: "one".to_string() })),
        info(InfoOneOfKind::File(file("a", None))),
        info(InfoOneOfKind::Meta(Meta { volume: "two".to_string() })),
        info(InfoOneOfKind::Done(true)),
    ];
    assert_eq!(gather_all(plain), gather_all(with_volumes));
}
