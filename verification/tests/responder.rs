use foodpipe::catalog::{batch_full, catalog_path, compress_bytes, compressed_catalog_path,
    CatalogRegistry, PipelineStats};
use foodpipe::server::{plan_response, FileProbe, ServerState};

#[test]
fn content_types_by_extension() {
    let s = ServerState::new(b"static".to_vec());
    assert_eq!(s.get_content_type(b"a/catalog.jsonl.gz"), "application/gzip");
    assert_eq!(s.get_content_type(b"a/catalog.jsonl.br"), "application/x-ndjson");
    assert_eq!(s.get_content_type(b"a/page-0001.json"), "application/json");
    assert_eq!(s.get_content_type(b"archive.gz"), "application/json");
}

#[test]
fn content_encodings_by_extension() {
    let s = ServerState::new(b"static".to_vec());
    assert_eq!(s.get_content_encoding(b"a/catalog.jsonl.gz"), "gzip");
    assert_eq!(s.get_content_encoding(b"a/catalog.jsonl.br"), "br");
    assert_eq!(s.get_content_encoding(b"a/page-0001.json"), "utf-8");
}

#[test]
fn request_paths_resolve_under_the_root() {
    let s = ServerState::new(b"static".to_vec());
    assert_eq!(s.get_file_path(b"/a/b.json"), b"static/a/b.json".to_vec());
    assert_eq!(s.get_file_path(b"//a.json"), b"static/a.json".to_vec());
    assert_eq!(s.get_file_path(b"/../secret"), b"static/404.json".to_vec());
    assert_eq!(s.get_file_path(b"/a/../../secret"), b"static/404.json".to_vec());
    assert_eq!(s.get_file_path(b"/a..b/ok.json"), b"static/a..b/ok.json".to_vec());
}

#[test]
fn bandwidth_ledger_accumulates() {
    let mut s = ServerState::new(b"static".to_vec());
    s.log_bandwidth(b"a.json", 100);
    s.log_bandwidth(b"b.json", 7);
    s.log_bandwidth(b"a.json", 50);
    assert_eq!(s.bandwidth_stats.len(), 2);
    assert_eq!(s.bandwidth_stats[0].0, b"a.json".to_vec());
    assert_eq!(s.bandwidth_stats[0].1, (150, 2));
    assert_eq!(s.bandwidth_stats[1].1, (7, 1));
}

#[test]
fn response_plans_cover_every_case() {
    let s = ServerState::new(b"static".to_vec());
    let r = plan_response(&s, b"OPTIONS", b"/x", FileProbe::Missing);
    assert_eq!(r.status, 200);
    assert!(r.body.is_empty());

    let r = plan_response(&s, b"POST", b"/x", FileProbe::Missing);
    assert_eq!(r.status, 405);

    let r = plan_response(&s, b"GET", b"/", FileProbe::Missing);
    assert_eq!(r.status, 200);
    assert!(!r.body.is_empty());

    let r = plan_response(&s, b"GET", b"/x.json", FileProbe::Missing);
    assert_eq!(r.status, 404);

    let r = plan_response(&s, b"GET", b"/dir", FileProbe::Directory);
    assert_eq!(r.status, 400);

    let r = plan_response(&s, b"GET", b"/x.json", FileProbe::ReadErr);
    assert_eq!(r.status, 500);

    let r = plan_response(&s, b"GET", b"/c/catalog.jsonl.br", FileProbe::Contents(b"data".to_vec()));
    assert_eq!(r.status, 200);
    assert_eq!(r.body, b"data".to_vec());
    assert_eq!(r.content_type, "application/x-ndjson");
    assert_eq!(r.content_encoding, Some("br"));
    assert_eq!(r.log_name, Some(b"static/c/catalog.jsonl.br".to_vec()));
}

#[test]
fn compression_round_trips_through_brotli() {
    let input: Vec<u8> = b"{\"line\":1}\n{\"line\":2}\n".repeat(40);
    let compressed = compress_bytes(&input);
    assert_ne!(compressed, input);
    assert!(compressed.len() < input.len());
    let mut out: Vec<u8> = Vec::new();
    let mut reader = brotli::Decompressor::new(&compressed[..], 4096);
    std::io::Read::read_to_end(&mut reader, &mut out).unwrap();
    assert_eq!(out, input);
}

#[test]
fn catalog_paths_and_registry() {
    assert_eq!(catalog_path(b"de"), b"de/catalog.jsonl".to_vec());
    assert_eq!(compressed_catalog_path(b"de"), b"de/catalog.jsonl.br".to_vec());
    let mut reg = CatalogRegistry::new();
    reg.note_country(b"de");
    reg.note_country(b"fr");
    reg.note_country(b"de");
    assert_eq!(reg.countries, vec![b"de".to_vec(), b"fr".to_vec()]);
}

#[test]
fn pipeline_counters() {
    let mut st = PipelineStats::new();
    st.record_row(true);
    st.record_row(true);
    st.record_row(false);
    assert_eq!(st.processed, 2);
    assert_eq!(st.skipped, 1);
    assert!(batch_full(10, 10));
    assert!(!batch_full(9, 10));
}
