use komga_core::transient_books::{
    MediaStatus, TransientBookAnalysis, TransientBookAnalyzeError, TransientBookAnalyzeStep,
    TransientBookFileMetadata, TransientBookPage, TransientBookPageContent, TransientBookPageError,
    TransientBookPort, TransientBookRecord, TransientBookScanEntry, TransientBookScanError,
    TransientBookSeriesInference, TransientBookService, TransientBooksStore,
    serve_ready_page, sort_records_by_path, transient_book_id, transient_book_id_from,
};

fn clone_result<T: Clone>(result: &Result<T, String>) -> anyhow::Result<T> {
    result.clone().map_err(anyhow::Error::msg)
}

fn page() -> TransientBookPage {
    TransientBookPage {
        number: 1,
        file_name: "page.jpg".to_string(),
        media_type: "image/jpeg".to_string(),
        width: None,
        height: None,
        size_bytes: None,
    }
}

fn analysis(status: MediaStatus) -> TransientBookAnalysis {
    TransientBookAnalysis {
        status,
        media_type: "image/jpeg".to_string(),
        page_count: 1,
        pages: vec![page()],
        files: Vec::new(),
        comment: String::new(),
        number: None,
        series_id: None,
    }
}

fn clone_analysis(a: &TransientBookAnalysis) -> TransientBookAnalysis {
    TransientBookAnalysis {
        status: a.status,
        media_type: a.media_type.clone(),
        page_count: a.page_count,
        pages: a.pages.clone(),
        files: a.files.clone(),
        comment: a.comment.clone(),
        number: a.number,
        series_id: a.series_id.clone(),
    }
}

struct TestTransientBookPort {
    analysis: Result<TransientBookAnalysis, String>,
    scan_entries: Result<Vec<(String, String)>, String>,
    file_metadata: Result<TransientBookFileMetadata, String>,
    exists: Result<bool, String>,
    page_content: Result<Option<(String, Vec<u8>)>, String>,
}

impl Default for TestTransientBookPort {
    fn default() -> Self {
        Self {
            analysis: Ok(analysis(MediaStatus::Ready)),
            scan_entries: Ok(Vec::new()),
            file_metadata: Ok(TransientBookFileMetadata {
                file_last_modified_unix_nanos: 0,
                size_bytes: 1,
            }),
            exists: Ok(true),
            page_content: Ok(Some(("image/jpeg".to_string(), b"page".to_vec()))),
        }
    }
}

impl TransientBookPort for TestTransientBookPort {
    fn analyze_transient_book(&self, _path: &str) -> anyhow::Result<TransientBookAnalysis> {
        match &self.analysis {
            Ok(a) => Ok(clone_analysis(a)),
            Err(e) => Err(anyhow::Error::msg(e.clone())),
        }
    }

    fn list_transient_book_entries(&self, _root: &str) -> anyhow::Result<Vec<TransientBookScanEntry>> {
        clone_result(&self.scan_entries).map(|entries| {
            entries
                .into_iter()
                .map(|(path, name)| TransientBookScanEntry { path, name })
                .collect()
        })
    }

    fn load_transient_book_file_metadata(&self, _path: &str) -> anyhow::Result<TransientBookFileMetadata> {
        clone_result(&self.file_metadata)
    }

    fn transient_book_exists(&self, _path: &str) -> anyhow::Result<bool> {
        clone_result(&self.exists)
    }

    fn transient_book_page_content(
        &self,
        _path: &str,
        _media_type: &str,
        _pages: &[TransientBookPage],
        _page_number: u32,
    ) -> anyhow::Result<Option<TransientBookPageContent>> {
        clone_result(&self.page_content).map(|content| {
            content.map(|(content_type, bytes)| TransientBookPageContent { content_type, bytes })
        })
    }
}

fn unknown_record(id: &str) -> TransientBookRecord {
    TransientBookRecord {
        id: id.to_string(),
        name: "Book".to_string(),
        path: "/tmp/book.cbz".to_string(),
        file_last_modified_unix_nanos: 0,
        size_bytes: 1,
        status: MediaStatus::Unknown,
        media_type: String::new(),
        page_count: 0,
        pages: Vec::new(),
        files: Vec::new(),
        comment: String::new(),
        number: None,
        series_id: None,
    }
}

fn ready_record(id: &str) -> TransientBookRecord {
    TransientBookRecord {
        status: MediaStatus::Ready,
        media_type: "image/jpeg".to_string(),
        page_count: 1,
        pages: vec![page()],
        ..unknown_record(id)
    }
}

fn service_with(
    port: TestTransientBookPort,
    record: TransientBookRecord,
) -> TransientBookService<TestTransientBookPort> {
    TransientBookService::with_store(
        port,
        TransientBooksStore::with_records(vec![(record.id.clone(), record)]),
    )
}

#[test]
fn transient_book_id_uses_kotlin_compatible_tsid_shape() {
    let id = transient_book_id();

    assert_eq!(id.len(), 13);
    assert!(matches!(id.chars().next(), Some('0'..='9' | 'A'..='F')));
    assert!(
        id.chars()
            .all(|ch| "0123456789ABCDEFGHJKMNPQRSTVWXYZ".contains(ch))
    );
}

#[test]
fn transient_book_id_from_encodes_the_tsid_number() {
    assert_eq!(transient_book_id_from(496830748901259230), "0DS8RXW6W0DYY");
    assert_eq!(transient_book_id_from(0), "0000000000000");
    assert_eq!(transient_book_id_from(u64::MAX), "FZZZZZZZZZZZZ");
}

#[test]
fn page_content_accepts_typed_ready_status() {
    let mut service = service_with(
        TestTransientBookPort::default(),
        TransientBookRecord {
            media_type: "application/zip".to_string(),
            ..ready_record("book-a")
        },
    );

    let content = service
        .page_content("book-a", 1)
        .expect("typed ready status should allow page delivery");

    assert_eq!(content.content_type, "image/jpeg");
    assert_eq!(content.bytes, b"page".to_vec());
}

#[test]
fn page_content_returns_internal_when_existence_check_fails() {
    let mut service = service_with(
        TestTransientBookPort {
            exists: Err("check transient book existence failed".to_string()),
            ..TestTransientBookPort::default()
        },
        ready_record("book-a"),
    );

    let result = service.page_content("book-a", 1);

    assert_eq!(result, Err(TransientBookPageError::Internal));
}

#[test]
fn page_content_returns_internal_when_page_loader_fails() {
    let mut service = service_with(
        TestTransientBookPort {
            page_content: Err("read transient page failed".to_string()),
            ..TestTransientBookPort::default()
        },
        ready_record("book-a"),
    );

    let result = service.page_content("book-a", 1);

    assert_eq!(result, Err(TransientBookPageError::Internal));
}

#[test]
fn page_content_refuses_bad_requests_in_order() {
    let mut service = service_with(TestTransientBookPort::default(), ready_record("book-a"));
    assert_eq!(service.page_content("book-a", 0), Err(TransientBookPageError::BadPageNumber));
    assert_eq!(service.page_content("missing", 1), Err(TransientBookPageError::NotFound));

    let mut unready = service_with(TestTransientBookPort::default(), unknown_record("book-b"));
    assert_eq!(unready.page_content("book-b", 1), Err(TransientBookPageError::AnalysisFailed));

    let mut missing_file = service_with(
        TestTransientBookPort { exists: Ok(false), ..TestTransientBookPort::default() },
        ready_record("book-c"),
    );
    assert_eq!(missing_file.page_content("book-c", 1), Err(TransientBookPageError::FileMissing));

    let mut no_page = service_with(
        TestTransientBookPort { page_content: Ok(None), ..TestTransientBookPort::default() },
        ready_record("book-d"),
    );
    assert_eq!(no_page.page_content("book-d", 7), Err(TransientBookPageError::BadPageNumber));
}

#[test]
fn page_content_of_an_epub_without_pages() {
    let epub = TransientBookRecord {
        media_type: "application/epub+zip".to_string(),
        page_count: 3,
        pages: Vec::new(),
        ..ready_record("book-e")
    };
    let mut service = service_with(TestTransientBookPort::default(), epub);
    assert_eq!(service.page_content("book-e", 4), Err(TransientBookPageError::BadPageNumber));
    assert_eq!(service.page_content("book-e", 2), Err(TransientBookPageError::Internal));
}

#[test]
fn scan_returns_internal_when_listing_entries_fails() {
    let mut service = TransientBookService::new(TestTransientBookPort {
        scan_entries: Err("read transient directory failed".to_string()),
        ..TestTransientBookPort::default()
    });

    let result = service.scan("/tmp/transient-books", Ok(()));

    assert_eq!(result, Err(TransientBookScanError::Internal));
}

#[test]
fn scan_returns_internal_when_file_metadata_fails() {
    let mut service = TransientBookService::new(TestTransientBookPort {
        scan_entries: Ok(vec![("/tmp/transient-books/book.cbz".to_string(), "book".to_string())]),
        file_metadata: Err("read transient book metadata failed".to_string()),
        ..TestTransientBookPort::default()
    });

    let result = service.scan("/tmp/transient-books", Ok(()));

    assert_eq!(result, Err(TransientBookScanError::Internal));
}

#[test]
fn scan_maps_validation_errors() {
    let mut service = TransientBookService::new(TestTransientBookPort::default());
    assert_eq!(
        service.scan("/x", Err("ERR_1016".to_string())),
        Err(TransientBookScanError::BadRequest("ERR_1016".to_string()))
    );
    assert_eq!(
        service.scan("/x", Err("ERR_1017".to_string())),
        Err(TransientBookScanError::BadRequest("ERR_1017".to_string()))
    );
    assert_eq!(
        service.scan("/x", Err("permission denied".to_string())),
        Err(TransientBookScanError::Internal)
    );
}

#[test]
fn scan_sorts_records_by_path_and_stores_them() {
    let mut service = TransientBookService::new(TestTransientBookPort {
        scan_entries: Ok(vec![
            ("/b/two.cbz".to_string(), "two".to_string()),
            ("/a/one.cbz".to_string(), "one".to_string()),
        ]),
        ..TestTransientBookPort::default()
    });
    let records = service.scan("/", Ok(())).expect("the scan succeeds");
    assert_eq!(records.len(), 2);
    assert_eq!(records[0].path, "/a/one.cbz");
    assert_eq!(records[1].path, "/b/two.cbz");
    assert_eq!(records[0].status, MediaStatus::Unknown);
    assert_eq!(records[0].id.len(), 13);
    let id = records[1].id.clone();
    assert_eq!(service.file_last_modified_nanos(&id), Some(0));
}

fn analyze(
    service: &mut TransientBookService<TestTransientBookPort>,
    id: &str,
    inference: Option<TransientBookSeriesInference>,
) -> Result<TransientBookRecord, TransientBookAnalyzeError> {
    match service.analyze_start(id) {
        TransientBookAnalyzeStep::InferSeries { analysis, .. } => {
            service.analyze_finish(id, analysis, inference)
        }
        TransientBookAnalyzeStep::Done(result) => result,
    }
}

#[test]
fn analyze_returns_internal_when_series_inference_fails() {
    let mut service = service_with(TestTransientBookPort::default(), unknown_record("book-a"));

    let result = analyze(&mut service, "book-a", None);

    assert_eq!(result, Err(TransientBookAnalyzeError::Internal));
}

#[test]
fn analyze_returns_internal_when_media_analysis_fails() {
    let mut service = service_with(
        TestTransientBookPort {
            analysis: Err("check transient book existence failed".to_string()),
            ..TestTransientBookPort::default()
        },
        unknown_record("book-a"),
    );

    let result = analyze(&mut service, "book-a", None);

    assert_eq!(result, Err(TransientBookAnalyzeError::Internal));
}

#[test]
fn analyze_keeps_failed_media_analysis_without_series_inference() {
    let mut service = service_with(
        TestTransientBookPort {
            analysis: Ok(TransientBookAnalysis {
                status: MediaStatus::Error,
                media_type: "application/zip".to_string(),
                page_count: 0,
                pages: Vec::new(),
                files: Vec::new(),
                comment: "ERR_1006".to_string(),
                number: None,
                series_id: None,
            }),
            ..TestTransientBookPort::default()
        },
        unknown_record("book-a"),
    );

    let record = analyze(&mut service, "book-a", None)
        .expect("failed media analysis should be returned as an analysis result");

    assert_eq!(record.status, MediaStatus::Error);
    assert_eq!(record.comment, "ERR_1006");
    assert_eq!(record.series_id, None);
    assert_eq!(record.number, None);
}

#[test]
fn analyze_records_the_inferred_series() {
    let mut service = service_with(TestTransientBookPort::default(), unknown_record("book-a"));
    let record = analyze(
        &mut service,
        "book-a",
        Some(TransientBookSeriesInference {
            series_id: Some("series-1".to_string()),
            number: Some(2.5f64.to_bits()),
        }),
    )
    .expect("the analysis succeeds");
    assert_eq!(record.status, MediaStatus::Ready);
    assert_eq!(record.series_id.as_deref(), Some("series-1"));
    assert_eq!(record.number, Some(2.5f64.to_bits()));
    assert_eq!(record.pages.len(), 1);
    assert_eq!(analyze(&mut service, "missing", None), Err(TransientBookAnalyzeError::NotFound));
}

#[test]
fn store_forgets_books_an_hour_after_their_last_access() {
    let mut store = TransientBooksStore::with_records_at(
        vec![("a".to_string(), unknown_record("a")), ("b".to_string(), unknown_record("b"))],
        1_000,
    );
    assert!(store.touch_at("a", 3_000));
    assert!(!store.touch_at("zzz", 3_000));
    assert!(store.get_cloned_at("b", 4_599).is_some());
    assert!(store.get_cloned_at("a", 6_599).is_some());
    assert!(store.get_cloned_at("b", 8_199).is_none());
    assert!(store.get_cloned_at("a", 10_199).is_none());
}

#[test]
fn store_insert_replaces_a_record_under_the_same_id() {
    let mut store = TransientBooksStore::new();
    store.insert_at(unknown_record("a"), 10);
    store.insert_at(ready_record("a"), 20);
    let record = store.get_cloned_at("a", 30).expect("the book is kept");
    assert_eq!(record.status, MediaStatus::Ready);
    store.prune_expired_at(3_629);
    assert!(store.get_cloned_at("a", 3_629).is_some());
    store.prune_expired_at(7_229);
    assert!(store.get_cloned_at("a", 7_229).is_none());
}

#[test]
fn store_applies_an_analysis() {
    let mut store = TransientBooksStore::new();
    store.insert_at(unknown_record("a"), 10);
    let updated = store
        .apply_analysis_at(
            "a",
            analysis(MediaStatus::Ready),
            TransientBookSeriesInference { series_id: None, number: Some(7) },
            20,
        )
        .expect("the book is kept");
    assert_eq!(updated.status, MediaStatus::Ready);
    assert_eq!(updated.number, Some(7));
    assert_eq!(store.get_cloned_at("a", 30).map(|r| r.page_count), Some(1));
}

#[test]
fn sort_records_orders_by_path() {
    let mut a = unknown_record("1");
    a.path = "/z".to_string();
    let mut b = unknown_record("2");
    b.path = "/a".to_string();
    let mut c = unknown_record("3");
    c.path = "/m".to_string();
    let sorted = sort_records_by_path(vec![a, b, c]);
    let paths: Vec<&str> = sorted.iter().map(|r| r.path.as_str()).collect();
    assert_eq!(paths, vec!["/a", "/m", "/z"]);
}

#[test]
fn store_get_mut_edits_in_place() {
    let mut store = TransientBooksStore::new();
    store.insert_at(unknown_record("a"), 10);
    if let Some(record) = store.get_mut_at("a", 20) {
        record.comment = "edited".to_string();
    }
    assert!(store.get_mut_at("b", 20).is_none());
    assert_eq!(store.get_cloned_at("a", 30).map(|r| r.comment), Some("edited".to_string()));
    assert!(store.get_mut("zzz").is_none());
}

#[test]
fn page_record_then_serving_outside_the_service() {
    let mut service = service_with(
        TestTransientBookPort::default(),
        TransientBookRecord { media_type: "application/zip".to_string(), ..ready_record("book-a") },
    );
    assert_eq!(service.page_record("book-a", 0).err(), Some(TransientBookPageError::BadPageNumber));
    assert_eq!(service.page_record("missing", 1).err(), Some(TransientBookPageError::NotFound));
    let (record, page) = service.page_record("book-a", 1).expect("a ready book");
    assert_eq!(record.id, "book-a");
    assert_eq!(page, 1);
    let content = serve_ready_page(&TestTransientBookPort::default(), &record, page).expect("the page");
    assert_eq!(content.bytes, b"page".to_vec());
    let missing = TestTransientBookPort { exists: Ok(false), ..TestTransientBookPort::default() };
    assert_eq!(serve_ready_page(&missing, &record, page), Err(TransientBookPageError::FileMissing));
}
