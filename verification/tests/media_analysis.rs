use komga_core::media_analysis::{
    AnalyzedBookMedia, AnalyzedBookMediaFile, AnalyzedBookPage, BookAnalysisInput,
    BookAnalysisPurpose, BookAnalysisRow, EPUB_EXTENSION_CLASS, ExtensionUpdate,
    MetadataSourceRequest, clamp_to_i32, clamp_to_i64, media_file_rows, media_page_batches,
    metadata_source_request, metadata_sources_for, plan_book_analysis_writes,
};
use komga_core::media_analysis::{
    AnalyzeBookAction, AnalyzeBookEvent, AnalyzeBookResult, AnalyzeBookState, analyze_book_step,
};
use komga_core::runtime_events::RuntimeSseEvent;
use komga_core::transient_books::MediaStatus;

fn pages(n: usize) -> Vec<AnalyzedBookPage> {
    (0..n)
        .map(|i| AnalyzedBookPage {
            file_name: format!("p{i}.jpg"),
            media_type: "image/jpeg".to_string(),
            width: Some(10),
            height: None,
            file_size: i as i64,
            file_hash: if i % 2 == 0 { Some(format!("h{i}")) } else { None },
        })
        .collect()
}

#[test]
fn page_rows_come_in_batches_of_2000() {
    let batches = media_page_batches("book-1", &pages(4_500));
    let sizes: Vec<usize> = batches.iter().map(|b| b.len()).collect();
    assert_eq!(sizes, vec![2000, 2000, 500]);
    let row = &batches[1][3];
    assert_eq!(row.number, 2003);
    assert_eq!(row.file_name, "p2003.jpg");
    assert_eq!(row.book_id, "book-1");
    assert_eq!(row.file_hash, "");
    assert_eq!(batches[2][0].file_hash, "h4000");
    assert!(media_page_batches("book-1", &pages(0)).is_empty());
    assert_eq!(media_page_batches("book-1", &pages(2000)).len(), 1);
}

#[test]
fn file_rows_keep_their_order() {
    let files = vec![
        AnalyzedBookMediaFile {
            file_name: "a.xhtml".to_string(),
            media_type: Some("application/xhtml+xml".to_string()),
            sub_type: None,
            file_size: Some(3),
        },
        AnalyzedBookMediaFile {
            file_name: "b.css".to_string(),
            media_type: None,
            sub_type: Some("css".to_string()),
            file_size: None,
        },
    ];
    let rows = media_file_rows("book-1", &files);
    assert_eq!(rows.len(), 2);
    assert_eq!(rows[0].file_name, "a.xhtml");
    assert_eq!(rows[1].sub_type.as_deref(), Some("css"));
    assert_eq!(rows[1].book_id, "book-1");
}

fn analysis(blob: Option<Vec<u8>>) -> AnalyzedBookMedia {
    AnalyzedBookMedia {
        status: MediaStatus::Ready,
        media_type: "application/epub+zip".to_string(),
        comment: None,
        page_count: u64::MAX,
        epub_divina_compatible: true,
        epub_is_kepub: false,
        pages: pages(3),
        media_files: Vec::new(),
        epub_extension_blob: blob,
    }
}

#[test]
fn analysis_writes_cap_the_page_count_and_store_the_extension() {
    let writes = plan_book_analysis_writes("book-1", &analysis(Some(vec![1, 2, 3])));
    assert_eq!(writes.media.status, "READY");
    assert_eq!(writes.media.page_count, i32::MAX);
    assert!(writes.media.epub_divina_compatible);
    assert_eq!(writes.page_batches.len(), 1);
    match writes.extension {
        ExtensionUpdate::Store { class, blob } => {
            assert_eq!(class, EPUB_EXTENSION_CLASS);
            assert_eq!(blob, vec![1, 2, 3]);
        }
        ExtensionUpdate::Clear => panic!("the blob is stored"),
    }
    let cleared = plan_book_analysis_writes("book-1", &analysis(None));
    assert!(matches!(cleared.extension, ExtensionUpdate::Clear));
}

#[test]
fn media_status_names_round_trip() {
    for status in [
        MediaStatus::Unknown,
        MediaStatus::Error,
        MediaStatus::Ready,
        MediaStatus::Unsupported,
        MediaStatus::Outdated,
    ] {
        assert_eq!(MediaStatus::parse(status.persisted_name()), Some(status));
    }
    assert_eq!(MediaStatus::parse(""), None);
    assert_eq!(MediaStatus::parse("ready"), None);
}

#[test]
fn clamps() {
    assert_eq!(clamp_to_i64(5), 5);
    assert_eq!(clamp_to_i64(u64::MAX), i64::MAX);
    assert_eq!(clamp_to_i32(1 << 40), i32::MAX);
    assert_eq!(clamp_to_i32(12), 12);
}

#[test]
fn metadata_sources_follow_purpose_and_imports() {
    let requested = metadata_source_request(false, true, false, false, false, false);
    assert_eq!(requested, MetadataSourceRequest { comicinfo: true, epub: false });
    assert_eq!(
        metadata_sources_for(BookAnalysisPurpose::AnalysisOnly, requested),
        MetadataSourceRequest { comicinfo: false, epub: false }
    );
    assert_eq!(metadata_sources_for(BookAnalysisPurpose::AnalysisAndMetadata, requested), requested);
}

#[test]
fn analysis_input_reads_its_row() {
    let input = BookAnalysisInput::from_row(BookAnalysisRow {
        url: "file:/lib/a.cbz".to_string(),
        root: "/lib".to_string(),
        series_id: "s".to_string(),
        library_id: "l".to_string(),
        analyze_dimensions: true,
        hash_pages: false,
        import_comicinfo_book: false,
        import_comicinfo_readlist: false,
        import_comicinfo_series: false,
        import_comicinfo_collection: false,
        import_epub_book: false,
        import_epub_series: true,
        previous_media_status: "OUTDATED".to_string(),
        previous_page_count: 12,
    });
    assert_eq!(input.previous_media_status, Some(MediaStatus::Outdated));
    assert_eq!(input.metadata_sources, MetadataSourceRequest { comicinfo: false, epub: true });
    assert_eq!(input.previous_page_count, 12);
    assert!(input.analyze_dimensions);
}

fn step_input() -> BookAnalysisInput {
    BookAnalysisInput {
        url: "file:/lib/a.cbz".to_string(),
        root: "/lib".to_string(),
        analyze_dimensions: true,
        hash_pages: false,
        series_id: "series-1".to_string(),
        library_id: "library-1".to_string(),
        previous_media_status: Some(MediaStatus::Outdated),
        previous_page_count: 3,
        metadata_sources: MetadataSourceRequest { comicinfo: true, epub: false },
    }
}

fn step_media() -> AnalyzedBookMedia {
    AnalyzedBookMedia {
        status: MediaStatus::Ready,
        media_type: "application/zip".to_string(),
        comment: None,
        page_count: 5,
        epub_divina_compatible: false,
        epub_is_kepub: false,
        pages: pages(5),
        media_files: Vec::new(),
        epub_extension_blob: None,
    }
}

fn start(purpose: BookAnalysisPurpose) -> AnalyzeBookState {
    AnalyzeBookState::Start { book_id: "book-1".to_string(), purpose }
}

fn done(action: AnalyzeBookAction) -> Result<AnalyzeBookResult, String> {
    match action {
        AnalyzeBookAction::Done(r) => r.map_err(|e| e.message),
        _ => panic!("expected the analysis to end"),
    }
}

#[test]
fn analysis_step_without_main_database_ends_empty() {
    let (state, action) = analyze_book_step(start(BookAnalysisPurpose::AnalysisOnly), AnalyzeBookEvent::Begin {
        owns_main_database: false,
    });
    assert!(matches!(state, AnalyzeBookState::Finished));
    assert_eq!(done(action), Ok(AnalyzeBookResult { series_id: String::new(), media_status: None }));
}

#[test]
fn analysis_step_without_book_ends_empty() {
    let (state, action) = analyze_book_step(start(BookAnalysisPurpose::AnalysisOnly), AnalyzeBookEvent::Begin {
        owns_main_database: true,
    });
    match action {
        AnalyzeBookAction::ReadInput { book_id } => assert_eq!(book_id, "book-1"),
        _ => panic!("expected the input to be read"),
    }
    let (state, action) = analyze_book_step(state, AnalyzeBookEvent::InputRead(Ok(None)));
    assert!(matches!(state, AnalyzeBookState::Finished));
    assert_eq!(done(action), Ok(AnalyzeBookResult { series_id: String::new(), media_status: None }));
}

#[test]
fn analysis_steps_run_through_to_the_announcement() {
    let (state, _) = analyze_book_step(start(BookAnalysisPurpose::AnalysisOnly), AnalyzeBookEvent::Begin {
        owns_main_database: true,
    });
    let (state, action) = analyze_book_step(state, AnalyzeBookEvent::InputRead(Ok(Some(step_input()))));
    match action {
        AnalyzeBookAction::Analyze { root, url, analyze_dimensions, hash_pages, sources } => {
            assert_eq!(root, "/lib");
            assert_eq!(url, "file:/lib/a.cbz");
            assert!(analyze_dimensions);
            assert!(!hash_pages);
            assert_eq!(sources, MetadataSourceRequest { comicinfo: false, epub: false });
        }
        _ => panic!("expected the file to be analysed"),
    }
    let (state, action) = analyze_book_step(state, AnalyzeBookEvent::Analyzed(Ok(step_media())));
    match action {
        AnalyzeBookAction::Persist(writes) => {
            assert_eq!(writes.media.book_id, "book-1");
            assert_eq!(writes.media.status, "READY");
            assert_eq!(writes.media.page_count, 5);
            assert_eq!(writes.page_batches.len(), 1);
            assert_eq!(writes.page_batches[0].len(), 5);
        }
        _ => panic!("expected the writes"),
    }
    let (state, action) = analyze_book_step(state, AnalyzeBookEvent::Persisted(Ok(())));
    match action {
        AnalyzeBookAction::AdjustProgress {
            book_id,
            series_id,
            previous_media_status,
            previous_page_count,
            current_page_count,
        } => {
            assert_eq!(book_id, "book-1");
            assert_eq!(series_id, "series-1");
            assert_eq!(previous_media_status, Some(MediaStatus::Outdated));
            assert_eq!(previous_page_count, 3);
            assert_eq!(current_page_count, 5);
        }
        _ => panic!("expected the progress adjustment"),
    }
    let (state, action) = analyze_book_step(state, AnalyzeBookEvent::Adjusted(Ok(())));
    match action {
        AnalyzeBookAction::Announce(event) => assert_eq!(
            event,
            RuntimeSseEvent::BookChanged {
                book_id: "book-1".to_string(),
                series_id: "series-1".to_string(),
                library_id: "library-1".to_string(),
            }
        ),
        _ => panic!("expected the announcement"),
    }
    let (state, action) = analyze_book_step(state, AnalyzeBookEvent::Announced);
    assert!(matches!(state, AnalyzeBookState::Finished));
    assert_eq!(
        done(action),
        Ok(AnalyzeBookResult { series_id: "series-1".to_string(), media_status: Some(MediaStatus::Ready) })
    );
}

#[test]
fn analysis_step_for_metadata_asks_for_the_library_sources() {
    let (state, _) = analyze_book_step(start(BookAnalysisPurpose::AnalysisAndMetadata), AnalyzeBookEvent::Begin {
        owns_main_database: true,
    });
    let (_, action) = analyze_book_step(state, AnalyzeBookEvent::InputRead(Ok(Some(step_input()))));
    match action {
        AnalyzeBookAction::Analyze { sources, .. } => {
            assert_eq!(sources, MetadataSourceRequest { comicinfo: true, epub: false })
        }
        _ => panic!("expected the file to be analysed"),
    }
}

#[test]
fn analysis_step_failures_end_the_analysis() {
    let (state, _) = analyze_book_step(start(BookAnalysisPurpose::AnalysisOnly), AnalyzeBookEvent::Begin {
        owns_main_database: true,
    });
    let (failed, action) = analyze_book_step(state, AnalyzeBookEvent::InputRead(Err("db down".to_string())));
    assert!(matches!(failed, AnalyzeBookState::Finished));
    assert_eq!(done(action), Err("db down".to_string()));

    let analyzing = AnalyzeBookState::Analyzing { book_id: "book-1".to_string(), input: step_input() };
    let (failed, action) = analyze_book_step(
        analyzing,
        AnalyzeBookEvent::Analyzed(Err(("/lib/a.cbz".to_string(), "broken zip".to_string()))),
    );
    assert!(matches!(failed, AnalyzeBookState::Finished));
    assert_eq!(
        done(action),
        Err("failed to analyze media file for 'book-1' ('/lib/a.cbz'): broken zip".to_string())
    );

    let persisting = AnalyzeBookState::Persisting {
        book_id: "book-1".to_string(),
        input: step_input(),
        status: MediaStatus::Ready,
        page_count: 5,
    };
    let (_, action) = analyze_book_step(persisting, AnalyzeBookEvent::Persisted(Err("locked".to_string())));
    assert_eq!(done(action), Err("locked".to_string()));

    let adjusting =
        AnalyzeBookState::Adjusting { book_id: "book-1".to_string(), input: step_input(), status: MediaStatus::Ready };
    let (_, action) = analyze_book_step(adjusting, AnalyzeBookEvent::Adjusted(Err("gone".to_string())));
    assert_eq!(done(action), Err("gone".to_string()));
}

#[test]
fn analysis_state_accepts_only_its_event() {
    let state = start(BookAnalysisPurpose::AnalysisOnly);
    assert!(state.accepts(&AnalyzeBookEvent::Begin { owns_main_database: true }));
    assert!(!state.accepts(&AnalyzeBookEvent::Announced));
    assert!(!AnalyzeBookState::Finished.accepts(&AnalyzeBookEvent::Announced));
}
