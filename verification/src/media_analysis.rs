//! Book media analysis: what an analysis asks for, and the rows that persisting its
//! result writes.
use vstd::prelude::*;

use crate::runtime_events::RuntimeSseEvent;
use crate::task_queue::{opt_text_view, TaskProcessingError};
use crate::text::{clone_opt_string, text_eq};
use crate::transient_books::MediaStatus;
use vstd::string::StringExecFns;

verus! {

/// What a book's analysis is for.
#[derive(Debug, Clone, Copy, PartialEq, Eq, Structural)]
pub enum BookAnalysisPurpose {
    AnalysisOnly,
    AnalysisAndMetadata,
}

/// Which embedded metadata an analysis captures.
#[derive(Debug, Clone, Copy, PartialEq, Eq, Structural)]
pub struct MetadataSourceRequest {
    pub comicinfo: bool,
    pub epub: bool,
}

/// The metadata sources that a library's import settings ask for: ComicInfo when any of
/// its four ComicInfo imports is on, EPUB when either EPUB import is on.
pub fn metadata_source_request(
    import_comicinfo_book: bool,
    import_comicinfo_readlist: bool,
    import_comicinfo_series: bool,
    import_comicinfo_collection: bool,
    import_epub_book: bool,
    import_epub_series: bool,
) -> (r: MetadataSourceRequest)
    ensures
        r.comicinfo == (import_comicinfo_book || import_comicinfo_readlist || import_comicinfo_series
            || import_comicinfo_collection),
        r.epub == (import_epub_book || import_epub_series),
{
    MetadataSourceRequest {
        comicinfo: import_comicinfo_book || import_comicinfo_readlist || import_comicinfo_series
            || import_comicinfo_collection,
        epub: import_epub_book || import_epub_series,
    }
}

/// The metadata sources an analysis captures: none when it is for the media alone.
pub fn metadata_sources_for(purpose: BookAnalysisPurpose, requested: MetadataSourceRequest) -> (r:
    MetadataSourceRequest)
    ensures
        r == (match purpose {
            BookAnalysisPurpose::AnalysisOnly => MetadataSourceRequest { comicinfo: false, epub: false },
            BookAnalysisPurpose::AnalysisAndMetadata => requested,
        }),
{
    match purpose {
        BookAnalysisPurpose::AnalysisOnly => MetadataSourceRequest { comicinfo: false, epub: false },
        BookAnalysisPurpose::AnalysisAndMetadata => requested,
    }
}

/// The name under which the database stores a media status.
pub open spec fn spec_status_name(s: MediaStatus) -> Seq<char> {
    match s {
        MediaStatus::Unknown => "UNKNOWN"@,
        MediaStatus::Error => "ERROR"@,
        MediaStatus::Ready => "READY"@,
        MediaStatus::Unsupported => "UNSUPPORTED"@,
        MediaStatus::Outdated => "OUTDATED"@,
    }
}

/// The media status that the database stores under `name`, if any.
pub open spec fn spec_parse_status(name: Seq<char>) -> Option<MediaStatus> {
    if name == "UNKNOWN"@ {
        Some(MediaStatus::Unknown)
    } else if name == "ERROR"@ {
        Some(MediaStatus::Error)
    } else if name == "READY"@ {
        Some(MediaStatus::Ready)
    } else if name == "UNSUPPORTED"@ {
        Some(MediaStatus::Unsupported)
    } else if name == "OUTDATED"@ {
        Some(MediaStatus::Outdated)
    } else {
        None
    }
}

impl MediaStatus {
    /// The name under which the database stores the status.
    pub fn persisted_name(&self) -> (r: &'static str)
        ensures
            r@ == spec_status_name(*self),
    {
        match self {
            MediaStatus::Unknown => "UNKNOWN",
            MediaStatus::Error => "ERROR",
            MediaStatus::Ready => "READY",
            MediaStatus::Unsupported => "UNSUPPORTED",
            MediaStatus::Outdated => "OUTDATED",
        }
    }

    /// The status that the database stores under `name`; none for any other text.
    pub fn parse(name: &str) -> (r: Option<MediaStatus>)
        ensures
            r == spec_parse_status(name@),
    {
        if text_eq(name, "UNKNOWN") {
            Some(MediaStatus::Unknown)
        } else if text_eq(name, "ERROR") {
            Some(MediaStatus::Error)
        } else if text_eq(name, "READY") {
            Some(MediaStatus::Ready)
        } else if text_eq(name, "UNSUPPORTED") {
            Some(MediaStatus::Unsupported)
        } else if text_eq(name, "OUTDATED") {
            Some(MediaStatus::Outdated)
        } else {
            None
        }
    }
}

/// Reading back the stored name of a status gives the status.
pub proof fn lemma_parse_status_name(s: MediaStatus)
    ensures
        spec_parse_status(spec_status_name(s)) == Some(s),
{
    reveal_strlit("UNKNOWN");
    reveal_strlit("ERROR");
    reveal_strlit("READY");
    reveal_strlit("UNSUPPORTED");
    reveal_strlit("OUTDATED");
    assert("ERROR"@.len() != "UNKNOWN"@.len());
    assert("READY"@.len() != "UNKNOWN"@.len() && "READY"@[0] != "ERROR"@[0]);
    assert("UNSUPPORTED"@.len() != "UNKNOWN"@.len() && "UNSUPPORTED"@.len() != "ERROR"@.len());
    assert("OUTDATED"@.len() != "UNKNOWN"@.len() && "OUTDATED"@.len() != "ERROR"@.len());
    assert("OUTDATED"@.len() != "UNSUPPORTED"@.len());
}

/// `n`, or `i64::MAX` where it is larger.
pub fn clamp_to_i64(n: u64) -> (r: i64)
    ensures
        r == if n > i64::MAX as u64 { i64::MAX as int } else { n as int },
{
    if n > i64::MAX as u64 {
        i64::MAX
    } else {
        n as i64
    }
}

/// `n`, or `i32::MAX` where it is larger.
pub fn clamp_to_i32(n: u64) -> (r: i32)
    ensures
        r == if n > i32::MAX as u64 { i32::MAX as int } else { n as int },
{
    if n > i32::MAX as u64 {
        i32::MAX
    } else {
        n as i32
    }
}

/// A page that an analysis found.
pub struct AnalyzedBookPage {
    pub file_name: String,
    pub media_type: String,
    pub width: Option<i64>,
    pub height: Option<i64>,
    pub file_size: i64,
    pub file_hash: Option<String>,
}

/// A file of a book that an analysis found besides its pages.
pub struct AnalyzedBookMediaFile {
    pub file_name: String,
    pub media_type: Option<String>,
    pub sub_type: Option<String>,
    pub file_size: Option<i64>,
}

/// The result of a book's analysis, as it is persisted.
pub struct AnalyzedBookMedia {
    pub status: MediaStatus,
    pub media_type: String,
    pub comment: Option<String>,
    pub page_count: u64,
    pub epub_divina_compatible: bool,
    pub epub_is_kepub: bool,
    pub pages: Vec<AnalyzedBookPage>,
    pub media_files: Vec<AnalyzedBookMediaFile>,
    pub epub_extension_blob: Option<Vec<u8>>,
}

/// A row of the `MEDIA_PAGE` table.
pub struct MediaPageRow {
    pub file_name: String,
    pub media_type: String,
    pub number: i64,
    pub book_id: String,
    pub width: Option<i64>,
    pub height: Option<i64>,
    pub file_hash: String,
    pub file_size: i64,
}

/// The most pages that one statement inserts.
pub const MEDIA_PAGE_INSERT_BATCH: usize = 2000;

/// Whether `row` is the `MEDIA_PAGE` row of `page`, numbered `number`, of the book
/// `book_id`: a page without a hash is stored with an empty one.
pub open spec fn page_row_fits(
    row: MediaPageRow,
    book_id: Seq<char>,
    page: AnalyzedBookPage,
    number: int,
) -> bool {
    &&& row.file_name@ == page.file_name@
    &&& row.media_type@ == page.media_type@
    &&& row.number == number
    &&& row.book_id@ == book_id
    &&& row.width == page.width
    &&& row.height == page.height
    &&& row.file_hash@ == match page.file_hash {
        Some(h) => h@,
        None => Seq::<char>::empty(),
    }
    &&& row.file_size == page.file_size
}

fn page_row(book_id: &str, page: &AnalyzedBookPage, number: i64) -> (r: MediaPageRow)
    ensures
        page_row_fits(r, book_id@, *page, number as int),
{
    MediaPageRow {
        file_name: page.file_name.clone(),
        media_type: page.media_type.clone(),
        number,
        book_id: String::from_str(book_id),
        width: page.width,
        height: page.height,
        file_hash: match &page.file_hash {
            Some(h) => h.clone(),
            None => String::new(),
        },
        file_size: page.file_size,
    }
}

/// The size of batch `b` when `n` pages go in batches of 2000.
pub open spec fn batch_len(n: int, b: int) -> int {
    if n - 2000 * b < 2000 {
        n - 2000 * b
    } else {
        2000
    }
}

/// Whether `r` holds the `MEDIA_PAGE` rows of `pages` of the book `book_id`, numbered
/// from 0 in order, in batches of 2000 of which every one but the last is full.
pub open spec fn page_batches_fit(
    r: Seq<Vec<MediaPageRow>>,
    book_id: Seq<char>,
    pages: Seq<AnalyzedBookPage>,
) -> bool {
    &&& r.len() == (pages.len() + 1999) / 2000
    &&& forall|b: int| 0 <= b < r.len() ==> #[trigger] r[b].len() == batch_len(pages.len() as int, b)
    &&& forall|b: int, j: int|
        0 <= b < r.len() && 0 <= j < r[b].len() ==> page_row_fits(
            #[trigger] r[b]@[j],
            book_id,
            pages[2000 * b + j],
            2000 * b + j,
        )
}

/// The `MEDIA_PAGE` rows of a book's pages, numbered from 0 in order, in batches of
/// 2000: every batch but the last is full.
pub fn media_page_batches(book_id: &str, pages: &Vec<AnalyzedBookPage>) -> (r: Vec<
    Vec<MediaPageRow>,
>)
    requires
        pages.len() <= i64::MAX,
    ensures
        page_batches_fit(r@, book_id@, pages@),
{
    let n = pages.len();
    let mut batches: Vec<Vec<MediaPageRow>> = Vec::new();
    let mut start: usize = 0;
    while start < n
        invariant
            n == pages.len(),
            n <= i64::MAX,
            start <= n,
            start == (if 2000 * batches.len() < n { 2000 * batches.len() } else { n as int }),
            batches.len() == 0 || 2000 * (batches.len() - 1) < n,
            forall|b: int| 0 <= b < batches.len() ==> #[trigger] batches@[b].len() == batch_len(n as int, b),
            forall|b: int, j: int|
                0 <= b < batches.len() && 0 <= j < batches@[b].len() ==> page_row_fits(
                    #[trigger] batches@[b]@[j],
                    book_id@,
                    pages@[2000 * b + j],
                    2000 * b + j,
                ),
        decreases n - start,
    {
        let end = if n - start < 2000 {
            n
        } else {
            start + 2000
        };
        let ghost b = batches.len() as int;
        assert(start == 2000 * b);
        let mut batch: Vec<MediaPageRow> = Vec::new();
        let mut i: usize = start;
        while i < end
            invariant
                start <= i <= end <= n,
                n == pages.len(),
                n <= i64::MAX,
                start == 2000 * b,
                batch.len() == i - start,
                forall|j: int| 0 <= j < batch.len() ==> page_row_fits(
                    #[trigger] batch@[j],
                    book_id@,
                    pages@[2000 * b + j],
                    2000 * b + j,
                ),
            decreases end - i,
        {
            batch.push(page_row(book_id, &pages[i], i as i64));
            i = i + 1;
        }
        batches.push(batch);
        start = end;
        assert(batches@[b].len() == batch_len(n as int, b));
    }
    let ghost b = batches.len() as int;
    assert(b == (n + 1999) / 2000) by (nonlinear_arith)
        requires
            (b == 0 && n == 0) || (2000 * (b - 1) < n && n <= 2000 * b),
    ;
    batches
}

/// Every page has its row in the batches: page `k` of `n` is row `k % 2000` of batch
/// `k / 2000`, and batch sizes add up so that no row is left over.
pub proof fn lemma_every_page_has_a_row(n: int, k: int)
    requires
        0 <= k < n,
    ensures
        0 <= k / 2000 < (n + 1999) / 2000,
        0 <= k % 2000 < batch_len(n, k / 2000),
        2000 * (k / 2000) + k % 2000 == k,
{
    assert(2000 * (k / 2000) + k % 2000 == k) by (nonlinear_arith)
        requires
            0 <= k,
    ;
    assert(k / 2000 < (n + 1999) / 2000) by (nonlinear_arith)
        requires
            0 <= k < n,
    ;
}

/// A row of the `MEDIA_FILE` table.
pub struct MediaFileRow {
    pub file_name: String,
    pub book_id: String,
    pub media_type: Option<String>,
    pub sub_type: Option<String>,
    pub file_size: Option<i64>,
}

/// Whether `r` holds the `MEDIA_FILE` rows of `files` of the book `book_id`, in order.
pub open spec fn file_rows_fit(
    r: Seq<MediaFileRow>,
    book_id: Seq<char>,
    files: Seq<AnalyzedBookMediaFile>,
) -> bool {
    &&& r.len() == files.len()
    &&& forall|i: int|
        0 <= i < r.len() ==> {
            let row = #[trigger] r[i];
            let f = files[i];
            &&& row.file_name@ == f.file_name@
            &&& row.book_id@ == book_id
            &&& opt_text_view(row.media_type) == opt_text_view(f.media_type)
            &&& opt_text_view(row.sub_type) == opt_text_view(f.sub_type)
            &&& row.file_size == f.file_size
        }
}

/// The `MEDIA_FILE` rows of a book's files, in order.
pub fn media_file_rows(book_id: &str, files: &Vec<AnalyzedBookMediaFile>) -> (r: Vec<MediaFileRow>)
    ensures
        file_rows_fit(r@, book_id@, files@),
{
    let mut rows: Vec<MediaFileRow> = Vec::new();
    let mut i: usize = 0;
    while i < files.len()
        invariant
            i <= files.len(),
            rows.len() == i,
            forall|k: int|
                0 <= k < rows.len() ==> {
                    let row = #[trigger] rows@[k];
                    let f = files@[k];
                    &&& row.file_name@ == f.file_name@
                    &&& row.book_id@ == book_id@
                    &&& opt_text_view(row.media_type) == opt_text_view(f.media_type)
                    &&& opt_text_view(row.sub_type) == opt_text_view(f.sub_type)
                    &&& row.file_size == f.file_size
                },
        decreases files.len() - i,
    {
        let f = &files[i];
        rows.push(
            MediaFileRow {
                file_name: f.file_name.clone(),
                book_id: String::from_str(book_id),
                media_type: clone_opt_string(&f.media_type),
                sub_type: clone_opt_string(&f.sub_type),
                file_size: f.file_size,
            },
        );
        i = i + 1;
    }
    rows
}

/// The `MEDIA` row of an analysis: its page count is capped at `i32::MAX`.
pub struct MediaRow {
    pub book_id: String,
    pub status: String,
    pub media_type: String,
    pub comment: Option<String>,
    pub page_count: i32,
    pub epub_divina_compatible: bool,
    pub epub_is_kepub: bool,
}

/// The extension class stored with an EPUB's extension blob.
pub const EPUB_EXTENSION_CLASS: &'static str = "org.gotson.komga.domain.model.MediaExtensionEpub";

/// What becomes of the `MEDIA` row's extension columns.
pub enum ExtensionUpdate {
    /// They take the EPUB extension class and this blob.
    Store { class: String, blob: Vec<u8> },
    /// They are cleared.
    Clear,
}

/// The writes that persist an analysis, in one transaction: the book's `MEDIA_PAGE`
/// rows are replaced by `page_batches`, its `MEDIA_FILE` rows by `file_rows`, its `MEDIA`
/// row is upserted, then its extension columns set or cleared.
pub struct BookAnalysisWrites {
    pub page_batches: Vec<Vec<MediaPageRow>>,
    pub file_rows: Vec<MediaFileRow>,
    pub media: MediaRow,
    pub extension: ExtensionUpdate,
}

/// Whether `w` are the writes that persist `analysis` for the book `book_id`.
pub open spec fn writes_fit(w: BookAnalysisWrites, book_id: Seq<char>, analysis: AnalyzedBookMedia) -> bool {
    &&& page_batches_fit(w.page_batches@, book_id, analysis.pages@)
    &&& file_rows_fit(w.file_rows@, book_id, analysis.media_files@)
    &&& w.media.book_id@ == book_id
    &&& w.media.status@ == spec_status_name(analysis.status)
    &&& w.media.media_type@ == analysis.media_type@
    &&& opt_text_view(w.media.comment) == opt_text_view(analysis.comment)
    &&& w.media.page_count == if analysis.page_count > i32::MAX as u64 {
        i32::MAX as int
    } else {
        analysis.page_count as int
    }
    &&& w.media.epub_divina_compatible == analysis.epub_divina_compatible
    &&& w.media.epub_is_kepub == analysis.epub_is_kepub
    &&& match analysis.epub_extension_blob {
        Some(blob) => w.extension matches ExtensionUpdate::Store { class, blob: b } && class@
            == EPUB_EXTENSION_CLASS@ && b@ == blob@,
        None => w.extension is Clear,
    }
}

/// The writes that persist the analysis of the book `book_id`.
pub fn plan_book_analysis_writes(book_id: &str, analysis: &AnalyzedBookMedia) -> (r:
    BookAnalysisWrites)
    requires
        analysis.pages.len() <= i64::MAX,
    ensures
        writes_fit(r, book_id@, *analysis),
{
    let media = MediaRow {
        book_id: String::from_str(book_id),
        status: String::from_str(analysis.status.persisted_name()),
        media_type: analysis.media_type.clone(),
        comment: clone_opt_string(&analysis.comment),
        page_count: clamp_to_i32(analysis.page_count),
        epub_divina_compatible: analysis.epub_divina_compatible,
        epub_is_kepub: analysis.epub_is_kepub,
    };
    let extension = match &analysis.epub_extension_blob {
        Some(blob) => ExtensionUpdate::Store {
            class: String::from_str(EPUB_EXTENSION_CLASS),
            blob: blob.clone(),
        },
        None => ExtensionUpdate::Clear,
    };
    BookAnalysisWrites {
        page_batches: media_page_batches(book_id, &analysis.pages),
        file_rows: media_file_rows(book_id, &analysis.media_files),
        media,
        extension,
    }
}

/// The columns that the analysis of a book reads from its `BOOK`, `LIBRARY` and `MEDIA`
/// rows; the previous status is the empty text where the book has no media yet.
pub struct BookAnalysisRow {
    pub url: String,
    pub root: String,
    pub series_id: String,
    pub library_id: String,
    pub analyze_dimensions: bool,
    pub hash_pages: bool,
    pub import_comicinfo_book: bool,
    pub import_comicinfo_readlist: bool,
    pub import_comicinfo_series: bool,
    pub import_comicinfo_collection: bool,
    pub import_epub_book: bool,
    pub import_epub_series: bool,
    pub previous_media_status: String,
    pub previous_page_count: i64,
}

/// What the analysis of a book starts from.
pub struct BookAnalysisInput {
    pub url: String,
    pub root: String,
    pub analyze_dimensions: bool,
    pub hash_pages: bool,
    pub series_id: String,
    pub library_id: String,
    pub previous_media_status: Option<MediaStatus>,
    pub previous_page_count: i64,
    pub metadata_sources: MetadataSourceRequest,
}

impl BookAnalysisInput {
    /// The input of the analysis of the book whose columns `row` holds.
    pub fn from_row(row: BookAnalysisRow) -> (r: Self)
        ensures
            r.url@ == row.url@,
            r.root@ == row.root@,
            r.series_id@ == row.series_id@,
            r.library_id@ == row.library_id@,
            r.analyze_dimensions == row.analyze_dimensions,
            r.hash_pages == row.hash_pages,
            r.previous_media_status == spec_parse_status(row.previous_media_status@),
            r.previous_page_count == row.previous_page_count,
            r.metadata_sources.comicinfo == (row.import_comicinfo_book
                || row.import_comicinfo_readlist || row.import_comicinfo_series
                || row.import_comicinfo_collection),
            r.metadata_sources.epub == (row.import_epub_book || row.import_epub_series),
    {
        let metadata_sources = metadata_source_request(
            row.import_comicinfo_book,
            row.import_comicinfo_readlist,
            row.import_comicinfo_series,
            row.import_comicinfo_collection,
            row.import_epub_book,
            row.import_epub_series,
        );
        let previous_media_status = MediaStatus::parse(row.previous_media_status.as_str());
        BookAnalysisInput {
            url: row.url,
            root: row.root,
            analyze_dimensions: row.analyze_dimensions,
            hash_pages: row.hash_pages,
            series_id: row.series_id,
            library_id: row.library_id,
            previous_media_status,
            previous_page_count: row.previous_page_count,
            metadata_sources,
        }
    }
}

/// Where the analysis of a book stands.
pub enum AnalyzeBookState {
    /// Nothing was asked yet.
    Start { book_id: String, purpose: BookAnalysisPurpose },
    /// The book's input was asked for.
    ReadingInput { book_id: String, purpose: BookAnalysisPurpose },
    /// The book's file was handed to the analyzer.
    Analyzing { book_id: String, input: BookAnalysisInput },
    /// The analysis' writes were handed over.
    Persisting { book_id: String, input: BookAnalysisInput, status: MediaStatus, page_count: i64 },
    /// The read progress adjustment was asked for.
    Adjusting { book_id: String, input: BookAnalysisInput, status: MediaStatus },
    /// The book's change was handed over to be announced.
    Announcing { series_id: String, status: MediaStatus },
    /// The analysis is over.
    Finished,
}

/// What came of the last thing an analysis asked for.
pub enum AnalyzeBookEvent {
    /// The analysis begins, on a runtime that owns the main database or not.
    Begin { owns_main_database: bool },
    /// The book's input, or no book, or the rendered failure of reading it.
    InputRead(Result<Option<BookAnalysisInput>, String>),
    /// The analysis of the book's file, or the path that was analysed and the rendered
    /// failure.
    Analyzed(Result<AnalyzedBookMedia, (String, String)>),
    /// The writes were made, or their rendered failure.
    Persisted(Result<(), String>),
    /// The read progress was adjusted, or its rendered failure.
    Adjusted(Result<(), String>),
    /// The change was announced.
    Announced,
}

/// What an analysis found, for the task that asked for it.
#[derive(Debug, PartialEq, Eq)]
pub struct AnalyzeBookResult {
    pub series_id: String,
    pub media_status: Option<MediaStatus>,
}

/// What an analysis asks for next.
pub enum AnalyzeBookAction {
    /// Read what the analysis of the book needs.
    ReadInput { book_id: String },
    /// Analyse the book's file, found under `root` at `url`, capturing `sources`.
    Analyze {
        root: String,
        url: String,
        analyze_dimensions: bool,
        hash_pages: bool,
        sources: MetadataSourceRequest,
    },
    /// Make these writes, in one transaction.
    Persist(BookAnalysisWrites),
    /// Adjust the read progress of the book to its new page count.
    AdjustProgress {
        book_id: String,
        series_id: String,
        previous_media_status: Option<MediaStatus>,
        previous_page_count: i64,
        current_page_count: i64,
    },
    /// Announce this change.
    Announce(RuntimeSseEvent),
    /// The analysis is over, with this result.
    Done(Result<AnalyzeBookResult, TaskProcessingError>),
}

/// Whether `state` waits for an event of the kind of `event`.
pub open spec fn spec_accepts(state: AnalyzeBookState, event: AnalyzeBookEvent) -> bool {
    match state {
        AnalyzeBookState::Start { .. } => event is Begin,
        AnalyzeBookState::ReadingInput { .. } => event is InputRead,
        AnalyzeBookState::Analyzing { .. } => event is Analyzed,
        AnalyzeBookState::Persisting { .. } => event is Persisted,
        AnalyzeBookState::Adjusting { .. } => event is Adjusted,
        AnalyzeBookState::Announcing { .. } => event is Announced,
        AnalyzeBookState::Finished => false,
    }
}

/// Whether `action` ends the analysis with the result of a book that is not analysed: no
/// series and no status.
pub open spec fn is_done_empty(action: AnalyzeBookAction) -> bool {
    action matches AnalyzeBookAction::Done(Ok(res)) && res.series_id@ == Seq::<char>::empty()
        && res.media_status is None
}

/// Whether `action` ends the analysis with a runtime failure carrying `message`.
pub open spec fn is_done_failed(action: AnalyzeBookAction, message: Seq<char>) -> bool {
    action matches AnalyzeBookAction::Done(Err(e)) && e.message@ == message
}

/// The message of a failed analysis of the book `book_id`'s file at `path`.
pub open spec fn analyzer_failure_message(book_id: Seq<char>, path: Seq<char>, error: Seq<char>) -> Seq<char> {
    "failed to analyze media file for '"@ + book_id + "' ('"@ + path + "'): "@ + error
}

/// Whether `(next, action)` is the step of an analysis in `state` on `event`: it begins
/// only on a runtime that owns the main database and ends at once for a book that is not
/// there; it then analyses the book's file, hands over the writes of the analysis, adjusts
/// the read progress to the new page count and announces the book's change; any failure
/// ends it with that failure, and nothing more is asked.
pub open spec fn analyze_step_fits(
    state: AnalyzeBookState,
    event: AnalyzeBookEvent,
    next: AnalyzeBookState,
    action: AnalyzeBookAction,
) -> bool {
    match state {
        AnalyzeBookState::Start { book_id, purpose } => match event {
            AnalyzeBookEvent::Begin { owns_main_database } => if owns_main_database {
                &&& next == (AnalyzeBookState::ReadingInput { book_id, purpose })
                &&& action matches AnalyzeBookAction::ReadInput { book_id: b } && b@ == book_id@
            } else {
                next is Finished && is_done_empty(action)
            },
            _ => false,
        },
        AnalyzeBookState::ReadingInput { book_id, purpose } => match event {
            AnalyzeBookEvent::InputRead(Err(message)) => next is Finished && is_done_failed(action, message@),
            AnalyzeBookEvent::InputRead(Ok(None)) => next is Finished && is_done_empty(action),
            AnalyzeBookEvent::InputRead(Ok(Some(input))) => {
                &&& action matches AnalyzeBookAction::Analyze {
                    root,
                    url,
                    analyze_dimensions,
                    hash_pages,
                    sources,
                } && root@ == input.root@ && url@ == input.url@ && analyze_dimensions
                    == input.analyze_dimensions && hash_pages == input.hash_pages && sources == (
                match purpose {
                    BookAnalysisPurpose::AnalysisOnly => MetadataSourceRequest { comicinfo: false, epub: false },
                    BookAnalysisPurpose::AnalysisAndMetadata => input.metadata_sources,
                })
                &&& next == (AnalyzeBookState::Analyzing { book_id, input })
            },
            _ => false,
        },
        AnalyzeBookState::Analyzing { book_id, input } => match event {
            AnalyzeBookEvent::Analyzed(Err((path, error))) => next is Finished && is_done_failed(
                action,
                analyzer_failure_message(book_id@, path@, error@),
            ),
            AnalyzeBookEvent::Analyzed(Ok(media)) => {
                &&& action matches AnalyzeBookAction::Persist(w) && writes_fit(w, book_id@, media)
                &&& next == (AnalyzeBookState::Persisting {
                    book_id,
                    input,
                    status: media.status,
                    page_count: if media.page_count > i64::MAX as u64 {
                        i64::MAX
                    } else {
                        media.page_count as i64
                    },
                })
            },
            _ => false,
        },
        AnalyzeBookState::Persisting { book_id, input, status, page_count } => match event {
            AnalyzeBookEvent::Persisted(Err(message)) => next is Finished && is_done_failed(action, message@),
            AnalyzeBookEvent::Persisted(Ok(())) => {
                &&& action matches AnalyzeBookAction::AdjustProgress {
                    book_id: b,
                    series_id,
                    previous_media_status,
                    previous_page_count,
                    current_page_count,
                } && b@ == book_id@ && series_id@ == input.series_id@ && previous_media_status
                    == input.previous_media_status && previous_page_count == input.previous_page_count
                    && current_page_count == page_count
                &&& next == (AnalyzeBookState::Adjusting { book_id, input, status })
            },
            _ => false,
        },
        AnalyzeBookState::Adjusting { book_id, input, status } => match event {
            AnalyzeBookEvent::Adjusted(Err(message)) => next is Finished && is_done_failed(action, message@),
            AnalyzeBookEvent::Adjusted(Ok(())) => {
                &&& action matches AnalyzeBookAction::Announce(RuntimeSseEvent::BookChanged {
                    book_id: b,
                    series_id,
                    library_id,
                }) && b@ == book_id@ && series_id@ == input.series_id@ && library_id@
                    == input.library_id@
                &&& next matches AnalyzeBookState::Announcing { series_id, status: st }
                    && series_id@ == input.series_id@ && st == status
            },
            _ => false,
        },
        AnalyzeBookState::Announcing { series_id, status } => match event {
            AnalyzeBookEvent::Announced => next is Finished && action == AnalyzeBookAction::Done(
                Ok(AnalyzeBookResult { series_id, media_status: Some(status) }),
            ),
            _ => false,
        },
        AnalyzeBookState::Finished => false,
    }
}

impl AnalyzeBookState {
    /// Whether this state waits for an event of the kind of `event`.
    pub fn accepts(&self, event: &AnalyzeBookEvent) -> (r: bool)
        ensures
            r == spec_accepts(*self, *event),
    {
        match self {
            AnalyzeBookState::Start { .. } => matches!(event, AnalyzeBookEvent::Begin { .. }),
            AnalyzeBookState::ReadingInput { .. } => matches!(event, AnalyzeBookEvent::InputRead(_)),
            AnalyzeBookState::Analyzing { .. } => matches!(event, AnalyzeBookEvent::Analyzed(_)),
            AnalyzeBookState::Persisting { .. } => matches!(event, AnalyzeBookEvent::Persisted(_)),
            AnalyzeBookState::Adjusting { .. } => matches!(event, AnalyzeBookEvent::Adjusted(_)),
            AnalyzeBookState::Announcing { .. } => matches!(event, AnalyzeBookEvent::Announced),
            AnalyzeBookState::Finished => false,
        }
    }
}

fn done_empty() -> (r: AnalyzeBookAction)
    ensures
        is_done_empty(r),
{
    AnalyzeBookAction::Done(Ok(AnalyzeBookResult { series_id: String::new(), media_status: None }))
}

fn done_failed(message: &str) -> (r: AnalyzeBookAction)
    ensures
        is_done_failed(r, message@),
{
    AnalyzeBookAction::Done(Err(TaskProcessingError::runtime(message)))
}

/// One step of the analysis of a book: from where it stands and what came of the last
/// thing it asked for, where it stands next and what it asks for.
pub fn analyze_book_step(state: AnalyzeBookState, event: AnalyzeBookEvent) -> (r: (
    AnalyzeBookState,
    AnalyzeBookAction,
))
    requires
        spec_accepts(state, event),
        event matches AnalyzeBookEvent::Analyzed(Ok(media)) ==> media.pages.len() <= i64::MAX,
    ensures
        analyze_step_fits(state, event, r.0, r.1),
{
    match state {
        AnalyzeBookState::Start { book_id, purpose } => match event {
            AnalyzeBookEvent::Begin { owns_main_database } => {
                if owns_main_database {
                    let b = book_id.clone();
                    (AnalyzeBookState::ReadingInput { book_id, purpose }, AnalyzeBookAction::ReadInput {
                        book_id: b,
                    })
                } else {
                    (AnalyzeBookState::Finished, done_empty())
                }
            },
            _ => (AnalyzeBookState::Finished, done_empty()),
        },
        AnalyzeBookState::ReadingInput { book_id, purpose } => match event {
            AnalyzeBookEvent::InputRead(Err(message)) => (AnalyzeBookState::Finished, done_failed(
                message.as_str(),
            )),
            AnalyzeBookEvent::InputRead(Ok(None)) => (AnalyzeBookState::Finished, done_empty()),
            AnalyzeBookEvent::InputRead(Ok(Some(input))) => {
                let action = AnalyzeBookAction::Analyze {
                    root: input.root.clone(),
                    url: input.url.clone(),
                    analyze_dimensions: input.analyze_dimensions,
                    hash_pages: input.hash_pages,
                    sources: metadata_sources_for(purpose, input.metadata_sources),
                };
                (AnalyzeBookState::Analyzing { book_id, input }, action)
            },
            _ => (AnalyzeBookState::Finished, done_empty()),
        },
        AnalyzeBookState::Analyzing { book_id, input } => match event {
            AnalyzeBookEvent::Analyzed(Err((path, error))) => {
                let message = String::from_str("failed to analyze media file for '").concat(
                    book_id.as_str(),
                ).concat("' ('").concat(path.as_str()).concat("'): ").concat(error.as_str());
                (AnalyzeBookState::Finished, done_failed(message.as_str()))
            },
            AnalyzeBookEvent::Analyzed(Ok(media)) => {
                let writes = plan_book_analysis_writes(book_id.as_str(), &media);
                let page_count = clamp_to_i64(media.page_count);
                (AnalyzeBookState::Persisting { book_id, input, status: media.status, page_count }, AnalyzeBookAction::Persist(writes))
            },
            _ => (AnalyzeBookState::Finished, done_empty()),
        },
        AnalyzeBookState::Persisting { book_id, input, status, page_count } => match event {
            AnalyzeBookEvent::Persisted(Err(message)) => (AnalyzeBookState::Finished, done_failed(
                message.as_str(),
            )),
            AnalyzeBookEvent::Persisted(Ok(())) => {
                let action = AnalyzeBookAction::AdjustProgress {
                    book_id: book_id.clone(),
                    series_id: input.series_id.clone(),
                    previous_media_status: input.previous_media_status,
                    previous_page_count: input.previous_page_count,
                    current_page_count: page_count,
                };
                (AnalyzeBookState::Adjusting { book_id, input, status }, action)
            },
            _ => (AnalyzeBookState::Finished, done_empty()),
        },
        AnalyzeBookState::Adjusting { book_id, input, status } => match event {
            AnalyzeBookEvent::Adjusted(Err(message)) => (AnalyzeBookState::Finished, done_failed(
                message.as_str(),
            )),
            AnalyzeBookEvent::Adjusted(Ok(())) => {
                let announce = RuntimeSseEvent::BookChanged {
                    book_id,
                    series_id: input.series_id.clone(),
                    library_id: input.library_id,
                };
                (AnalyzeBookState::Announcing { series_id: input.series_id, status }, AnalyzeBookAction::Announce(announce))
            },
            _ => (AnalyzeBookState::Finished, done_empty()),
        },
        AnalyzeBookState::Announcing { series_id, status } => (
            AnalyzeBookState::Finished,
            AnalyzeBookAction::Done(Ok(AnalyzeBookResult { series_id, media_status: Some(status) })),
        ),
        AnalyzeBookState::Finished => (AnalyzeBookState::Finished, done_empty()),
    }
}

} // verus!
