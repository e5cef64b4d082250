//! Transient books: files scanned outside any library, kept in memory for an hour after
//! their last access, analysed on demand and served page by page.
use vstd::prelude::*;

use crate::runtime_events::{clone_texts, texts_view};
use crate::task_queue::{lemma_filter_take_step, opt_text_view};
use crate::text::{
    clone_opt_string, lemma_text_less_irreflexive, lemma_text_less_transitive, text_eq, text_less,
    text_lt,
};
use vstd::string::StringExecFns;

verus! {

/// The analysis state of a book's media.
#[derive(Debug, Clone, Copy, PartialEq, Eq, Structural)]
pub enum MediaStatus {
    Unknown,
    Error,
    Ready,
    Unsupported,
    Outdated,
}

/// One page of an analysed book.
#[derive(Debug, PartialEq, Eq)]
pub struct TransientBookPage {
    pub number: u32,
    pub file_name: String,
    pub media_type: String,
    pub width: Option<u32>,
    pub height: Option<u32>,
    pub size_bytes: Option<u64>,
}

/// The mathematical content of a [`TransientBookPage`].
pub struct PageView {
    pub number: u32,
    pub file_name: Seq<char>,
    pub media_type: Seq<char>,
    pub width: Option<u32>,
    pub height: Option<u32>,
    pub size_bytes: Option<u64>,
}

impl View for TransientBookPage {
    type V = PageView;

    open spec fn view(&self) -> PageView {
        PageView {
            number: self.number,
            file_name: self.file_name@,
            media_type: self.media_type@,
            width: self.width,
            height: self.height,
            size_bytes: self.size_bytes,
        }
    }
}

impl Clone for TransientBookPage {
    fn clone(&self) -> (r: Self)
        ensures
            r@ == self@,
    {
        TransientBookPage {
            number: self.number,
            file_name: self.file_name.clone(),
            media_type: self.media_type.clone(),
            width: self.width,
            height: self.height,
            size_bytes: self.size_bytes,
        }
    }
}

/// The views of a sequence of pages.
pub open spec fn pages_view(v: Seq<TransientBookPage>) -> Seq<PageView> {
    v.map_values(|p: TransientBookPage| p@)
}

/// A copy of a list of pages.
pub fn clone_pages(v: &Vec<TransientBookPage>) -> (r: Vec<TransientBookPage>)
    ensures
        pages_view(r@) == pages_view(v@),
{
    let mut r: Vec<TransientBookPage> = Vec::new();
    let mut i: usize = 0;
    while i < v.len()
        invariant
            i <= v.len(),
            pages_view(r@) == pages_view(v@).take(i as int),
        decreases v.len() - i,
    {
        let ghost before = pages_view(r@);
        r.push(v[i].clone());
        assert(pages_view(r@) =~= before.push(v@[i as int]@));
        assert(pages_view(v@).take(i + 1) =~= pages_view(v@).take(i as int).push(v@[i as int]@));
        i = i + 1;
    }
    assert(pages_view(v@).take(i as int) =~= pages_view(v@));
    r
}

/// A book file found by a transient scan, with what its analysis found. `number` holds
/// the IEEE-754 bits of the book's number within its series.
#[derive(Debug, PartialEq)]
pub struct TransientBookRecord {
    pub id: String,
    pub name: String,
    pub path: String,
    pub file_last_modified_unix_nanos: i128,
    pub size_bytes: u64,
    pub status: MediaStatus,
    pub media_type: String,
    pub page_count: u32,
    pub pages: Vec<TransientBookPage>,
    pub files: Vec<String>,
    pub comment: String,
    pub number: Option<u64>,
    pub series_id: Option<String>,
}

/// The mathematical content of a [`TransientBookRecord`].
pub struct RecordView {
    pub id: Seq<char>,
    pub name: Seq<char>,
    pub path: Seq<char>,
    pub file_last_modified_unix_nanos: i128,
    pub size_bytes: u64,
    pub status: MediaStatus,
    pub media_type: Seq<char>,
    pub page_count: u32,
    pub pages: Seq<PageView>,
    pub files: Seq<Seq<char>>,
    pub comment: Seq<char>,
    pub number: Option<u64>,
    pub series_id: Option<Seq<char>>,
}

impl View for TransientBookRecord {
    type V = RecordView;

    open spec fn view(&self) -> RecordView {
        RecordView {
            id: self.id@,
            name: self.name@,
            path: self.path@,
            file_last_modified_unix_nanos: self.file_last_modified_unix_nanos,
            size_bytes: self.size_bytes,
            status: self.status,
            media_type: self.media_type@,
            page_count: self.page_count,
            pages: pages_view(self.pages@),
            files: texts_view(self.files@),
            comment: self.comment@,
            number: self.number,
            series_id: opt_text_view(self.series_id),
        }
    }
}

impl Clone for TransientBookRecord {
    fn clone(&self) -> (r: Self)
        ensures
            r@ == self@,
    {
        TransientBookRecord {
            id: self.id.clone(),
            name: self.name.clone(),
            path: self.path.clone(),
            file_last_modified_unix_nanos: self.file_last_modified_unix_nanos,
            size_bytes: self.size_bytes,
            status: self.status,
            media_type: self.media_type.clone(),
            page_count: self.page_count,
            pages: clone_pages(&self.pages),
            files: clone_texts(&self.files),
            comment: self.comment.clone(),
            number: self.number,
            series_id: clone_opt_string(&self.series_id),
        }
    }
}

/// What analysing a transient book found.
#[derive(Debug, PartialEq)]
pub struct TransientBookAnalysis {
    pub status: MediaStatus,
    pub media_type: String,
    pub page_count: u32,
    pub pages: Vec<TransientBookPage>,
    pub files: Vec<String>,
    pub comment: String,
    pub number: Option<u64>,
    pub series_id: Option<String>,
}

/// The series and number inferred from a transient book's name.
#[derive(Debug, PartialEq)]
pub struct TransientBookSeriesInference {
    pub series_id: Option<String>,
    pub number: Option<u64>,
}

/// A file that a transient scan listed.
#[derive(Debug, PartialEq, Eq)]
pub struct TransientBookScanEntry {
    pub path: String,
    pub name: String,
}

/// Size and modification time of a scanned file.
#[derive(Debug, PartialEq, Eq, Clone, Copy)]
pub struct TransientBookFileMetadata {
    pub file_last_modified_unix_nanos: i128,
    pub size_bytes: u64,
}

/// The record of a freshly scanned file under the id `id`: named and placed as the scan
/// found it, with its size and time, and nothing analysed.
pub open spec fn unknown_record_view(
    id: Seq<char>,
    entry: TransientBookScanEntry,
    file_metadata: TransientBookFileMetadata,
) -> RecordView {
    RecordView {
        id,
        name: entry.name@,
        path: entry.path@,
        file_last_modified_unix_nanos: file_metadata.file_last_modified_unix_nanos,
        size_bytes: file_metadata.size_bytes,
        status: MediaStatus::Unknown,
        media_type: Seq::empty(),
        page_count: 0,
        pages: Seq::empty(),
        files: Seq::empty(),
        comment: Seq::empty(),
        number: None,
        series_id: None,
    }
}

/// The record of a freshly scanned file: not analysed yet, with the given id.
pub fn unknown_transient_book_record_with_id(
    id: String,
    entry: TransientBookScanEntry,
    file_metadata: TransientBookFileMetadata,
) -> (r: TransientBookRecord)
    ensures
        r@ == unknown_record_view(id@, entry, file_metadata),
{
    let r = TransientBookRecord {
        id,
        name: entry.name,
        path: entry.path,
        file_last_modified_unix_nanos: file_metadata.file_last_modified_unix_nanos,
        size_bytes: file_metadata.size_bytes,
        status: MediaStatus::Unknown,
        media_type: String::new(),
        page_count: 0,
        pages: Vec::new(),
        files: Vec::new(),
        comment: String::new(),
        number: None,
        series_id: None,
    };
    assert(pages_view(r.pages@) =~= Seq::empty());
    assert(texts_view(r.files@) =~= Seq::empty());
    r
}

/// The record after an analysis: the analysis's findings, with the series and number
/// taken from the analysis when it has them and from the inference otherwise.
pub open spec fn spec_apply_analysis(
    entry: RecordView,
    analysis: TransientBookAnalysis,
    inference: TransientBookSeriesInference,
) -> RecordView {
    RecordView {
        status: analysis.status,
        media_type: analysis.media_type@,
        page_count: analysis.page_count,
        pages: pages_view(analysis.pages@),
        files: texts_view(analysis.files@),
        comment: analysis.comment@,
        number: match analysis.number {
            Some(n) => Some(n),
            None => inference.number,
        },
        series_id: match analysis.series_id {
            Some(s) => Some(s@),
            None => opt_text_view(inference.series_id),
        },
        ..entry
    }
}

/// An analysis's own number and series always win: the inference fills in only what the
/// analysis did not find. The book keeps its id, name, file and file facts, and takes the
/// analysis's status, media type, page count, pages, files and comment.
pub proof fn lemma_analysis_findings_win_over_inference(
    entry: RecordView,
    analysis: TransientBookAnalysis,
    inference: TransientBookSeriesInference,
)
    ensures
        ({
            let after = spec_apply_analysis(entry, analysis, inference);
            &&& analysis.number matches Some(n) ==> after.number == Some(n)
            &&& analysis.number is None ==> after.number == inference.number
            &&& analysis.series_id matches Some(s) ==> after.series_id == Some(s@)
            &&& analysis.series_id is None ==> after.series_id == opt_text_view(inference.series_id)
            &&& after.id == entry.id && after.name == entry.name && after.path == entry.path
            &&& after.file_last_modified_unix_nanos == entry.file_last_modified_unix_nanos
            &&& after.size_bytes == entry.size_bytes
            &&& after.status == analysis.status && after.media_type == analysis.media_type@
            &&& after.page_count == analysis.page_count && after.comment == analysis.comment@
            &&& after.pages == pages_view(analysis.pages@) && after.files == texts_view(analysis.files@)
        }),
{
}

/// Records what an analysis found in `entry`.
pub fn apply_transient_book_analysis(
    entry: &mut TransientBookRecord,
    analysis: TransientBookAnalysis,
    series_inference: TransientBookSeriesInference,
)
    ensures
        final(entry)@ == spec_apply_analysis(old(entry)@, analysis, series_inference),
        analysis.number is Some ==> final(entry).number == analysis.number,
        analysis.number is None ==> final(entry).number == series_inference.number,
        analysis.series_id matches Some(s) ==> final(entry)@.series_id == Some(s@),
        analysis.series_id is None ==> final(entry)@.series_id == opt_text_view(
            series_inference.series_id,
        ),
        final(entry)@.status == analysis.status,
        final(entry)@.id == old(entry)@.id,
        final(entry)@.path == old(entry)@.path,
{
    entry.status = analysis.status;
    entry.media_type = analysis.media_type;
    entry.page_count = analysis.page_count;
    entry.pages = analysis.pages;
    entry.files = analysis.files;
    entry.comment = analysis.comment;
    entry.number = match analysis.number {
        Some(n) => Some(n),
        None => series_inference.number,
    };
    entry.series_id = match analysis.series_id {
        Some(s) => Some(s),
        None => series_inference.series_id,
    };
}

} // verus!

verus! {

/// Seconds after its last access at which a transient book is forgotten.
pub const TRANSIENT_BOOKS_EXPIRE_AFTER_ACCESS_SECONDS: i64 = 3600;

/// Whether a book last accessed at `last_access` has expired at `now` (both in seconds
/// since the epoch).
pub open spec fn spec_expired(last_access: i64, now: i64) -> bool {
    now - last_access >= TRANSIENT_BOOKS_EXPIRE_AFTER_ACCESS_SECONDS
}

fn is_expired(last_access: i64, now: i64) -> (r: bool)
    ensures
        r == spec_expired(last_access, now),
{
    (now as i128) - (last_access as i128) >= 3600i128
}

/// A book kept by the store, under its key, with the time of its last access.
struct StoredBook {
    id: String,
    record: TransientBookRecord,
    last_access: i64,
}

/// The mathematical content of a stored book.
pub struct StoredBookView {
    pub id: Seq<char>,
    pub record: RecordView,
    pub last_access: i64,
}

spec fn stored_view(e: StoredBook) -> StoredBookView {
    StoredBookView { id: e.id@, record: e.record@, last_access: e.last_access }
}

fn clone_stored(e: &StoredBook) -> (r: StoredBook)
    ensures
        stored_view(r) == stored_view(*e),
{
    StoredBook { id: e.id.clone(), record: e.record.clone(), last_access: e.last_access }
}

/// Whether no key occurs twice among the stored books.
pub open spec fn store_keys_unique(s: Seq<StoredBookView>) -> bool {
    forall|i: int, j: int| 0 <= i < j < s.len() ==> s[i].id != s[j].id
}

/// Whether a book is stored under `id`.
pub open spec fn store_has(s: Seq<StoredBookView>, id: Seq<char>) -> bool {
    exists|i: int| 0 <= i < s.len() && s[i].id == id
}

/// Whether the book stored under `id` is `r`.
pub open spec fn store_holds(s: Seq<StoredBookView>, id: Seq<char>, r: RecordView) -> bool {
    exists|i: int| 0 <= i < s.len() && s[i].id == id && s[i].record == r
}

/// The store without the books that have expired at `now`.
pub open spec fn spec_prune(s: Seq<StoredBookView>, now: i64) -> Seq<StoredBookView> {
    s.filter(|e: StoredBookView| !spec_expired(e.last_access, now))
}

/// The store with the book under `id` marked as accessed at `now`.
pub open spec fn spec_touch(s: Seq<StoredBookView>, id: Seq<char>, now: i64) -> Seq<
    StoredBookView,
> {
    s.map_values(
        |e: StoredBookView|
            if e.id == id {
                StoredBookView { last_access: now, ..e }
            } else {
                e
            },
    )
}

/// The store with `record` kept under `id`, accessed at `now`: in place of the book
/// stored under `id` if there is one, else at the end.
pub open spec fn spec_upsert(
    s: Seq<StoredBookView>,
    id: Seq<char>,
    record: RecordView,
    now: i64,
) -> Seq<StoredBookView> {
    let e = StoredBookView { id, record, last_access: now };
    if store_has(s, id) {
        s.map_values(|x: StoredBookView| if x.id == id { e } else { x })
    } else {
        s.push(e)
    }
}

/// The store with `analysis` and `inference` recorded in the book under `id`.
pub open spec fn spec_record_analysis(
    s: Seq<StoredBookView>,
    id: Seq<char>,
    analysis: TransientBookAnalysis,
    inference: TransientBookSeriesInference,
) -> Seq<StoredBookView> {
    s.map_values(
        |e: StoredBookView|
            if e.id == id {
                StoredBookView { record: spec_apply_analysis(e.record, analysis, inference), ..e }
            } else {
                e
            },
    )
}

/// The keys and records of a list of keyed records.
pub open spec fn keyed_records_view(v: Seq<(String, TransientBookRecord)>) -> Seq<
    (Seq<char>, RecordView),
> {
    v.map_values(|p: (String, TransientBookRecord)| (p.0@, p.1@))
}

/// The store that keeping each of `pairs` in turn, accessed at `now`, builds from an
/// empty one.
pub open spec fn spec_load(pairs: Seq<(Seq<char>, RecordView)>, now: i64) -> Seq<StoredBookView>
    decreases pairs.len(),
{
    if pairs.len() == 0 {
        Seq::empty()
    } else {
        let last = pairs.last();
        spec_upsert(spec_load(pairs.drop_last(), now), last.0, last.1, now)
    }
}

/// The store with the record of the book under `id` replaced by `record`.
pub open spec fn spec_record_replaced(
    s: Seq<StoredBookView>,
    id: Seq<char>,
    record: RecordView,
) -> Seq<StoredBookView> {
    s.map_values(|e: StoredBookView| if e.id == id { StoredBookView { record, ..e } } else { e })
}

/// An in-memory store of transient books that forgets each book an hour after its
/// last access.
pub struct TransientBooksStore {
    entries: Vec<StoredBook>,
}

impl View for TransientBooksStore {
    type V = Seq<StoredBookView>;

    closed spec fn view(&self) -> Seq<StoredBookView> {
        self.entries@.map_values(|e: StoredBook| stored_view(e))
    }
}

impl TransientBooksStore {
    /// The store's invariant: no key occurs twice.
    pub open spec fn wf(&self) -> bool {
        store_keys_unique(self@)
    }

    /// An empty store.
    pub fn new() -> (r: Self)
        ensures
            r@ == Seq::<StoredBookView>::empty(),
            r.wf(),
    {
        let r = TransientBooksStore { entries: Vec::new() };
        assert(r@ =~= Seq::<StoredBookView>::empty());
        r
    }

    /// Where the book stored under `id` stands, if one is.
    fn position_of(&self, id: &str) -> (r: Option<usize>)
        ensures
            match r {
                Some(i) => i < self@.len() && self@[i as int].id == id@,
                None => !store_has(self@, id@),
            },
    {
        let mut i: usize = 0;
        while i < self.entries.len()
            invariant
                i <= self.entries.len(),
                forall|k: int| 0 <= k < i ==> #[trigger] self@[k].id != id@,
            decreases self.entries.len() - i,
        {
            if text_eq(self.entries[i].id.as_str(), id) {
                return Some(i);
            }
            i = i + 1;
        }
        None
    }

    /// Replaces the book at position `i`.
    fn replace_at(&mut self, i: usize, e: StoredBook)
        requires
            i < old(self)@.len(),
        ensures
            final(self)@ == old(self)@.update(i as int, stored_view(e)),
    {
        let _ = self.entries.remove(i);
        self.entries.insert(i, e);
        assert(self@ =~= old(self)@.update(i as int, stored_view(e)));
    }

    /// Forgets the books that have expired at `now`.
    pub fn prune_expired_at(&mut self, now: i64)
        requires
            old(self).wf(),
        ensures
            final(self).wf(),
            final(self)@ == spec_prune(old(self)@, now),
    {
        let ghost s = self@;
        let ghost p = |e: StoredBookView| !spec_expired(e.last_access, now);
        let mut kept: Vec<StoredBook> = Vec::new();
        let mut i: usize = 0;
        while i < self.entries.len()
            invariant
                i <= self.entries.len(),
                s == self@,
                store_keys_unique(s),
                p == (|e: StoredBookView| !spec_expired(e.last_access, now)),
                kept@.map_values(|e: StoredBook| stored_view(e)) == s.take(i as int).filter(p),
                forall|k: int|
                    0 <= k < kept@.len() ==> exists|j: int|
                        0 <= j < i && #[trigger] stored_view(kept@[k]) == s[j],
                store_keys_unique(kept@.map_values(|e: StoredBook| stored_view(e))),
            decreases self.entries.len() - i,
        {
            proof {
                lemma_filter_take_step(s, p, i as int);
            }
            if !is_expired(self.entries[i].last_access, now) {
                let ghost before = kept@.map_values(|e: StoredBook| stored_view(e));
                let e = clone_stored(&self.entries[i]);
                kept.push(e);
                let ghost after = kept@.map_values(|e: StoredBook| stored_view(e));
                assert(after =~= before.push(s[i as int]));
                assert forall|a: int, b: int| 0 <= a < b < after.len() implies after[a].id
                    != after[b].id by {
                    if b == after.len() - 1 {
                        let j = choose|j: int| 0 <= j < i && stored_view(kept@[a]) == s[j];
                        assert(after[a] == stored_view(kept@[a]));
                    } else {
                        assert(after[a] == before[a] && after[b] == before[b]);
                    }
                }
                assert forall|k: int| 0 <= k < kept@.len() implies exists|j: int|
                    0 <= j < i + 1 && #[trigger] stored_view(kept@[k]) == s[j] by {
                    if k == kept@.len() - 1 {
                        assert(stored_view(kept@[k]) == s[i as int]);
                    }
                }
            }
            i = i + 1;
        }
        assert(s.take(i as int) =~= s);
        self.entries = kept;
    }

    /// A store holding `records`, each under its key and accessed at `now`; a key that
    /// occurs twice keeps its last record.
    pub fn with_records_at(records: Vec<(String, TransientBookRecord)>, now: i64) -> (r: Self)
        ensures
            r.wf(),
            r@ == spec_load(keyed_records_view(records@), now),
    {
        let ghost pairs = keyed_records_view(records@);
        let mut r = TransientBooksStore::new();
        let mut i: usize = 0;
        while i < records.len()
            invariant
                i <= records.len(),
                pairs == keyed_records_view(records@),
                r.wf(),
                r@ == spec_load(pairs.take(i as int), now),
            decreases records.len() - i,
        {
            let id = records[i].0.clone();
            let record = records[i].1.clone();
            assert(pairs.take(i + 1).drop_last() =~= pairs.take(i as int));
            r.upsert_at(id, record, now);
            i = i + 1;
        }
        assert(pairs.take(i as int) =~= pairs);
        r
    }

    /// Marks the book under `id` as accessed at `now`; says whether one is stored.
    pub fn touch_at(&mut self, id: &str, now: i64) -> (r: bool)
        requires
            old(self).wf(),
        ensures
            final(self).wf(),
            r == store_has(old(self)@, id@),
            final(self)@ == spec_touch(old(self)@, id@, now),
    {
        let ghost s = self@;
        match self.position_of(id) {
            Some(i) => {
                let e = clone_stored(&self.entries[i]);
                self.replace_at(i, StoredBook { id: e.id, record: e.record, last_access: now });
                assert(self@ =~= spec_touch(s, id@, now)) by {
                    assert forall|k: int| 0 <= k < s.len() && k != i implies s[k].id != id@ by {
                        if k < i {
                            assert(s[k].id != s[i as int].id);
                        } else {
                            assert(s[i as int].id != s[k].id);
                        }
                    }
                }
                true
            },
            None => {
                assert(self@ =~= spec_touch(s, id@, now));
                false
            },
        }
    }

    /// Keeps `record` under `id`, accessed at `now`, in place of the book stored under
    /// `id` if there is one.
    fn upsert_at(&mut self, id: String, record: TransientBookRecord, now: i64)
        requires
            old(self).wf(),
        ensures
            final(self).wf(),
            final(self)@ == spec_upsert(old(self)@, id@, record@, now),
    {
        let ghost s = self@;
        let ghost e = StoredBookView { id: id@, record: record@, last_access: now };
        match self.position_of(id.as_str()) {
            Some(i) => {
                self.replace_at(i, StoredBook { id, record, last_access: now });
                assert(self@ =~= spec_upsert(s, e.id, e.record, now)) by {
                    assert forall|k: int| 0 <= k < s.len() && k != i implies s[k].id != e.id by {
                        if k < i {
                            assert(s[k].id != s[i as int].id);
                        } else {
                            assert(s[i as int].id != s[k].id);
                        }
                    }
                }
            },
            None => {
                self.entries.push(StoredBook { id, record, last_access: now });
                assert(self@ =~= s.push(e));
            },
        }
    }

    /// Forgets the expired books, then stores `record` under its id, accessed at `now`.
    pub fn insert_at(&mut self, record: TransientBookRecord, now: i64)
        requires
            old(self).wf(),
        ensures
            final(self).wf(),
            final(self)@ == spec_upsert(spec_prune(old(self)@, now), record.id@, record@, now),
    {
        self.prune_expired_at(now);
        let id = record.id.clone();
        self.upsert_at(id, record, now);
    }

    /// Forgets the expired books, then gives a copy of the book stored under `id`,
    /// marking it as accessed at `now`.
    pub fn get_cloned_at(&mut self, id: &str, now: i64) -> (r: Option<TransientBookRecord>)
        requires
            old(self).wf(),
        ensures
            final(self).wf(),
            final(self)@ == spec_touch(spec_prune(old(self)@, now), id@, now),
            r is Some <==> store_has(spec_prune(old(self)@, now), id@),
            r matches Some(rec) ==> store_holds(spec_prune(old(self)@, now), id@, rec@),
    {
        self.prune_expired_at(now);
        let ghost p = self@;
        match self.position_of(id) {
            Some(i) => {
                let rec = self.entries[i].record.clone();
                assert(p[i as int].record == rec@);
                self.touch_at(id, now);
                Some(rec)
            },
            None => {
                self.touch_at(id, now);
                None
            },
        }
    }

    /// Forgets the expired books, then lends the book stored under `id`, marking it as
    /// accessed at `now`; what the borrower leaves in it stays stored.
    pub fn get_mut_at(&mut self, id: &str, now: i64) -> (r: Option<&mut TransientBookRecord>)
        requires
            old(self).wf(),
        ensures
            r is Some <==> store_has(spec_prune(old(self)@, now), id@),
            match r {
                Some(rec) => store_holds(spec_prune(old(self)@, now), id@, (*rec)@)
                    && final(self)@ == spec_record_replaced(
                    spec_touch(spec_prune(old(self)@, now), id@, now),
                    id@,
                    (*final(rec))@,
                ),
                None => final(self)@ == spec_touch(spec_prune(old(self)@, now), id@, now),
            },
    {
        self.prune_expired_at(now);
        let ghost p = self@;
        self.touch_at(id, now);
        assert(store_has(self@, id@) == store_has(p, id@)) by {
            if store_has(p, id@) {
                let k = choose|k: int| 0 <= k < p.len() && p[k].id == id@;
                assert(self@[k].id == id@);
            }
            if store_has(self@, id@) {
                let k = choose|k: int| 0 <= k < self@.len() && self@[k].id == id@;
                assert(p[k].id == id@);
            }
        }
        match self.position_of(id) {
            None => None,
            Some(i) => Some(&mut self.entries[i].record),
        }
    }

    /// Forgets the expired books, then records `analysis` and `inference` in the book
    /// stored under `id`, marking it as accessed at `now`, and gives a copy of it.
    pub fn apply_analysis_at(
        &mut self,
        id: &str,
        analysis: TransientBookAnalysis,
        inference: TransientBookSeriesInference,
        now: i64,
    ) -> (r: Option<TransientBookRecord>)
        requires
            old(self).wf(),
        ensures
            final(self).wf(),
            final(self)@ == spec_record_analysis(
                spec_touch(spec_prune(old(self)@, now), id@, now),
                id@,
                analysis,
                inference,
            ),
            r is Some <==> store_has(spec_prune(old(self)@, now), id@),
            r matches Some(rec) ==> store_holds(final(self)@, id@, rec@),
    {
        self.prune_expired_at(now);
        let ghost p = self@;
        match self.position_of(id) {
            Some(i) => {
                let e = clone_stored(&self.entries[i]);
                let mut record = e.record;
                apply_transient_book_analysis(&mut record, analysis, inference);
                let out = record.clone();
                self.replace_at(i, StoredBook { id: e.id, record, last_access: now });
                assert(self@ =~= spec_record_analysis(spec_touch(p, id@, now), id@, analysis, inference)) by {
                    assert forall|k: int| 0 <= k < p.len() && k != i implies p[k].id != id@ by {
                        if k < i {
                            assert(p[k].id != p[i as int].id);
                        } else {
                            assert(p[i as int].id != p[k].id);
                        }
                    }
                }
                assert(self@[i as int].record == out@);
                Some(out)
            },
            None => {
                assert(self@ =~= spec_record_analysis(spec_touch(p, id@, now), id@, analysis, inference));
                None
            },
        }
    }
}

} // verus!

verus! {

/// The system clock (`SystemTime::now`) in whole seconds since the Unix epoch, 0 where
/// the clock stands before the epoch. Nothing is promised of the value: it is the time.
#[verifier::external_body]
fn current_unix_epoch_seconds() -> (r: i64) {
    std::time::SystemTime::now().duration_since(std::time::UNIX_EPOCH).unwrap_or_default().as_secs() as i64
}

impl Default for TransientBooksStore {
    fn default() -> (r: Self)
        ensures
            r@ == Seq::<StoredBookView>::empty(),
            r.wf(),
    {
        TransientBooksStore::new()
    }
}

impl TransientBooksStore {
    /// A store holding `records`, each under its key and accessed now.
    pub fn with_records(records: Vec<(String, TransientBookRecord)>) -> (r: Self)
        ensures
            r.wf(),
            exists|now: i64| r@ == spec_load(keyed_records_view(records@), now),
    {
        let now = current_unix_epoch_seconds();
        TransientBooksStore::with_records_at(records, now)
    }

    /// Forgets the expired books, then gives a copy of the book stored under `id`,
    /// marking it as accessed now.
    pub fn get_cloned(&mut self, id: &str) -> (r: Option<TransientBookRecord>)
        requires
            old(self).wf(),
        ensures
            final(self).wf(),
            exists|now: i64|
                {
                    &&& final(self)@ == spec_touch(spec_prune(old(self)@, now), id@, now)
                    &&& (r is Some <==> store_has(spec_prune(old(self)@, now), id@))
                    &&& (r matches Some(rec) ==> store_holds(
                        spec_prune(old(self)@, now),
                        id@,
                        rec@,
                    ))
                },
    {
        let now = current_unix_epoch_seconds();
        self.get_cloned_at(id, now)
    }

    /// Forgets the expired books, then lends the book stored under `id`, marking it as
    /// accessed now; what the borrower leaves in it stays stored.
    pub fn get_mut(&mut self, id: &str) -> (r: Option<&mut TransientBookRecord>)
        requires
            old(self).wf(),
        ensures
            exists|now: i64|
                {
                    &&& (r is Some <==> store_has(spec_prune(old(self)@, now), id@))
                    &&& match r {
                        Some(rec) => store_holds(spec_prune(old(self)@, now), id@, (*rec)@)
                            && final(self)@ == spec_record_replaced(
                            spec_touch(spec_prune(old(self)@, now), id@, now),
                            id@,
                            (*final(rec))@,
                        ),
                        None => final(self)@ == spec_touch(spec_prune(old(self)@, now), id@, now),
                    }
                },
    {
        let now = current_unix_epoch_seconds();
        self.get_mut_at(id, now)
    }

    /// Forgets the expired books, then stores `record` under its id, accessed now.
    pub fn insert(&mut self, record: TransientBookRecord)
        requires
            old(self).wf(),
        ensures
            final(self).wf(),
            exists|now: i64|
                final(self)@ == spec_upsert(spec_prune(old(self)@, now), record.id@, record@, now),
    {
        let now = current_unix_epoch_seconds();
        self.insert_at(record, now)
    }

    /// Forgets the expired books, then records `analysis` and `inference` in the book
    /// stored under `id`, marking it as accessed now, and gives a copy of it.
    pub fn apply_analysis(
        &mut self,
        id: &str,
        analysis: TransientBookAnalysis,
        inference: TransientBookSeriesInference,
    ) -> (r: Option<TransientBookRecord>)
        requires
            old(self).wf(),
        ensures
            final(self).wf(),
            exists|now: i64|
                {
                    &&& final(self)@ == spec_record_analysis(
                        spec_touch(spec_prune(old(self)@, now), id@, now),
                        id@,
                        analysis,
                        inference,
                    )
                    &&& (r is Some <==> store_has(spec_prune(old(self)@, now), id@))
                    &&& (r matches Some(rec) ==> store_holds(final(self)@, id@, rec@))
                },
    {
        let now = current_unix_epoch_seconds();
        self.apply_analysis_at(id, analysis, inference, now)
    }
}

/// The character that the digit `k` (below 32) stands for in Crockford's base 32:
/// `0`-`9`, then the letters without `I`, `L`, `O` and `U`.
pub open spec fn crockford_digit(k: int) -> char {
    if k < 10 {
        ('0' as int + k) as char
    } else if k < 18 {
        ('A' as int + (k - 10)) as char
    } else if k < 20 {
        ('J' as int + (k - 18)) as char
    } else if k < 22 {
        ('M' as int + (k - 20)) as char
    } else if k < 27 {
        ('P' as int + (k - 22)) as char
    } else {
        ('V' as int + (k - 27)) as char
    }
}

/// Whether `c` is a character of Crockford's base 32 in upper case.
pub open spec fn is_crockford_char(c: char) -> bool {
    ||| ('0' as int <= c as int <= '9' as int)
    ||| ('A' as int <= c as int <= 'Z' as int && c != 'I' && c != 'L' && c != 'O' && c != 'U')
}

/// The 13-character text of a TSID: its number in Crockford's base 32, five bits per
/// character from the most significant end, the first character taking the top four.
pub open spec fn spec_tsid_text(number: u64) -> Seq<char> {
    Seq::new(13, |i: int| crockford_digit(((number >> ((60 - 5 * i) as u64)) & 31u64) as int))
}

/// A fresh TSID (`tsid::create_tsid_256`), as its number (`TSID::number`). Nothing is
/// promised of the value: it comes from the clock, a counter and chance.
#[verifier::external_body]
fn create_tsid_number() -> (r: u64) {
    tsid::create_tsid_256().number()
}

/// The text of the TSID with the given number (`TSID::from` then its `Display`): 13
/// characters, as `spec_tsid_text` states.
#[verifier::external_body]
fn tsid_text(number: u64) -> (r: String)
    ensures
        r@ == spec_tsid_text(number),
{
    tsid::TSID::from(number).to_string()
}

/// Whether `t` has the shape of a transient book id: 13 Crockford base-32 characters,
/// the first of them a hexadecimal digit.
pub open spec fn is_tsid_shaped(t: Seq<char>) -> bool {
    &&& t.len() == 13
    &&& forall|i: int| 0 <= i < 13 ==> is_crockford_char(#[trigger] t[i])
    &&& ('0' as int <= t[0] as int <= '9' as int || 'A' as int <= t[0] as int <= 'F' as int)
}

proof fn lemma_tsid_text_shape(number: u64)
    ensures
        is_tsid_shaped(spec_tsid_text(number)),
{
    let t = spec_tsid_text(number);
    assert forall|i: int| 0 <= i < 13 implies is_crockford_char(#[trigger] t[i]) by {
        let sh = (60 - 5 * i) as u64;
        let k = (number >> sh) & 31u64;
        assert(k < 32u64) by (bit_vector)
            requires
                k == (number >> sh) & 31u64,
        ;
    }
    let k0 = (number >> 60u64) & 31u64;
    assert(k0 < 16u64) by (bit_vector)
        requires
            k0 == (number >> 60u64) & 31u64,
    ;
}

/// The id of a transient book whose TSID has the given number.
pub fn transient_book_id_from(number: u64) -> (r: String)
    ensures
        r@ == spec_tsid_text(number),
        is_tsid_shaped(r@),
{
    proof {
        lemma_tsid_text_shape(number);
    }
    tsid_text(number)
}

/// A fresh transient book id: the text of a new TSID.
pub fn transient_book_id() -> (r: String)
    ensures
        exists|number: u64| r@ == spec_tsid_text(number),
        is_tsid_shaped(r@),
{
    let number = create_tsid_number();
    transient_book_id_from(number)
}

/// The record of a freshly scanned file: not analysed yet, under a fresh id.
pub fn unknown_transient_book_record(
    entry: TransientBookScanEntry,
    file_metadata: TransientBookFileMetadata,
) -> (r: TransientBookRecord)
    ensures
        is_tsid_shaped(r@.id),
        r@ == unknown_record_view(r@.id, entry, file_metadata),
{
    let id = transient_book_id();
    unknown_transient_book_record_with_id(id, entry, file_metadata)
}

} // verus!

verus! {

/// The views of a sequence of records.
pub open spec fn records_view(v: Seq<TransientBookRecord>) -> Seq<RecordView> {
    v.map_values(|r: TransientBookRecord| r@)
}

/// Whether the records come in the order of their paths.
pub open spec fn sorted_by_path(s: Seq<RecordView>) -> bool {
    forall|i: int, j: int| 0 <= i < j < s.len() ==> !text_less(#[trigger] s[j].path, #[trigger] s[i].path)
}

proof fn lemma_insert_sorted(s: Seq<RecordView>, k: int, x: RecordView)
    requires
        sorted_by_path(s),
        0 <= k <= s.len(),
        forall|a: int| 0 <= a < k ==> !text_less(x.path, #[trigger] s[a].path),
        k < s.len() ==> text_less(x.path, s[k].path),
    ensures
        sorted_by_path(s.insert(k, x)),
{
    let t = s.insert(k, x);
    assert forall|i: int, j: int| 0 <= i < j < t.len() implies !text_less(
        #[trigger] t[j].path,
        #[trigger] t[i].path,
    ) by {
        if j < k {
            assert(t[i] == s[i] && t[j] == s[j]);
        } else if j == k {
            assert(t[i] == s[i]);
        } else if i < k {
            assert(t[i] == s[i] && t[j] == s[j - 1]);
            if text_less(s[j - 1].path, s[i].path) {
            }
        } else if i == k {
            assert(t[j] == s[j - 1]);
            if text_less(s[j - 1].path, x.path) {
                lemma_text_less_transitive(s[j - 1].path, x.path, s[k].path);
                if j - 1 == k {
                    lemma_text_less_irreflexive(s[k].path);
                }
            }
        } else {
            assert(t[i] == s[i - 1] && t[j] == s[j - 1]);
        }
    }
}

/// The records in the order of their paths.
pub fn sort_records_by_path(records: Vec<TransientBookRecord>) -> (r: Vec<TransientBookRecord>)
    ensures
        sorted_by_path(records_view(r@)),
        records_view(r@).to_multiset() == records_view(records@).to_multiset(),
{
    let ghost input = records_view(records@);
    let mut out: Vec<TransientBookRecord> = Vec::new();
    let mut i: usize = 0;
    assert(records_view(out@) =~= input.take(0));
    while i < records.len()
        invariant
            i <= records.len(),
            input == records_view(records@),
            sorted_by_path(records_view(out@)),
            records_view(out@).to_multiset() == input.take(i as int).to_multiset(),
        decreases records.len() - i,
    {
        let rec = records[i].clone();
        let ghost o = records_view(out@);
        let mut k: usize = 0;
        loop
            invariant
                k <= out.len(),
                i < records.len(),
                input.len() == records.len(),
                o == records_view(out@),
                rec@ == input[i as int],
                forall|a: int| 0 <= a < k ==> !text_less(rec@.path, #[trigger] o[a].path),
            ensures
                k <= out.len(),
                forall|a: int| 0 <= a < k ==> !text_less(rec@.path, #[trigger] o[a].path),
                k < out.len() ==> text_less(rec@.path, o[k as int].path),
            decreases out.len() - k,
        {
            if k == out.len() {
                break;
            }
            if text_lt(rec.path.as_str(), out[k].path.as_str()) {
                break;
            }
            k = k + 1;
        }
        proof {
            lemma_insert_sorted(o, k as int, rec@);
            assert(input.take(i + 1) =~= input.take(i as int).push(input[i as int]));
        }
        out.insert(k, rec);
        assert(records_view(out@) =~= o.insert(k as int, input[i as int]));
        proof {
            vstd::seq_lib::to_multiset_insert(o, k as int, input[i as int]);
            vstd::seq_lib::to_multiset_build(input.take(i as int), input[i as int]);
        }
        i = i + 1;
    }
    assert(input.take(i as int) =~= input);
    out
}

} // verus!

verus! {

/// The error type of the application's ports (`anyhow::Error`), carried through unread.
#[verifier::external_type_specification]
#[verifier::external_body]
pub struct ExAnyhowError(anyhow::Error);

/// A page's bytes and their media type.
#[derive(Debug, PartialEq, Eq)]
pub struct TransientBookPageContent {
    pub content_type: String,
    pub bytes: Vec<u8>,
}

/// Why a scan was refused.
#[derive(Debug, PartialEq, Eq)]
pub enum TransientBookScanError {
    BadRequest(String),
    Internal,
}

/// Why an analysis was refused.
#[derive(Debug, Clone, Copy, PartialEq, Eq, Structural)]
pub enum TransientBookAnalyzeError {
    NotFound,
    Internal,
}

/// Why a page could not be served.
#[derive(Debug, Clone, Copy, PartialEq, Eq, Structural)]
pub enum TransientBookPageError {
    NotFound,
    AnalysisFailed,
    FileMissing,
    BadPageNumber,
    Internal,
}

/// What the transient-book service asks of the file system and the media readers.
/// The application implements it.
pub trait TransientBookPort {
    /// Analyses the book file at `path`.
    fn analyze_transient_book(&self, path: &str) -> Result<TransientBookAnalysis, anyhow::Error>;

    /// Lists the book files under the directory `root`.
    fn list_transient_book_entries(&self, root: &str) -> Result<
        Vec<TransientBookScanEntry>,
        anyhow::Error,
    >;

    /// Reads the size and modification time of the file at `path`.
    fn load_transient_book_file_metadata(&self, path: &str) -> Result<
        TransientBookFileMetadata,
        anyhow::Error,
    >;

    /// Whether the file at `path` still exists.
    fn transient_book_exists(&self, path: &str) -> Result<bool, anyhow::Error>;

    /// The content of page `page_number` of the book at `path`, if it has that page.
    fn transient_book_page_content(
        &self,
        path: &str,
        media_type: &str,
        pages: &[TransientBookPage],
        page_number: u32,
    ) -> Result<Option<TransientBookPageContent>, anyhow::Error>;
}

/// Whether a record is an EPUB whose analysis found no page images.
pub open spec fn is_epub_without_pages(rec: RecordView) -> bool {
    rec.media_type == "application/epub+zip"@ && rec.pages.len() == 0
}

/// What the answer to whether the file of the ready book `rec` exists makes of a request
/// for page `page`: `None` where the page is then for the loader to give. A file that
/// cannot be checked is an internal error, a missing one `FileMissing`; an EPUB without
/// page images has no page beyond its count and is otherwise refused.
pub open spec fn spec_presence_outcome(
    rec: RecordView,
    page: u32,
    exists: Result<bool, anyhow::Error>,
) -> Option<Result<TransientBookPageContent, TransientBookPageError>> {
    match exists {
        Err(_) => Some(Err(TransientBookPageError::Internal)),
        Ok(false) => Some(Err(TransientBookPageError::FileMissing)),
        Ok(true) => if is_epub_without_pages(rec) {
            if rec.page_count > 0 && page > rec.page_count {
                Some(Err(TransientBookPageError::BadPageNumber))
            } else {
                Some(Err(TransientBookPageError::Internal))
            }
        } else {
            None
        },
    }
}

/// What the page loader's answer makes of a request: a failure is an internal error, a
/// missing page a bad page number, a page is served.
pub open spec fn spec_loaded_page(
    loaded: Result<Option<TransientBookPageContent>, anyhow::Error>,
) -> Result<TransientBookPageContent, TransientBookPageError> {
    match loaded {
        Err(_) => Err(TransientBookPageError::Internal),
        Ok(None) => Err(TransientBookPageError::BadPageNumber),
        Ok(Some(c)) => Ok(c),
    }
}

/// What the existence check's answer makes of a request for page `page` of the ready
/// book `record`; `None` where the loader is to be asked.
pub fn presence_outcome(
    record: &TransientBookRecord,
    page: u32,
    exists: Result<bool, anyhow::Error>,
) -> (r: Option<Result<TransientBookPageContent, TransientBookPageError>>)
    ensures
        r == spec_presence_outcome(record@, page, exists),
{
    match exists {
        Err(_) => Some(Err(TransientBookPageError::Internal)),
        Ok(false) => Some(Err(TransientBookPageError::FileMissing)),
        Ok(true) => {
            if text_eq(record.media_type.as_str(), "application/epub+zip") && record.pages.len()
                == 0 {
                if record.page_count > 0 && page > record.page_count {
                    Some(Err(TransientBookPageError::BadPageNumber))
                } else {
                    Some(Err(TransientBookPageError::Internal))
                }
            } else {
                None
            }
        },
    }
}

/// What the page loader's answer makes of a request.
pub fn loaded_page_outcome(loaded: Result<Option<TransientBookPageContent>, anyhow::Error>) -> (r:
    Result<TransientBookPageContent, TransientBookPageError>)
    ensures
        r == spec_loaded_page(loaded),
{
    match loaded {
        Err(_) => Err(TransientBookPageError::Internal),
        Ok(None) => Err(TransientBookPageError::BadPageNumber),
        Ok(Some(content)) => Ok(content),
    }
}

/// Whether `r` is what serving page `page` of the ready book `rec` answers, given what
/// `port` answered to what it was asked: whether the book's file exists, and, where
/// that answer leaves the page to the loader, the page of that path, media type and
/// pages.
pub open spec fn page_served<P: TransientBookPort>(
    port: P,
    rec: RecordView,
    page: u32,
    r: Result<TransientBookPageContent, TransientBookPageError>,
) -> bool {
    exists|path: &str, e: Result<bool, anyhow::Error>|
        #![trigger call_ensures(P::transient_book_exists, (&port, path), e)]
        {
            &&& path@ == rec.path
            &&& call_ensures(P::transient_book_exists, (&port, path), e)
            &&& match spec_presence_outcome(rec, page, e) {
                Some(x) => r == x,
                None => exists|
                    media_type: &str,
                    pages: &[TransientBookPage],
                    l: Result<Option<TransientBookPageContent>, anyhow::Error>,
                |
                    #![trigger call_ensures(P::transient_book_page_content, (&port, path, media_type, pages, page), l)]
                    {
                        &&& media_type@ == rec.media_type
                        &&& pages_view(pages@) == rec.pages
                        &&& call_ensures(
                            P::transient_book_page_content,
                            (&port, path, media_type, pages, page),
                            l,
                        )
                        &&& r == spec_loaded_page(l)
                    },
            }
        }
}

/// Whether `e` is what a scan answers when the root's validation failed with
/// `message`: the two validation errors that concern the request are the client's
/// fault, and carry their message.
pub open spec fn scan_refusal_fits(message: Seq<char>, e: TransientBookScanError) -> bool {
    if message == "ERR_1016"@ || message == "ERR_1017"@ {
        e matches TransientBookScanError::BadRequest(m) && m@ == message
    } else {
        e is Internal
    }
}

/// The next step of an analysis.
pub enum TransientBookAnalyzeStep {
    /// The media analysis is ready: infer the series and number of the book at `path`,
    /// then finish with `analysis`.
    InferSeries { path: String, analysis: TransientBookAnalysis },
    /// The analysis is over.
    Done(Result<TransientBookRecord, TransientBookAnalyzeError>),
}

/// Whether `r` and the store `after` are what starting an analysis of the book under
/// `id` at `now`, in the store `before`, may give: a missing book is not found and only
/// marked as accessed; a ready analysis of the book's file goes on to the inference.
pub open spec fn analyze_start_fits<P: TransientBookPort>(
    port: P,
    before: Seq<StoredBookView>,
    after: Seq<StoredBookView>,
    id: Seq<char>,
    r: TransientBookAnalyzeStep,
    now: i64,
) -> bool {
    let p = spec_prune(before, now);
    &&& (!store_has(p, id) ==> (r matches TransientBookAnalyzeStep::Done(
        Err(TransientBookAnalyzeError::NotFound),
    )) && after == spec_touch(p, id, now))
    &&& (r matches TransientBookAnalyzeStep::InferSeries { path, analysis } ==> {
        &&& analysis.status == MediaStatus::Ready
        &&& exists|rec: RecordView| store_holds(p, id, rec) && rec.path == path@
        &&& after == spec_touch(p, id, now)
    })
    &&& forall|rec: RecordView|
        #![trigger store_holds(p, id, rec)]
        store_holds(p, id, rec) ==> exists|path: &str, a: Result<TransientBookAnalysis, anyhow::Error>|
            #![trigger call_ensures(P::analyze_transient_book, (&port, path), a)]
            {
                &&& path@ == rec.path
                &&& call_ensures(P::analyze_transient_book, (&port, path), a)
                &&& analysis_answer_fits(spec_touch(p, id, now), after, id, a, r)
            }
}

/// The inference of a book whose analysis is not ready: no series, no number.
pub open spec fn empty_inference() -> TransientBookSeriesInference {
    TransientBookSeriesInference { series_id: None, number: None }
}

/// Whether `r` and the store `after` are what the port's analysis `a` of the book under
/// `id` makes of the store `touched`: a failed analysis is an internal error that
/// changes nothing more; a ready one goes on to the inference with that analysis; any
/// other is recorded at once, without a series or number.
pub open spec fn analysis_answer_fits(
    touched: Seq<StoredBookView>,
    after: Seq<StoredBookView>,
    id: Seq<char>,
    a: Result<TransientBookAnalysis, anyhow::Error>,
    r: TransientBookAnalyzeStep,
) -> bool {
    match a {
        Err(_) => (r matches TransientBookAnalyzeStep::Done(
            Err(TransientBookAnalyzeError::Internal),
        )) && after == touched,
        Ok(an) => if an.status == MediaStatus::Ready {
            (r matches TransientBookAnalyzeStep::InferSeries { analysis, .. } && analysis == an)
                && after == touched
        } else {
            r matches TransientBookAnalyzeStep::Done(res) && exists|now2: i64|
                analyze_finish_fits(touched, after, id, an, empty_inference(), res, now2)
        },
    }
}

/// Whether `r` and the store `after` are what recording `analysis` and `inference` in
/// the book under `id` at `now`, in the store `before`, gives.
pub open spec fn analyze_finish_fits(
    before: Seq<StoredBookView>,
    after: Seq<StoredBookView>,
    id: Seq<char>,
    analysis: TransientBookAnalysis,
    inference: TransientBookSeriesInference,
    r: Result<TransientBookRecord, TransientBookAnalyzeError>,
    now: i64,
) -> bool {
    &&& after == spec_record_analysis(spec_touch(spec_prune(before, now), id, now), id, analysis, inference)
    &&& (r is Ok <==> store_has(spec_prune(before, now), id))
}

/// The store after keeping each of `records` in turn, the `i`-th at `nows[i]`, each time
/// after forgetting the books expired by then.
pub open spec fn spec_insert_all(
    s: Seq<StoredBookView>,
    records: Seq<RecordView>,
    nows: Seq<i64>,
) -> Seq<StoredBookView>
    decreases records.len(),
{
    if records.len() == 0 || nows.len() == 0 {
        s
    } else {
        let before = spec_insert_all(s, records.drop_last(), nows.drop_last());
        let now = nows.last();
        spec_upsert(spec_prune(before, now), records.last().id, records.last(), now)
    }
}

/// Whether `rec` is the fresh record made of the listed `entry`: under a TSID-shaped id,
/// with the metadata that `port` answered for the entry's path.
pub open spec fn scan_record_fits<P: TransientBookPort>(
    port: P,
    entry: TransientBookScanEntry,
    rec: RecordView,
) -> bool {
    &&& is_tsid_shaped(rec.id)
    &&& exists|path: &str, m: TransientBookFileMetadata|
        #![trigger call_ensures(P::load_transient_book_file_metadata, (&port, path), Ok::<TransientBookFileMetadata, anyhow::Error>(m))]
        {
            &&& path@ == entry.path@
            &&& call_ensures(
                P::load_transient_book_file_metadata,
                (&port, path),
                Ok::<TransientBookFileMetadata, anyhow::Error>(m),
            )
            &&& rec == unknown_record_view(rec.id, entry, m)
        }
}

/// Whether `port` answered an error when asked for the metadata of `entry`'s path.
pub open spec fn metadata_failed<P: TransientBookPort>(port: P, entry: TransientBookScanEntry) -> bool {
    exists|path: &str, error: anyhow::Error|
        #![trigger call_ensures(P::load_transient_book_file_metadata, (&port, path), Err::<TransientBookFileMetadata, anyhow::Error>(error))]
        {
            &&& path@ == entry.path@
            &&& call_ensures(
                P::load_transient_book_file_metadata,
                (&port, path),
                Err::<TransientBookFileMetadata, anyhow::Error>(error),
            )
        }
}

/// Whether `r` and the store `after` are what a scan makes of the listing `listed` that
/// `port` gave, from the store `before`: a failed listing, or a failed metadata read of
/// a listed file, is an internal error that stores nothing; otherwise every listed file
/// gives one fresh record, and the records, sorted by path, are stored in turn.
pub open spec fn scan_fits<P: TransientBookPort>(
    port: P,
    listed: Result<Vec<TransientBookScanEntry>, anyhow::Error>,
    r: Result<Vec<TransientBookRecord>, TransientBookScanError>,
    before: Seq<StoredBookView>,
    after: Seq<StoredBookView>,
) -> bool {
    match listed {
        Err(_) => r matches Err(TransientBookScanError::Internal) && after == before,
        Ok(entries) => match r {
            Err(e) => {
                &&& e is Internal
                &&& after == before
                &&& exists|i: int|
                    0 <= i < entries.len() && #[trigger] metadata_failed(port, entries@[i])
            },
            Ok(v) => {
                &&& sorted_by_path(records_view(v@))
                &&& exists|made: Seq<RecordView>|
                    {
                        &&& made.len() == entries.len()
                        &&& forall|i: int|
                            0 <= i < made.len() ==> scan_record_fits(port, entries@[i], #[trigger] made[i])
                        &&& records_view(v@).to_multiset() == made.to_multiset()
                    }
                &&& exists|nows: Seq<i64>|
                    nows.len() == v.len() && after == spec_insert_all(before, records_view(v@), nows)
            },
        },
    }
}

/// Whether `rec` is a freshly scanned record: under a new id, with nothing analysed.
pub open spec fn is_fresh_record(rec: RecordView) -> bool {
    &&& is_tsid_shaped(rec.id)
    &&& rec.status == MediaStatus::Unknown
    &&& rec.media_type.len() == 0
    &&& rec.page_count == 0
    &&& rec.pages.len() == 0
    &&& rec.files.len() == 0
    &&& rec.comment.len() == 0
    &&& rec.number is None
    &&& rec.series_id is None
}

/// Scans, analyses and serves transient books through a port, keeping them in a
/// store.
pub struct TransientBookService<P: TransientBookPort> {
    port: P,
    store: TransientBooksStore,
}

/// Serves page `page` of the ready book `record` through `port`: the port is asked
/// whether the book's file exists, then, where that answer leaves the page to it, for
/// the page.
pub fn serve_ready_page<P: TransientBookPort>(port: &P, record: &TransientBookRecord, page: u32) -> (r:
    Result<TransientBookPageContent, TransientBookPageError>)
    ensures
        page_served(*port, record@, page, r),
{
    let path = record.path.as_str();
    let check = P::transient_book_exists;
    let exists = check(port, path);
    let ghost e = exists;
    if let Some(done) = presence_outcome(record, page, exists) {
        proof {
            assert(call_ensures(P::transient_book_exists, (port, path), e));
        }
        return done;
    }
    let load = P::transient_book_page_content;
    let media_type = record.media_type.as_str();
    let pages = record.pages.as_slice();
    let loaded = load(port, path, media_type, pages, page);
    proof {
        assert(call_ensures(P::transient_book_exists, (port, path), e));
        assert(pages_view(pages@) == record@.pages);
        assert(call_ensures(P::transient_book_page_content, (port, path, media_type, pages, page), loaded));
    }
    loaded_page_outcome(loaded)
}

impl<P: TransientBookPort> TransientBookService<P> {
    /// The books the service keeps.
    pub closed spec fn books(&self) -> Seq<StoredBookView> {
        self.store@
    }

    /// The port the service asks.
    pub closed spec fn port(&self) -> P {
        self.port
    }

    /// The service's invariant: its store's.
    #[verifier::type_invariant]
    spec fn wf(&self) -> bool {
        self.store.wf()
    }

    /// Forgets the expired books, then gives a copy of the book stored under `id`,
    /// marking it as accessed at `now`.
    fn stored_record_at(&mut self, id: &str, now: i64) -> (r: Option<TransientBookRecord>)
        ensures
            final(self).port() == old(self).port(),
            final(self).books() == spec_touch(spec_prune(old(self).books(), now), id@, now),
            r is Some <==> store_has(spec_prune(old(self).books(), now), id@),
            r matches Some(rec) ==> store_holds(spec_prune(old(self).books(), now), id@, rec@),
    {
        proof {
            use_type_invariant(&*self);
        }
        let mut store = TransientBooksStore::new();
        std::mem::swap(&mut store, &mut self.store);
        let r = store.get_cloned_at(id, now);
        self.store = store;
        r
    }

    /// Forgets the expired books, then stores `record` under its id, accessed at `now`.
    fn store_record_at(&mut self, record: TransientBookRecord, now: i64)
        ensures
            final(self).port() == old(self).port(),
            final(self).books() == spec_upsert(spec_prune(old(self).books(), now), record.id@, record@, now),
    {
        proof {
            use_type_invariant(&*self);
        }
        let mut store = TransientBooksStore::new();
        std::mem::swap(&mut store, &mut self.store);
        store.insert_at(record, now);
        self.store = store;
    }

    /// Forgets the expired books, then records `analysis` and `inference` in the book
    /// stored under `id`, marking it as accessed at `now`, and gives a copy of it.
    fn store_analysis_at(
        &mut self,
        id: &str,
        analysis: TransientBookAnalysis,
        inference: TransientBookSeriesInference,
        now: i64,
    ) -> (r: Option<TransientBookRecord>)
        ensures
            final(self).port() == old(self).port(),
            final(self).books() == spec_record_analysis(
                spec_touch(spec_prune(old(self).books(), now), id@, now),
                id@,
                analysis,
                inference,
            ),
            r is Some <==> store_has(spec_prune(old(self).books(), now), id@),
            r matches Some(rec) ==> store_holds(final(self).books(), id@, rec@),
    {
        proof {
            use_type_invariant(&*self);
        }
        let mut store = TransientBooksStore::new();
        std::mem::swap(&mut store, &mut self.store);
        let r = store.apply_analysis_at(id, analysis, inference, now);
        self.store = store;
        r
    }

    /// A service with an empty store.
    pub fn new(port: P) -> (r: Self)
        ensures
            r.books() == Seq::<StoredBookView>::empty(),
    {
        TransientBookService { port, store: TransientBooksStore::new() }
    }

    /// A service with the given store.
    pub fn with_store(port: P, store: TransientBooksStore) -> (r: Self)
        requires
            store.wf(),
        ensures
            r.books() == store@,
    {
        TransientBookService { port, store }
    }

    /// The modification time of the file of the book stored under `id`, marking the
    /// book as accessed.
    pub fn file_last_modified_nanos(&mut self, id: &str) -> (r: Option<i128>)
        ensures
            exists|now: i64|
                {
                    &&& final(self).books() == spec_touch(spec_prune(old(self).books(), now), id@, now)
                    &&& (r is Some <==> store_has(spec_prune(old(self).books(), now), id@))
                    &&& forall|rec: RecordView|
                        #![trigger store_holds(spec_prune(old(self).books(), now), id@, rec)]
                        store_holds(spec_prune(old(self).books(), now), id@, rec) ==> r
                            == Some(rec.file_last_modified_unix_nanos)
                },
    {
        proof {
            use_type_invariant(&*self);
        }
        let now = current_unix_epoch_seconds();
        let found = self.stored_record_at(id, now);
        proof {
            lemma_prune_keeps_keys_unique(old(self).books(), now);
            lemma_holds_unique(spec_prune(old(self).books(), now), id@);
        }
        match found {
            Some(record) => Some(record.file_last_modified_unix_nanos),
            None => None,
        }
    }

    /// Scans the directory `requested_path`, whose validation gave `validation` (the
    /// failure's message where it failed): each listed file becomes a fresh record,
    /// the records come in the order of their paths, and each is stored.
    pub fn scan(&mut self, requested_path: &str, validation: Result<(), String>) -> (r: Result<
        Vec<TransientBookRecord>,
        TransientBookScanError,
    >)
        ensures
            validation matches Err(m) ==> (r matches Err(e) && scan_refusal_fits(m@, e))
                && final(self).books() == old(self).books(),
            r matches Ok(v) ==> validation is Ok && sorted_by_path(records_view(v@)) && (forall|i: int|
                0 <= i < v.len() ==> is_fresh_record(#[trigger] v@[i]@)) && exists|nows: Seq<i64>|
                nows.len() == v.len() && final(self).books() == spec_insert_all(
                    old(self).books(),
                    records_view(v@),
                    nows,
                ),
            validation is Ok && r is Err ==> r matches Err(TransientBookScanError::Internal),
            validation is Ok ==> exists|listed: Result<Vec<TransientBookScanEntry>, anyhow::Error>|
                #![trigger call_ensures(P::list_transient_book_entries, (&old(self).port(), requested_path), listed)]
                call_ensures(
                    P::list_transient_book_entries,
                    (&old(self).port(), requested_path),
                    listed,
                ) && scan_fits(old(self).port(), listed, r, old(self).books(), final(self).books()),
    {
        proof {
            use_type_invariant(&*self);
        }
        match validation {
            Err(message) => {
                let refused = if text_eq(message.as_str(), "ERR_1016") || text_eq(
                    message.as_str(),
                    "ERR_1017",
                ) {
                    TransientBookScanError::BadRequest(message)
                } else {
                    TransientBookScanError::Internal
                };
                return Err(refused);
            },
            Ok(()) => {},
        }
        let list = P::list_transient_book_entries;
        let listed = list(&self.port, requested_path);
        let ghost listed_answer = listed;
        let entries = match listed {
            Err(_) => {
                return Err(TransientBookScanError::Internal);
            },
            Ok(entries) => entries,
        };
        let ghost port = self.port;
        let ghost mut made: Seq<RecordView> = Seq::empty();
        let mut records: Vec<TransientBookRecord> = Vec::new();
        let mut i: usize = 0;
        while i < entries.len()
            invariant
                i <= entries.len(),
                validation is Ok,
                self.books() == old(self).books(),
                port == self.port,
                port == old(self).port(),
                listed_answer == Ok::<Vec<TransientBookScanEntry>, anyhow::Error>(entries),
                call_ensures(P::list_transient_book_entries, (&port, requested_path), listed_answer),
                forall|k: int| 0 <= k < records.len() ==> is_fresh_record(#[trigger] records@[k]@),
                made.len() == i,
                records_view(records@) == made,
                forall|k: int| 0 <= k < i ==> scan_record_fits(port, entries@[k], #[trigger] made[k]),
            decreases entries.len() - i,
        {
            let entry = TransientBookScanEntry {
                path: entries[i].path.clone(),
                name: entries[i].name.clone(),
            };
            let ghost ge = entry;
            let path = entry.path.as_str();
            let load_metadata = P::load_transient_book_file_metadata;
            let loaded = load_metadata(&self.port, path);
            let metadata = match loaded {
                Err(error) => {
                    proof {
                        assert(call_ensures(P::load_transient_book_file_metadata, (&port, path), Err::<TransientBookFileMetadata, anyhow::Error>(error)));
                        assert(path@ == entries@[i as int].path@);
                        let ghost r = Err::<Vec<TransientBookRecord>, TransientBookScanError>(
                            TransientBookScanError::Internal,
                        );
                        assert(metadata_failed(port, entries@[i as int]));
                        assert(metadata_failed(port, listed_answer->Ok_0@[i as int]));
                        assert(scan_fits(port, listed_answer, r, old(self).books(), self.books()));
                    }
                    return Err(TransientBookScanError::Internal);
                },
                Ok(metadata) => metadata,
            };
            proof {
                assert(call_ensures(P::load_transient_book_file_metadata, (&port, path), Ok::<TransientBookFileMetadata, anyhow::Error>(metadata)));
            }
            let record = unknown_transient_book_record(entry, metadata);
            proof {
                assert(unknown_record_view(record@.id, ge, metadata) == unknown_record_view(record@.id, entries@[i as int], metadata));
                assert(scan_record_fits(port, entries@[i as int], record@));
                made = made.push(record@);
            }
            records.push(record);
            assert(records_view(records@) =~= made);
            i = i + 1;
        }
        let ghost unsorted = records_view(records@);
        let sorted = sort_records_by_path(records);
        proof {
            let sv = records_view(sorted@);
            assert forall|k: int| 0 <= k < sorted.len() implies is_fresh_record(
                #[trigger] sorted@[k]@,
            ) by {
                assert(sv[k] == sorted@[k]@);
                assert(sv.contains(sv[k]));
                vstd::seq_lib::to_multiset_contains(sv, sv[k]);
                vstd::seq_lib::to_multiset_contains(unsorted, sv[k]);
                let j = choose|j: int| 0 <= j < unsorted.len() && unsorted[j] == sv[k];
                assert(unsorted[j] == records@[j]@);
            }
        }
        let ghost sv = records_view(sorted@);
        let ghost mut nows: Seq<i64> = Seq::empty();
        let mut j: usize = 0;
        while j < sorted.len()
            invariant
                j <= sorted.len(),
                sv == records_view(sorted@),
                nows.len() == j,
                self.books() == spec_insert_all(old(self).books(), sv.take(j as int), nows),
            decreases sorted.len() - j,
        {
            let now = current_unix_epoch_seconds();
            let record = sorted[j].clone();
            self.store_record_at(record, now);
            proof {
                assert(sv.take(j + 1).drop_last() =~= sv.take(j as int));
                assert(nows.push(now).drop_last() =~= nows);
                nows = nows.push(now);
            }
            j = j + 1;
        }
        assert(sv.take(j as int) =~= sv);
        proof {
            assert(records_view(sorted@).to_multiset() == made.to_multiset());
        }
        Ok(sorted)
    }

    /// The book stored under `id` and the page to serve of it, marking the book as
    /// accessed: a page number below 1 is refused before the store is read; then the
    /// book must be stored and ready.
    pub fn page_record(&mut self, id: &str, page_number: i32) -> (r: Result<
        (TransientBookRecord, u32),
        TransientBookPageError,
    >)
        ensures
            final(self).port() == old(self).port(),
            page_number <= 0 ==> r == Err::<(TransientBookRecord, u32), TransientBookPageError>(
                TransientBookPageError::BadPageNumber,
            ) && final(self).books() == old(self).books(),
            page_number > 0 ==> exists|now: i64|
                {
                    &&& final(self).books() == spec_touch(spec_prune(old(self).books(), now), id@, now)
                    &&& (!store_has(spec_prune(old(self).books(), now), id@) ==> r == Err::<
                        (TransientBookRecord, u32),
                        TransientBookPageError,
                    >(TransientBookPageError::NotFound))
                    &&& forall|rec: RecordView|
                        #![trigger store_holds(spec_prune(old(self).books(), now), id@, rec)]
                        store_holds(spec_prune(old(self).books(), now), id@, rec) ==> if rec.status
                            != MediaStatus::Ready {
                            r == Err::<(TransientBookRecord, u32), TransientBookPageError>(
                                TransientBookPageError::AnalysisFailed,
                            )
                        } else {
                            r matches Ok((record, page)) && record@ == rec && page == page_number
                        }
                },
    {
        proof {
            use_type_invariant(&*self);
        }
        if page_number <= 0 {
            return Err(TransientBookPageError::BadPageNumber);
        }
        let page = page_number as u32;
        let now = current_unix_epoch_seconds();
        let found = self.stored_record_at(id, now);
        proof {
            lemma_prune_keeps_keys_unique(old(self).books(), now);
            lemma_holds_unique(spec_prune(old(self).books(), now), id@);
        }
        let record = match found {
            None => {
                return Err(TransientBookPageError::NotFound);
            },
            Some(record) => record,
        };
        if record.status != MediaStatus::Ready {
            return Err(TransientBookPageError::AnalysisFailed);
        }
        Ok((record, page))
    }

    /// Serves page `page_number` of the book stored under `id`, marking the book as
    /// accessed: a page number below 1 is refused before the store is read; then the
    /// book must be stored, ready, and its file present.
    pub fn page_content(&mut self, id: &str, page_number: i32) -> (r: Result<
        TransientBookPageContent,
        TransientBookPageError,
    >)
        ensures
            page_number <= 0 ==> r == Err::<TransientBookPageContent, TransientBookPageError>(
                TransientBookPageError::BadPageNumber,
            ) && final(self).books() == old(self).books(),
            page_number > 0 ==> exists|now: i64|
                {
                    &&& final(self).books() == spec_touch(spec_prune(old(self).books(), now), id@, now)
                    &&& (!store_has(spec_prune(old(self).books(), now), id@) ==> r == Err::<
                        TransientBookPageContent,
                        TransientBookPageError,
                    >(TransientBookPageError::NotFound))
                    &&& forall|rec: RecordView|
                        #![trigger store_holds(spec_prune(old(self).books(), now), id@, rec)]
                        store_holds(spec_prune(old(self).books(), now), id@, rec) ==> if rec.status
                            != MediaStatus::Ready {
                            r == Err::<TransientBookPageContent, TransientBookPageError>(
                                TransientBookPageError::AnalysisFailed,
                            )
                        } else {
                            page_served(old(self).port(), rec, page_number as u32, r)
                        }
                },
    {
        match self.page_record(id, page_number) {
            Err(e) => Err(e),
            Ok((record, page)) => serve_ready_page(&self.port, &record, page),
        }
    }

    /// Starts analysing the book stored under `id`, marking it as accessed: the port
    /// analyses its media; a ready analysis goes on to the series inference, any other
    /// is recorded at once without one.
    pub fn analyze_start(&mut self, id: &str) -> (r: TransientBookAnalyzeStep)
        ensures
            exists|now: i64|
                analyze_start_fits(old(self).port(), old(self).books(), final(self).books(), id@, r, now),
            r matches TransientBookAnalyzeStep::Done(Ok(rec)) ==> (rec.status != MediaStatus::Ready
                && store_holds(final(self).books(), id@, rec@)),
    {
        proof {
            use_type_invariant(&*self);
        }
        let now = current_unix_epoch_seconds();
        let found = self.stored_record_at(id, now);
        let record = match found {
            None => {
                let r = TransientBookAnalyzeStep::Done(Err(TransientBookAnalyzeError::NotFound));
                proof {
                    let p = spec_prune(old(self).books(), now);
                    assert forall|rec: RecordView| !store_holds(p, id@, rec) by {
                        if store_holds(p, id@, rec) {
                            let k = choose|k: int| 0 <= k < p.len() && p[k].id == id@ && p[k].record == rec;
                            assert(store_has(p, id@));
                        }
                    }
                }
                assert(analyze_start_fits(old(self).port(), old(self).books(), self.books(), id@, r, now));
                return r;
            },
            Some(record) => record,
        };
        proof {
            lemma_prune_keeps_keys_unique(old(self).books(), now);
            lemma_holds_unique(spec_prune(old(self).books(), now), id@);
        }
        let ghost touched = self.books();
        let path = record.path.as_str();
        let analyze = P::analyze_transient_book;
        let answer = analyze(&self.port, path);
        let ghost a = answer;
        proof {
            assert(call_ensures(P::analyze_transient_book, (&self.port, path), a));
        }
        let analysis = match answer {
            Err(_) => {
                let r = TransientBookAnalyzeStep::Done(Err(TransientBookAnalyzeError::Internal));
                assert(analysis_answer_fits(touched, self.books(), id@, a, r));
                assert(analyze_start_fits(old(self).port(), old(self).books(), self.books(), id@, r, now));
                return r;
            },
            Ok(analysis) => analysis,
        };
        if analysis.status == MediaStatus::Ready {
            let r = TransientBookAnalyzeStep::InferSeries { path: record.path.clone(), analysis };
            assert(analysis_answer_fits(touched, self.books(), id@, a, r));
            assert(analyze_start_fits(old(self).port(), old(self).books(), self.books(), id@, r, now));
            return r;
        }
        let ghost an = analysis;
        let none = TransientBookSeriesInference { series_id: None, number: None };
        let done = self.analyze_finish(id, analysis, Some(none));
        let r = TransientBookAnalyzeStep::Done(done);
        proof {
            let now2 = choose|now2: i64| analyze_finish_fits(touched, self.books(), id@, an, empty_inference(), done, now2);
            assert(analysis_answer_fits(touched, self.books(), id@, a, r));
        }
        assert(analyze_start_fits(old(self).port(), old(self).books(), self.books(), id@, r, now));
        r
    }

    /// Finishes analysing the book stored under `id`, marking it as accessed, with the
    /// series inference's result (`None` where it failed).
    pub fn analyze_finish(
        &mut self,
        id: &str,
        analysis: TransientBookAnalysis,
        inference: Option<TransientBookSeriesInference>,
    ) -> (r: Result<TransientBookRecord, TransientBookAnalyzeError>)
        ensures
            final(self).port() == old(self).port(),
            inference is None ==> r == Err::<TransientBookRecord, TransientBookAnalyzeError>(
                TransientBookAnalyzeError::Internal,
            ) && final(self).books() == old(self).books(),
            inference matches Some(inf) ==> exists|now: i64|
                analyze_finish_fits(old(self).books(), final(self).books(), id@, analysis, inf, r, now),
            r matches Ok(rec) ==> (store_holds(final(self).books(), id@, rec@) && rec@.status
                == analysis.status),
            r matches Err(e) ==> (e is Internal <==> inference is None),
    {
        proof {
            use_type_invariant(&*self);
        }
        match inference {
            None => Err(TransientBookAnalyzeError::Internal),
            Some(inf) => {
                let ghost a = analysis;
                let ghost i0 = inf;
                let now = current_unix_epoch_seconds();
                let r = match self.store_analysis_at(id, analysis, inf, now) {
                    None => Err(TransientBookAnalyzeError::NotFound),
                    Some(rec) => {
                        proof {
                            let s = self.books();
                            let i = choose|i: int| 0 <= i < s.len() && s[i].id == id@ && s[i].record == rec@;
                        }
                        Ok(rec)
                    },
                };
                assert(analyze_finish_fits(old(self).books(), self.books(), id@, a, i0, r, now));
                r
            },
        }
    }
}

proof fn lemma_prune_prefix(s: Seq<StoredBookView>, now: i64, i: int)
    requires
        store_keys_unique(s),
        0 <= i <= s.len(),
    ensures
        store_keys_unique(spec_prune(s.take(i), now)),
        forall|k: int|
            0 <= k < spec_prune(s.take(i), now).len() ==> exists|j: int|
                0 <= j < i && #[trigger] spec_prune(s.take(i), now)[k] == s[j],
    decreases i,
{
    let p = |e: StoredBookView| !spec_expired(e.last_access, now);
    if i == 0 {
        assert(s.take(0).filter(p) =~= Seq::<StoredBookView>::empty());
    } else {
        lemma_prune_prefix(s, now, i - 1);
        lemma_filter_take_step(s, p, i - 1);
        let before = spec_prune(s.take(i - 1), now);
        let after = spec_prune(s.take(i), now);
        if p(s[i - 1]) {
            assert(after == before.push(s[i - 1]));
            assert forall|a: int, b: int| 0 <= a < b < after.len() implies after[a].id
                != after[b].id by {
                if b == after.len() - 1 {
                    assert(after[a] == before[a]);
                    let j = choose|j: int| 0 <= j < i - 1 && before[a] == s[j];
                } else {
                    assert(after[a] == before[a] && after[b] == before[b]);
                }
            }
            assert forall|k: int| 0 <= k < after.len() implies exists|j: int|
                0 <= j < i && #[trigger] after[k] == s[j] by {
                if k == after.len() - 1 {
                    assert(after[k] == s[i - 1]);
                } else {
                    assert(after[k] == before[k]);
                    let j = choose|j: int| 0 <= j < i - 1 && before[k] == s[j];
                }
            }
        } else {
            assert(after == before);
        }
    }
}

/// Forgetting the expired books keeps the keys unique.
pub proof fn lemma_prune_keeps_keys_unique(s: Seq<StoredBookView>, now: i64)
    requires
        store_keys_unique(s),
    ensures
        store_keys_unique(spec_prune(s, now)),
{
    lemma_prune_prefix(s, now, s.len() as int);
    assert(s.take(s.len() as int) =~= s);
}

/// Keeping a record under a key keeps the keys unique.
pub proof fn lemma_upsert_keeps_keys_unique(
    s: Seq<StoredBookView>,
    id: Seq<char>,
    record: RecordView,
    now: i64,
)
    requires
        store_keys_unique(s),
    ensures
        store_keys_unique(spec_upsert(s, id, record, now)),
        store_holds(spec_upsert(s, id, record, now), id, record),
{
    let u = spec_upsert(s, id, record, now);
    if store_has(s, id) {
        assert forall|i: int, j: int| 0 <= i < j < u.len() implies u[i].id != u[j].id by {
            assert(s[i].id != s[j].id);
        }
        let k = choose|k: int| 0 <= k < s.len() && s[k].id == id;
        assert(u[k].id == id && u[k].record == record);
    } else {
        assert forall|i: int, j: int| 0 <= i < j < u.len() implies u[i].id != u[j].id by {
            if j < s.len() {
                assert(s[i].id != s[j].id);
            } else {
                assert(u[j].id == id && u[i] == s[i]);
            }
        }
        assert(u[s.len() as int].id == id && u[s.len() as int].record == record);
    }
}

/// A read gives back what was stored: a book stored at `t` is what a read within the
/// hour after finds under its id.
pub proof fn lemma_insert_then_get(
    s: Seq<StoredBookView>,
    record: RecordView,
    t: i64,
    now: i64,
)
    requires
        store_keys_unique(s),
        now - t < TRANSIENT_BOOKS_EXPIRE_AFTER_ACCESS_SECONDS,
    ensures
        store_has(spec_prune(spec_upsert(spec_prune(s, t), record.id, record, t), now), record.id),
        forall|r: RecordView|
            #![trigger store_holds(spec_prune(spec_upsert(spec_prune(s, t), record.id, record, t), now), record.id, r)]
            store_holds(spec_prune(spec_upsert(spec_prune(s, t), record.id, record, t), now), record.id, r)
                ==> r == record,
{
    let p = spec_prune(s, t);
    lemma_prune_keeps_keys_unique(s, t);
    let u = spec_upsert(p, record.id, record, t);
    lemma_upsert_keeps_keys_unique(p, record.id, record, t);
    let k = choose|k: int| 0 <= k < u.len() && u[k].id == record.id && u[k].record == record;
    assert(u[k].last_access == t) by {
        if store_has(p, record.id) {
        } else {
            if k < p.len() {
                assert(p[k].id == record.id);
            }
        }
    }
    let pred = |e: StoredBookView| !spec_expired(e.last_access, now);
    u.lemma_filter_contains(pred, k);
    let f = spec_prune(u, now);
    assert(f.contains(u[k]));
    let j = choose|j: int| 0 <= j < f.len() && f[j] == u[k];
    assert(store_has(f, record.id));
    lemma_prune_keeps_keys_unique(u, now);
    lemma_holds_unique(f, record.id);
    assert(store_holds(f, record.id, record));
}

/// A book whose last access is an hour or more before `now` is forgotten at `now`.
pub proof fn lemma_expired_book_is_forgotten(s: Seq<StoredBookView>, id: Seq<char>, now: i64)
    requires
        forall|i: int| 0 <= i < s.len() && #[trigger] s[i].id == id ==> spec_expired(s[i].last_access, now),
    ensures
        !store_has(spec_prune(s, now), id),
{
    let pred = |e: StoredBookView| !spec_expired(e.last_access, now);
    let f = s.filter(pred);
    if store_has(f, id) {
        let j = choose|j: int| 0 <= j < f.len() && f[j].id == id;
        s.lemma_filter_pred(pred, j);
        assert(f.contains(f[j]));
        s.lemma_filter_contains_rev(pred, f[j]);
        let i = choose|i: int| 0 <= i < s.len() && s[i] == f[j];
        assert(s[i].id == id);
    }
}

/// Replacing the record under a key keeps the keys unique: what a borrower of a stored
/// book leaves in it keeps the store's invariant.
pub proof fn lemma_record_replaced_keeps_keys_unique(s: Seq<StoredBookView>, id: Seq<char>)
    requires
        store_keys_unique(s),
    ensures
        forall|r: RecordView| #[trigger] store_keys_unique(spec_record_replaced(s, id, r)),
{
    assert forall|r: RecordView| #[trigger] store_keys_unique(spec_record_replaced(s, id, r)) by {
        let t = spec_record_replaced(s, id, r);
        assert forall|i: int, j: int| 0 <= i < j < t.len() implies t[i].id != t[j].id by {
            assert(s[i].id != s[j].id);
        }
    }
}

/// In a store whose keys are unique, a key holds at most one record.
pub proof fn lemma_holds_unique(s: Seq<StoredBookView>, id: Seq<char>)
    requires
        store_keys_unique(s),
    ensures
        forall|a: RecordView, b: RecordView|
            #![trigger store_holds(s, id, a), store_holds(s, id, b)]
            store_holds(s, id, a) && store_holds(s, id, b) ==> a == b,
{
    assert forall|a: RecordView, b: RecordView|
        store_holds(s, id, a) && store_holds(s, id, b) implies a == b by {
        let i = choose|i: int| 0 <= i < s.len() && s[i].id == id && s[i].record == a;
        let j = choose|j: int| 0 <= j < s.len() && s[j].id == id && s[j].record == b;
        if i < j {
            assert(s[i].id != s[j].id);
        } else if j < i {
            assert(s[j].id != s[i].id);
        }
    }
}

} // verus!
