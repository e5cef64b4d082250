//! The log of runtime events that the server pushes to clients over server-sent events.
use vstd::prelude::*;

use std::collections::VecDeque;

use crate::task_queue::opt_text_view;
use crate::text::{clone_opt_string, text_eq};

verus! {

/// How many events the log keeps; older ones are dropped.
pub const MAX_RUNTIME_SSE_EVENTS: usize = 1024;

/// The texts of a list of strings.
pub open spec fn texts_view(v: Seq<String>) -> Seq<Seq<char>> {
    v.map_values(|s: String| s@)
}

/// A copy of a list of strings.
pub fn clone_texts(v: &Vec<String>) -> (r: Vec<String>)
    ensures
        texts_view(r@) == texts_view(v@),
{
    let mut r: Vec<String> = Vec::new();
    let mut i: usize = 0;
    while i < v.len()
        invariant
            i <= v.len(),
            texts_view(r@) == texts_view(v@).take(i as int),
        decreases v.len() - i,
    {
        let ghost before = texts_view(r@);
        r.push(v[i].clone());
        assert(texts_view(r@) =~= before.push(v@[i as int]@));
        assert(texts_view(v@).take(i + 1) =~= texts_view(v@).take(i as int).push(v@[i as int]@));
        i = i + 1;
    }
    assert(texts_view(v@).take(i as int) =~= texts_view(v@));
    r
}

/// A change that the server announces to connected clients.
#[derive(Debug, PartialEq)]
#[allow(inconsistent_fields)]
pub enum RuntimeSseEvent {
    LibraryAdded { library_id: String },
    LibraryChanged { library_id: String },
    LibraryDeleted { library_id: String },
    SeriesAdded { series_id: String, library_id: String },
    SeriesChanged { series_id: String, library_id: String },
    BookAdded { book_id: String, series_id: String, library_id: String },
    BookChanged { book_id: String, series_id: String, library_id: String },
    BookImported { book_id: Option<String>, source_file: String, success: bool, message: Option<String> },
    CollectionAdded { collection_id: String, series_ids: Vec<String> },
    CollectionChanged { collection_id: String, series_ids: Vec<String> },
    CollectionDeleted { collection_id: String, series_ids: Vec<String> },
    ReadListAdded { readlist_id: String, book_ids: Vec<String> },
    ReadListChanged { readlist_id: String, book_ids: Vec<String> },
    ReadListDeleted { readlist_id: String, book_ids: Vec<String> },
    ReadProgressChanged { book_id: String, user_id: String },
    ReadProgressDeleted { book_id: String, user_id: String },
    ReadProgressSeriesChanged { series_id: String, user_id: String },
    ReadProgressSeriesDeleted { series_id: String, user_id: String },
    ThumbnailBookAdded { book_id: String, series_id: String, selected: bool },
    ThumbnailBookDeleted { book_id: String, series_id: String, selected: bool },
    ThumbnailSeriesAdded { series_id: String, selected: bool },
    ThumbnailSeriesDeleted { series_id: String, selected: bool },
    ThumbnailReadListAdded { readlist_id: String, selected: bool },
    ThumbnailReadListDeleted { readlist_id: String, selected: bool },
    ThumbnailCollectionAdded { collection_id: String, selected: bool },
    ThumbnailCollectionDeleted { collection_id: String, selected: bool },
    SessionExpired { user_id: String },
}

/// The mathematical content of a [`RuntimeSseEvent`].
#[allow(inconsistent_fields)]
pub enum RuntimeSseEventView {
    LibraryAdded { library_id: Seq<char> },
    LibraryChanged { library_id: Seq<char> },
    LibraryDeleted { library_id: Seq<char> },
    SeriesAdded { series_id: Seq<char>, library_id: Seq<char> },
    SeriesChanged { series_id: Seq<char>, library_id: Seq<char> },
    BookAdded { book_id: Seq<char>, series_id: Seq<char>, library_id: Seq<char> },
    BookChanged { book_id: Seq<char>, series_id: Seq<char>, library_id: Seq<char> },
    BookImported { book_id: Option<Seq<char>>, source_file: Seq<char>, success: bool, message: Option<Seq<char>> },
    CollectionAdded { collection_id: Seq<char>, series_ids: Seq<Seq<char>> },
    CollectionChanged { collection_id: Seq<char>, series_ids: Seq<Seq<char>> },
    CollectionDeleted { collection_id: Seq<char>, series_ids: Seq<Seq<char>> },
    ReadListAdded { readlist_id: Seq<char>, book_ids: Seq<Seq<char>> },
    ReadListChanged { readlist_id: Seq<char>, book_ids: Seq<Seq<char>> },
    ReadListDeleted { readlist_id: Seq<char>, book_ids: Seq<Seq<char>> },
    ReadProgressChanged { book_id: Seq<char>, user_id: Seq<char> },
    ReadProgressDeleted { book_id: Seq<char>, user_id: Seq<char> },
    ReadProgressSeriesChanged { series_id: Seq<char>, user_id: Seq<char> },
    ReadProgressSeriesDeleted { series_id: Seq<char>, user_id: Seq<char> },
    ThumbnailBookAdded { book_id: Seq<char>, series_id: Seq<char>, selected: bool },
    ThumbnailBookDeleted { book_id: Seq<char>, series_id: Seq<char>, selected: bool },
    ThumbnailSeriesAdded { series_id: Seq<char>, selected: bool },
    ThumbnailSeriesDeleted { series_id: Seq<char>, selected: bool },
    ThumbnailReadListAdded { readlist_id: Seq<char>, selected: bool },
    ThumbnailReadListDeleted { readlist_id: Seq<char>, selected: bool },
    ThumbnailCollectionAdded { collection_id: Seq<char>, selected: bool },
    ThumbnailCollectionDeleted { collection_id: Seq<char>, selected: bool },
    SessionExpired { user_id: Seq<char> },
}

impl View for RuntimeSseEvent {
    type V = RuntimeSseEventView;

    open spec fn view(&self) -> RuntimeSseEventView {
        match self {
            RuntimeSseEvent::LibraryAdded { library_id } => RuntimeSseEventView::LibraryAdded { library_id: library_id@ },
            RuntimeSseEvent::LibraryChanged { library_id } => RuntimeSseEventView::LibraryChanged { library_id: library_id@ },
            RuntimeSseEvent::LibraryDeleted { library_id } => RuntimeSseEventView::LibraryDeleted { library_id: library_id@ },
            RuntimeSseEvent::SeriesAdded { series_id, library_id } => RuntimeSseEventView::SeriesAdded { series_id: series_id@, library_id: library_id@ },
            RuntimeSseEvent::SeriesChanged { series_id, library_id } => RuntimeSseEventView::SeriesChanged { series_id: series_id@, library_id: library_id@ },
            RuntimeSseEvent::BookAdded { book_id, series_id, library_id } => RuntimeSseEventView::BookAdded { book_id: book_id@, series_id: series_id@, library_id: library_id@ },
            RuntimeSseEvent::BookChanged { book_id, series_id, library_id } => RuntimeSseEventView::BookChanged { book_id: book_id@, series_id: series_id@, library_id: library_id@ },
            RuntimeSseEvent::BookImported { book_id, source_file, success, message } => RuntimeSseEventView::BookImported { book_id: opt_text_view(*book_id), source_file: source_file@, success: *success, message: opt_text_view(*message) },
            RuntimeSseEvent::CollectionAdded { collection_id, series_ids } => RuntimeSseEventView::CollectionAdded { collection_id: collection_id@, series_ids: texts_view(series_ids@) },
            RuntimeSseEvent::CollectionChanged { collection_id, series_ids } => RuntimeSseEventView::CollectionChanged { collection_id: collection_id@, series_ids: texts_view(series_ids@) },
            RuntimeSseEvent::CollectionDeleted { collection_id, series_ids } => RuntimeSseEventView::CollectionDeleted { collection_id: collection_id@, series_ids: texts_view(series_ids@) },
            RuntimeSseEvent::ReadListAdded { readlist_id, book_ids } => RuntimeSseEventView::ReadListAdded { readlist_id: readlist_id@, book_ids: texts_view(book_ids@) },
            RuntimeSseEvent::ReadListChanged { readlist_id, book_ids } => RuntimeSseEventView::ReadListChanged { readlist_id: readlist_id@, book_ids: texts_view(book_ids@) },
            RuntimeSseEvent::ReadListDeleted { readlist_id, book_ids } => RuntimeSseEventView::ReadListDeleted { readlist_id: readlist_id@, book_ids: texts_view(book_ids@) },
            RuntimeSseEvent::ReadProgressChanged { book_id, user_id } => RuntimeSseEventView::ReadProgressChanged { book_id: book_id@, user_id: user_id@ },
            RuntimeSseEvent::ReadProgressDeleted { book_id, user_id } => RuntimeSseEventView::ReadProgressDeleted { book_id: book_id@, user_id: user_id@ },
            RuntimeSseEvent::ReadProgressSeriesChanged { series_id, user_id } => RuntimeSseEventView::ReadProgressSeriesChanged { series_id: series_id@, user_id: user_id@ },
            RuntimeSseEvent::ReadProgressSeriesDeleted { series_id, user_id } => RuntimeSseEventView::ReadProgressSeriesDeleted { series_id: series_id@, user_id: user_id@ },
            RuntimeSseEvent::ThumbnailBookAdded { book_id, series_id, selected } => RuntimeSseEventView::ThumbnailBookAdded { book_id: book_id@, series_id: series_id@, selected: *selected },
            RuntimeSseEvent::ThumbnailBookDeleted { book_id, series_id, selected } => RuntimeSseEventView::ThumbnailBookDeleted { book_id: book_id@, series_id: series_id@, selected: *selected },
            RuntimeSseEvent::ThumbnailSeriesAdded { series_id, selected } => RuntimeSseEventView::ThumbnailSeriesAdded { series_id: series_id@, selected: *selected },
            RuntimeSseEvent::ThumbnailSeriesDeleted { series_id, selected } => RuntimeSseEventView::ThumbnailSeriesDeleted { series_id: series_id@, selected: *selected },
            RuntimeSseEvent::ThumbnailReadListAdded { readlist_id, selected } => RuntimeSseEventView::ThumbnailReadListAdded { readlist_id: readlist_id@, selected: *selected },
            RuntimeSseEvent::ThumbnailReadListDeleted { readlist_id, selected } => RuntimeSseEventView::ThumbnailReadListDeleted { readlist_id: readlist_id@, selected: *selected },
            RuntimeSseEvent::ThumbnailCollectionAdded { collection_id, selected } => RuntimeSseEventView::ThumbnailCollectionAdded { collection_id: collection_id@, selected: *selected },
            RuntimeSseEvent::ThumbnailCollectionDeleted { collection_id, selected } => RuntimeSseEventView::ThumbnailCollectionDeleted { collection_id: collection_id@, selected: *selected },
            RuntimeSseEvent::SessionExpired { user_id } => RuntimeSseEventView::SessionExpired { user_id: user_id@ },
        }
    }
}

impl Clone for RuntimeSseEvent {
    fn clone(&self) -> (r: Self)
        ensures
            r@ == self@,
    {
        match self {
            RuntimeSseEvent::LibraryAdded { library_id } => RuntimeSseEvent::LibraryAdded { library_id: library_id.clone() },
            RuntimeSseEvent::LibraryChanged { library_id } => RuntimeSseEvent::LibraryChanged { library_id: library_id.clone() },
            RuntimeSseEvent::LibraryDeleted { library_id } => RuntimeSseEvent::LibraryDeleted { library_id: library_id.clone() },
            RuntimeSseEvent::SeriesAdded { series_id, library_id } => RuntimeSseEvent::SeriesAdded { series_id: series_id.clone(), library_id: library_id.clone() },
            RuntimeSseEvent::SeriesChanged { series_id, library_id } => RuntimeSseEvent::SeriesChanged { series_id: series_id.clone(), library_id: library_id.clone() },
            RuntimeSseEvent::BookAdded { book_id, series_id, library_id } => RuntimeSseEvent::BookAdded { book_id: book_id.clone(), series_id: series_id.clone(), library_id: library_id.clone() },
            RuntimeSseEvent::BookChanged { book_id, series_id, library_id } => RuntimeSseEvent::BookChanged { book_id: book_id.clone(), series_id: series_id.clone(), library_id: library_id.clone() },
            RuntimeSseEvent::BookImported { book_id, source_file, success, message } => RuntimeSseEvent::BookImported { book_id: clone_opt_string(book_id), source_file: source_file.clone(), success: *success, message: clone_opt_string(message) },
            RuntimeSseEvent::CollectionAdded { collection_id, series_ids } => RuntimeSseEvent::CollectionAdded { collection_id: collection_id.clone(), series_ids: clone_texts(series_ids) },
            RuntimeSseEvent::CollectionChanged { collection_id, series_ids } => RuntimeSseEvent::CollectionChanged { collection_id: collection_id.clone(), series_ids: clone_texts(series_ids) },
            RuntimeSseEvent::CollectionDeleted { collection_id, series_ids } => RuntimeSseEvent::CollectionDeleted { collection_id: collection_id.clone(), series_ids: clone_texts(series_ids) },
            RuntimeSseEvent::ReadListAdded { readlist_id, book_ids } => RuntimeSseEvent::ReadListAdded { readlist_id: readlist_id.clone(), book_ids: clone_texts(book_ids) },
            RuntimeSseEvent::ReadListChanged { readlist_id, book_ids } => RuntimeSseEvent::ReadListChanged { readlist_id: readlist_id.clone(), book_ids: clone_texts(book_ids) },
            RuntimeSseEvent::ReadListDeleted { readlist_id, book_ids } => RuntimeSseEvent::ReadListDeleted { readlist_id: readlist_id.clone(), book_ids: clone_texts(book_ids) },
            RuntimeSseEvent::ReadProgressChanged { book_id, user_id } => RuntimeSseEvent::ReadProgressChanged { book_id: book_id.clone(), user_id: user_id.clone() },
            RuntimeSseEvent::ReadProgressDeleted { book_id, user_id } => RuntimeSseEvent::ReadProgressDeleted { book_id: book_id.clone(), user_id: user_id.clone() },
            RuntimeSseEvent::ReadProgressSeriesChanged { series_id, user_id } => RuntimeSseEvent::ReadProgressSeriesChanged { series_id: series_id.clone(), user_id: user_id.clone() },
            RuntimeSseEvent::ReadProgressSeriesDeleted { series_id, user_id } => RuntimeSseEvent::ReadProgressSeriesDeleted { series_id: series_id.clone(), user_id: user_id.clone() },
            RuntimeSseEvent::ThumbnailBookAdded { book_id, series_id, selected } => RuntimeSseEvent::ThumbnailBookAdded { book_id: book_id.clone(), series_id: series_id.clone(), selected: *selected },
            RuntimeSseEvent::ThumbnailBookDeleted { book_id, series_id, selected } => RuntimeSseEvent::ThumbnailBookDeleted { book_id: book_id.clone(), series_id: series_id.clone(), selected: *selected },
            RuntimeSseEvent::ThumbnailSeriesAdded { series_id, selected } => RuntimeSseEvent::ThumbnailSeriesAdded { series_id: series_id.clone(), selected: *selected },
            RuntimeSseEvent::ThumbnailSeriesDeleted { series_id, selected } => RuntimeSseEvent::ThumbnailSeriesDeleted { series_id: series_id.clone(), selected: *selected },
            RuntimeSseEvent::ThumbnailReadListAdded { readlist_id, selected } => RuntimeSseEvent::ThumbnailReadListAdded { readlist_id: readlist_id.clone(), selected: *selected },
            RuntimeSseEvent::ThumbnailReadListDeleted { readlist_id, selected } => RuntimeSseEvent::ThumbnailReadListDeleted { readlist_id: readlist_id.clone(), selected: *selected },
            RuntimeSseEvent::ThumbnailCollectionAdded { collection_id, selected } => RuntimeSseEvent::ThumbnailCollectionAdded { collection_id: collection_id.clone(), selected: *selected },
            RuntimeSseEvent::ThumbnailCollectionDeleted { collection_id, selected } => RuntimeSseEvent::ThumbnailCollectionDeleted { collection_id: collection_id.clone(), selected: *selected },
            RuntimeSseEvent::SessionExpired { user_id } => RuntimeSseEvent::SessionExpired { user_id: user_id.clone() },
        }
    }
}

/// Only administrators may see this event.
pub open spec fn spec_admin_only(e: RuntimeSseEventView) -> bool {
    e is BookImported
}

/// The one user who may see this event, when it concerns a single user.
pub open spec fn spec_user_id_only(e: RuntimeSseEventView) -> Option<Seq<char>> {
    match e {
        RuntimeSseEventView::ReadProgressChanged { user_id, .. } => Some(user_id),
        RuntimeSseEventView::ReadProgressDeleted { user_id, .. } => Some(user_id),
        RuntimeSseEventView::ReadProgressSeriesChanged { user_id, .. } => Some(user_id),
        RuntimeSseEventView::ReadProgressSeriesDeleted { user_id, .. } => Some(user_id),
        RuntimeSseEventView::SessionExpired { user_id } => Some(user_id),
        _ => None,
    }
}

impl RuntimeSseEvent {
    /// Only administrators may see this event.
    pub fn admin_only(&self) -> (r: bool)
        ensures
            r == spec_admin_only(self@),
    {
        match self {
            RuntimeSseEvent::BookImported { .. } => true,
            _ => false,
        }
    }

    /// The one user who may see this event, when it concerns a single user.
    pub fn user_id_only(&self) -> (r: Option<&str>)
        ensures
            match r {
                Some(u) => spec_user_id_only(self@) == Some(u@),
                None => spec_user_id_only(self@) is None,
            },
            match self@ {
                RuntimeSseEventView::ReadProgressChanged { user_id, .. } => r matches Some(u) && u@
                    == user_id,
                RuntimeSseEventView::ReadProgressDeleted { user_id, .. } => r matches Some(u) && u@
                    == user_id,
                RuntimeSseEventView::ReadProgressSeriesChanged { user_id, .. } => r matches Some(u)
                    && u@ == user_id,
                RuntimeSseEventView::ReadProgressSeriesDeleted { user_id, .. } => r matches Some(u)
                    && u@ == user_id,
                RuntimeSseEventView::SessionExpired { user_id } => r matches Some(u) && u@ == user_id,
                _ => r is None,
            },
    {
        match self {
            RuntimeSseEvent::ReadProgressChanged { user_id, .. } => Some(user_id.as_str()),
            RuntimeSseEvent::ReadProgressDeleted { user_id, .. } => Some(user_id.as_str()),
            RuntimeSseEvent::ReadProgressSeriesChanged { user_id, .. } => Some(user_id.as_str()),
            RuntimeSseEvent::ReadProgressSeriesDeleted { user_id, .. } => Some(user_id.as_str()),
            RuntimeSseEvent::SessionExpired { user_id } => Some(user_id.as_str()),
            _ => None,
        }
    }
}

/// A registered event with the id it was given.
#[derive(Debug, PartialEq)]
pub struct RuntimeSseEventRecord {
    pub id: u64,
    pub event: RuntimeSseEvent,
}

/// The mathematical content of a [`RuntimeSseEventRecord`].
pub struct RecordView {
    pub id: u64,
    pub event: RuntimeSseEventView,
}

impl View for RuntimeSseEventRecord {
    type V = RecordView;

    open spec fn view(&self) -> RecordView {
        RecordView { id: self.id, event: self.event@ }
    }
}

impl Clone for RuntimeSseEventRecord {
    fn clone(&self) -> (r: Self)
        ensures
            r@ == self@,
    {
        RuntimeSseEventRecord { id: self.id, event: self.event.clone() }
    }
}

/// The views of a sequence of records.
pub open spec fn records_view(v: Seq<RuntimeSseEventRecord>) -> Seq<RecordView> {
    v.map_values(|r: RuntimeSseEventRecord| r@)
}

/// The events that a client has not seen yet, and the cursor to resume from.
#[derive(Debug, PartialEq)]
pub struct RuntimeSseEventBatch {
    pub current_cursor: u64,
    pub events: Vec<RuntimeSseEventRecord>,
}

/// The mathematical state of a [`RuntimeSseEventStore`]: the last id given, and the
/// records kept, oldest first.
pub struct EventLogView {
    pub last_event_id: u64,
    pub events: Seq<RecordView>,
}

/// The recent runtime events, each with an increasing id.
#[derive(Debug)]
pub struct RuntimeSseEventStore {
    last_event_id: u64,
    events: VecDeque<RuntimeSseEventRecord>,
}

impl View for RuntimeSseEventStore {
    type V = EventLogView;

    closed spec fn view(&self) -> EventLogView {
        EventLogView { last_event_id: self.last_event_id, events: records_view(self.events@) }
    }
}

/// The records kept are the latest ids, consecutive and ending at the last id given,
/// and there are at most [`MAX_RUNTIME_SSE_EVENTS`] of them.
pub open spec fn event_log_wf(s: EventLogView) -> bool {
    &&& s.events.len() <= MAX_RUNTIME_SSE_EVENTS
    &&& s.events.len() <= s.last_event_id
    &&& forall|i: int|
        0 <= i < s.events.len() ==> #[trigger] s.events[i].id == s.last_event_id - s.events.len()
            + 1 + i
}

/// The log after `event` is registered: it gets the next id, goes at the end, and the
/// oldest records are dropped beyond [`MAX_RUNTIME_SSE_EVENTS`].
pub open spec fn spec_register(s: EventLogView, event: RuntimeSseEventView) -> EventLogView {
    let id = (s.last_event_id + 1) as u64;
    let pushed = s.events.push(RecordView { id, event });
    EventLogView {
        last_event_id: id,
        events: if pushed.len() > MAX_RUNTIME_SSE_EVENTS {
            pushed.skip(pushed.len() - MAX_RUNTIME_SSE_EVENTS)
        } else {
            pushed
        },
    }
}

/// A client that last saw `last_seen` and is `user_id` (an administrator when `admin`)
/// is shown this record.
pub open spec fn visible_to(r: RecordView, last_seen: u64, user_id: Seq<char>, admin: bool) -> bool {
    &&& r.id > last_seen
    &&& (!spec_admin_only(r.event) || admin)
    &&& match spec_user_id_only(r.event) {
        Some(u) => u == user_id,
        None => true,
    }
}

/// The records of `s` shown to such a client, oldest first.
pub open spec fn spec_pending(s: Seq<RecordView>, last_seen: u64, user_id: Seq<char>, admin: bool) -> Seq<
    RecordView,
> {
    s.filter(|r: RecordView| visible_to(r, last_seen, user_id, admin))
}

/// Whether `e` may be shown to `user`, as far as the user it concerns goes: a change to
/// a user's read progress, of a book or of a series, and the expiry of a user's session
/// concern that user alone; every other event concerns no single user.
pub open spec fn concerns_only_another_user(e: RuntimeSseEventView, user: Seq<char>) -> bool {
    match e {
        RuntimeSseEventView::ReadProgressChanged { user_id, .. } => user_id != user,
        RuntimeSseEventView::ReadProgressDeleted { user_id, .. } => user_id != user,
        RuntimeSseEventView::ReadProgressSeriesChanged { user_id, .. } => user_id != user,
        RuntimeSseEventView::ReadProgressSeriesDeleted { user_id, .. } => user_id != user,
        RuntimeSseEventView::SessionExpired { user_id } => user_id != user,
        _ => false,
    }
}

/// No client is shown an event about another user's read progress or session, whether
/// or not it is an administrator; and an event that concerns no single user is shown to
/// every client that has not seen it yet, but for the administrators' own events.
pub proof fn lemma_pending_hides_other_users_events(
    s: Seq<RecordView>,
    last_seen: u64,
    user: Seq<char>,
    admin: bool,
)
    ensures
        forall|i: int|
            0 <= i < spec_pending(s, last_seen, user, admin).len() ==> !concerns_only_another_user(
                #[trigger] spec_pending(s, last_seen, user, admin)[i].event,
                user,
            ),
        forall|r: RecordView|
            concerns_only_another_user(r.event, user) ==> !#[trigger] visible_to(r, last_seen, user, admin),
        forall|r: RecordView|
            r.id > last_seen && !(r.event is BookImported) && !(r.event is ReadProgressChanged)
                && !(r.event is ReadProgressDeleted) && !(r.event is ReadProgressSeriesChanged)
                && !(r.event is ReadProgressSeriesDeleted) && !(r.event is SessionExpired)
                ==> #[trigger] visible_to(r, last_seen, user, admin),
{
    let p = |r: RecordView| visible_to(r, last_seen, user, admin);
    assert forall|i: int| 0 <= i < spec_pending(s, last_seen, user, admin).len() implies !concerns_only_another_user(
        #[trigger] spec_pending(s, last_seen, user, admin)[i].event,
        user,
    ) by {
        s.lemma_filter_pred(p, i);
    }
}

impl Default for RuntimeSseEventStore {
    fn default() -> (r: Self)
        ensures
            r@ == (EventLogView { last_event_id: 0, events: Seq::empty() }),
    {
        let r = RuntimeSseEventStore { last_event_id: 0, events: VecDeque::new() };
        assert(records_view(r.events@) =~= Seq::<RecordView>::empty());
        r
    }
}

impl RuntimeSseEventStore {
    /// Records `event` under the next id and returns that id.
    pub fn register(&mut self, event: RuntimeSseEvent) -> (r: u64)
        requires
            old(self)@.last_event_id < u64::MAX,
        ensures
            r == old(self)@.last_event_id + 1,
            final(self)@ == spec_register(old(self)@, event@),
    {
        self.last_event_id = self.last_event_id + 1;
        let event_id = self.last_event_id;
        let ghost ev = event@;
        let ghost pushed = records_view(old(self).events@).push(RecordView { id: event_id, event: ev });
        self.events.push_back(RuntimeSseEventRecord { id: event_id, event });
        assert(records_view(self.events@) =~= pushed);
        let ghost start = records_view(self.events@).len();
        while self.events.len() > MAX_RUNTIME_SSE_EVENTS
            invariant
                self.last_event_id == event_id,
                pushed.len() == start,
                records_view(self.events@) == pushed.skip(start - self.events@.len()),
                self.events@.len() <= start,
                start > MAX_RUNTIME_SSE_EVENTS ==> self.events@.len() >= MAX_RUNTIME_SSE_EVENTS,
                start <= MAX_RUNTIME_SSE_EVENTS ==> self.events@.len() == start,
            decreases self.events.len(),
        {
            let ghost old_events = self.events@;
            let _ = self.events.pop_front();
            assert(self.events@ =~= old_events.subrange(1, old_events.len() as int));
            assert(records_view(self.events@) =~= records_view(old_events).skip(1));
            assert(records_view(self.events@) =~= pushed.skip(start - self.events@.len()));
        }
        proof {
            if pushed.len() <= MAX_RUNTIME_SSE_EVENTS {
                assert(pushed.skip(0) =~= pushed);
            }
        }
        event_id
    }
}

/// Receives runtime events to publish.
pub trait RuntimeSseEventSink {
    fn register(&self, event: RuntimeSseEvent);
}

/// Reads the published runtime events.
pub trait RuntimeSseEventLog {
    fn current_cursor(&self) -> u64;

    fn pending_events(&self, last_seen_event_id: u64, user_id: &str, admin: bool) -> RuntimeSseEventBatch;
}

impl RuntimeSseEventLog for RuntimeSseEventStore {
    /// The id of the last registered event.
    fn current_cursor(&self) -> (r: u64)
        ensures
            r == self@.last_event_id,
    {
        self.last_event_id
    }

    /// The kept events newer than `last_seen_event_id` that `user_id` may see, oldest
    /// first, with the current cursor.
    fn pending_events(&self, last_seen_event_id: u64, user_id: &str, admin: bool) -> (r:
        RuntimeSseEventBatch)
        ensures
            r.current_cursor == self@.last_event_id,
            records_view(r.events@) == spec_pending(self@.events, last_seen_event_id, user_id@, admin),
    {
        let ghost s = records_view(self.events@);
        let ghost p = |r: RecordView| visible_to(r, last_seen_event_id, user_id@, admin);
        let mut events: Vec<RuntimeSseEventRecord> = Vec::new();
        let mut i: usize = 0;
        while i < self.events.len()
            invariant
                p == (|r: RecordView| visible_to(r, last_seen_event_id, user_id@, admin)),
                s == records_view(self.events@),
                i <= self.events.len(),
                records_view(events@) == s.take(i as int).filter(p),
            decreases self.events.len() - i,
        {
            proof {
                crate::task_queue::lemma_filter_take_step(s, p, i as int);
                assert(s[i as int] == self.events@[i as int]@);
            }
            let record = &self.events[i];
            let shown = record.id > last_seen_event_id && (!record.event.admin_only() || admin)
                && match record.event.user_id_only() {
                Some(expected) => text_eq(expected, user_id),
                None => true,
            };
            if shown {
                let ghost before = records_view(events@);
                events.push(record.clone());
                assert(records_view(events@) =~= before.push(s[i as int]));
            }
            i = i + 1;
        }
        assert(s.take(s.len() as int) =~= s);
        RuntimeSseEventBatch { current_cursor: self.last_event_id, events }
    }
}

/// Registering an event keeps the log well formed: at most
/// [`MAX_RUNTIME_SSE_EVENTS`] records, with consecutive ids ending at the last id given.
pub proof fn lemma_register_keeps_wf(s: EventLogView, event: RuntimeSseEventView)
    requires
        event_log_wf(s),
        s.last_event_id < u64::MAX,
    ensures
        event_log_wf(spec_register(s, event)),
{
    let t = spec_register(s, event);
    let id = (s.last_event_id + 1) as u64;
    let pushed = s.events.push(RecordView { id, event });
    assert forall|i: int| 0 <= i < pushed.len() implies #[trigger] pushed[i].id == id
        - pushed.len() + 1 + i by {
        if i < s.events.len() {
            assert(pushed[i] == s.events[i]);
        }
    }
    if pushed.len() > MAX_RUNTIME_SSE_EVENTS {
        let d = pushed.len() - MAX_RUNTIME_SSE_EVENTS;
        assert forall|i: int| 0 <= i < t.events.len() implies #[trigger] t.events[i].id == t.last_event_id
            - t.events.len() + 1 + i by {
            assert(t.events[i] == pushed[i + d]);
        }
    }
}

/// The log holds as many records as it may: every id handed out, up to the cap.
pub open spec fn event_log_full(s: EventLogView) -> bool {
    s.events.len() == if s.last_event_id < MAX_RUNTIME_SSE_EVENTS {
        s.last_event_id as int
    } else {
        MAX_RUNTIME_SSE_EVENTS as int
    }
}

/// Registering keeps the log full.
pub proof fn lemma_register_keeps_full(s: EventLogView, event: RuntimeSseEventView)
    requires
        event_log_full(s),
        s.last_event_id < u64::MAX,
    ensures
        event_log_full(spec_register(s, event)),
{
}

/// The log after each of `events` is registered in turn, starting from `s`.
pub open spec fn spec_register_all(s: EventLogView, events: Seq<RuntimeSseEventView>) -> EventLogView
    decreases events.len(),
{
    if events.len() == 0 {
        s
    } else {
        spec_register(spec_register_all(s, events.drop_last()), events.last())
    }
}

/// The records that registering `events` in turn, on an empty log, keeps: the last
/// `min(n, MAX_RUNTIME_SSE_EVENTS)` of them, the `k`-th registered under id `k`.
pub open spec fn latest_records(events: Seq<RuntimeSseEventView>) -> Seq<RecordView> {
    let n = events.len() as int;
    let m = if n < MAX_RUNTIME_SSE_EVENTS { n } else { MAX_RUNTIME_SSE_EVENTS as int };
    Seq::new(m as nat, |j: int| RecordView { id: (n - m + 1 + j) as u64, event: events[n - m + j] })
}

/// A log that starts empty and has `events` registered in turn has handed out the ids 1
/// to `n` and keeps exactly the records of ids `max(1, n - 1023)` to `n`, oldest first,
/// each with the event registered under its id.
pub proof fn lemma_register_run_keeps_latest(events: Seq<RuntimeSseEventView>)
    requires
        events.len() < u64::MAX,
    ensures
        spec_register_all(EventLogView { last_event_id: 0, events: Seq::empty() }, events).last_event_id
            == events.len(),
        spec_register_all(EventLogView { last_event_id: 0, events: Seq::empty() }, events).events
            == latest_records(events),
    decreases events.len(),
{
    let empty = EventLogView { last_event_id: 0, events: Seq::<RecordView>::empty() };
    if events.len() == 0 {
        assert(latest_records(events) =~= Seq::<RecordView>::empty());
    } else {
        let before = events.drop_last();
        lemma_register_run_keeps_latest(before);
        let s = spec_register_all(empty, before);
        let e = events.last();
        let n = events.len() as int;
        let pushed = s.events.push(RecordView { id: n as u64, event: e });
        let after = spec_register(s, e);
        assert(after == spec_register_all(empty, events));
        if pushed.len() > MAX_RUNTIME_SSE_EVENTS {
            assert(after.events =~= latest_records(events)) by {
                assert forall|j: int| 0 <= j < after.events.len() implies after.events[j]
                    == latest_records(events)[j] by {
                    assert(after.events[j] == pushed[j + 1]);
                    if j + 1 < s.events.len() {
                        assert(pushed[j + 1] == s.events[j + 1]);
                        assert(before[n - 1 - MAX_RUNTIME_SSE_EVENTS + j + 1] == events[n - MAX_RUNTIME_SSE_EVENTS
                            + j]);
                    }
                }
            }
        } else {
            assert(after.events =~= latest_records(events)) by {
                assert forall|j: int| 0 <= j < after.events.len() implies after.events[j]
                    == latest_records(events)[j] by {
                    if j < s.events.len() {
                        assert(pushed[j] == s.events[j]);
                        assert(before[j] == events[j]);
                    }
                }
            }
        }
    }
}

/// A well-formed, full log holds exactly the records of the latest ids: those from
/// `max(1, last - 1023)` to the last id handed out.
pub proof fn lemma_log_holds_latest_ids(s: EventLogView, id: int)
    requires
        event_log_wf(s),
        event_log_full(s),
    ensures
        (exists|i: int| 0 <= i < s.events.len() && #[trigger] s.events[i].id == id) <==> (1 <= id
            <= s.last_event_id && id > s.last_event_id - MAX_RUNTIME_SSE_EVENTS),
{
    if 1 <= id <= s.last_event_id && id > s.last_event_id - MAX_RUNTIME_SSE_EVENTS {
        let i = id - (s.last_event_id - s.events.len() + 1);
        assert(s.events[i].id == id);
    }
}

/// Right after an event is registered, a client that had seen everything before it is
/// shown exactly that event, when it may see it, and nothing else.
pub proof fn lemma_register_then_pending(
    s: EventLogView,
    event: RuntimeSseEventView,
    user_id: Seq<char>,
    admin: bool,
)
    requires
        event_log_wf(s),
        s.last_event_id < u64::MAX,
    ensures
        ({
            let t = spec_register(s, event);
            let rec = RecordView { id: t.last_event_id, event };
            spec_pending(t.events, s.last_event_id, user_id, admin) == if visible_to(
                rec,
                s.last_event_id,
                user_id,
                admin,
            ) {
                seq![rec]
            } else {
                Seq::<RecordView>::empty()
            }
        }),
{
    reveal(Seq::filter);
    lemma_register_keeps_wf(s, event);
    let t = spec_register(s, event);
    let rec = RecordView { id: t.last_event_id, event };
    let p = |r: RecordView| visible_to(r, s.last_event_id, user_id, admin);
    let e = t.events;
    assert(e.len() > 0);
    assert(e.last() == rec) by {
        let id = (s.last_event_id + 1) as u64;
        let pushed = s.events.push(RecordView { id, event });
        if pushed.len() > MAX_RUNTIME_SSE_EVENTS {
            assert(e[e.len() - 1] == pushed[pushed.len() - 1]);
        }
    }
    assert forall|i: int| 0 <= i < e.drop_last().len() implies !p(#[trigger] e.drop_last()[i]) by {
        assert(e.drop_last()[i] == e[i]);
        assert(e[i].id == t.last_event_id - e.len() + 1 + i);
    }
    crate::task_queue::lemma_filter_none(e.drop_last(), p);
    assert(e.drop_last().filter(p) =~= Seq::<RecordView>::empty());
    if p(rec) {
        assert(e.filter(p) =~= seq![rec]);
    } else {
        assert(e.filter(p) =~= Seq::<RecordView>::empty());
    }
}

} // verus!
