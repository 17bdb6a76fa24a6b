//! Replica state: what a participant knows of every path, its outbox and its
//! publication journal.

use vstd::prelude::*;

use crate::model::{
    copy_entry, entry_view, EntryView, FileEntry, GitPublication, PublicationStage, PublicationView,
};
use crate::path::RepoPath;
use crate::proto::{
    rows, ControlSnapshot, ControlView, ManifestEntry, OversizeReport, ReportView, RowView,
    SessionInfo, SessionView,
};
use crate::store_host::{found, position, store, stored, Keyed};
use crate::text::{
    lemma_views_push, lemma_views_update, opt_view, text_before, text_le, texts, views,
};
use crate::util::Uuid;

verus! {

// ---------------------------------------------------------------------------
// Records found by their path
// ---------------------------------------------------------------------------

/// A record about one path.
pub trait Placed: View + Sized {
    spec fn place_of(v: Self::V) -> Seq<char>;

    fn place(&self) -> (p: &RepoPath)
        ensures
            p@ == Self::place_of(self@),
    ;
}

/// The record of a path.
pub open spec fn record_of<T: Placed>(list: Seq<T::V>, path: Seq<char>) -> Option<T::V>
    decreases list.len(),
{
    if list.len() == 0 {
        None
    } else if T::place_of(list[0]) == path {
        Some(list[0])
    } else {
        record_of::<T>(list.drop_first(), path)
    }
}

/// The records with one of them put in its place: replaced, or before the
/// first path that comes after it.
pub open spec fn put_record<T: Placed>(list: Seq<T::V>, v: T::V) -> Seq<T::V>
    decreases list.len(),
{
    if list.len() == 0 {
        seq![v]
    } else if T::place_of(list[0]) == T::place_of(v) {
        seq![v] + list.drop_first()
    } else if text_le(T::place_of(v), T::place_of(list[0])) {
        seq![v] + list
    } else {
        seq![list[0]] + put_record::<T>(list.drop_first(), v)
    }
}

/// The records without that of a path.
pub open spec fn drop_record<T: Placed>(list: Seq<T::V>, path: Seq<char>) -> Seq<T::V>
    decreases list.len(),
{
    if list.len() == 0 {
        list
    } else if T::place_of(list[0]) == path {
        list.drop_first()
    } else {
        seq![list[0]] + drop_record::<T>(list.drop_first(), path)
    }
}

/// Whether a position is where the record of a path goes.
pub open spec fn goes_at<T: Placed>(list: Seq<T::V>, path: Seq<char>, at: int) -> bool {
    &&& 0 <= at <= list.len()
    &&& forall|k: int|
        0 <= k < at ==> T::place_of(#[trigger] list[k]) != path && !text_le(
            path,
            T::place_of(list[k]),
        )
    &&& at < list.len() ==> T::place_of(list[at]) == path || text_le(path, T::place_of(list[at]))
}

proof fn lemma_put_at<T: Placed>(list: Seq<T::V>, v: T::V, at: int)
    requires
        goes_at::<T>(list, T::place_of(v), at),
    ensures
        put_record::<T>(list, v) == if at < list.len() && T::place_of(list[at]) == T::place_of(v) {
            list.update(at, v)
        } else {
            list.insert(at, v)
        },
    decreases list.len(),
{
    if list.len() == 0 {
        assert(list.insert(0, v) =~= seq![v]);
    } else if at == 0 {
        assert(list.update(0, v) =~= seq![v] + list.drop_first());
        assert(list.insert(0, v) =~= seq![v] + list);
    } else {
        let rest = list.drop_first();
        assert(T::place_of(list[0]) != T::place_of(v));
        assert forall|k: int| 0 <= k < at - 1 implies T::place_of(#[trigger] rest[k])
            != T::place_of(v) && !text_le(T::place_of(v), T::place_of(rest[k])) by {
            assert(rest[k] == list[k + 1]);
        }
        lemma_put_at::<T>(rest, v, at - 1);
        if at < list.len() && T::place_of(list[at]) == T::place_of(v) {
            assert(list.update(at, v) =~= seq![list[0]] + rest.update(at - 1, v));
        } else {
            assert(list.insert(at, v) =~= seq![list[0]] + rest.insert(at - 1, v));
        }
    }
}

proof fn lemma_record_at<T: Placed>(list: Seq<T::V>, path: Seq<char>, at: int)
    requires
        0 <= at <= list.len(),
        forall|k: int| 0 <= k < at ==> T::place_of(#[trigger] list[k]) != path,
        at < list.len() ==> T::place_of(list[at]) == path,
    ensures
        record_of::<T>(list, path) == if at < list.len() {
            Some(list[at])
        } else {
            None
        },
        drop_record::<T>(list, path) == if at < list.len() {
            list.remove(at)
        } else {
            list
        },
    decreases list.len(),
{
    if list.len() > 0 {
        let rest = list.drop_first();
        if at == 0 {
            assert(list.remove(0) =~= rest);
        } else {
            assert(T::place_of(list[0]) != path);
            assert forall|k: int| 0 <= k < at - 1 implies T::place_of(#[trigger] rest[k])
                != path by {
                assert(rest[k] == list[k + 1]);
            }
            lemma_record_at::<T>(rest, path, at - 1);
            if at < list.len() {
                assert(list.remove(at) =~= seq![list[0]] + rest.remove(at - 1));
            } else {
                assert(list =~= seq![list[0]] + rest);
            }
        }
    }
}

/// What was put is found, and every other record is left alone.
pub proof fn put_is_found<T: Placed>(list: Seq<T::V>, v: T::V, path: Seq<char>)
    ensures
        record_of::<T>(put_record::<T>(list, v), path) == if path == T::place_of(v) {
            Some(v)
        } else {
            record_of::<T>(list, path)
        },
    decreases list.len(),
{
    reveal_with_fuel(record_of, 2);
    if list.len() == 0 {
        assert(seq![v].drop_first() =~= Seq::<T::V>::empty());
    } else {
        let rest = list.drop_first();
        put_is_found::<T>(rest, v, path);
        let all = put_record::<T>(list, v);
        if T::place_of(list[0]) == T::place_of(v) {
            assert(all.drop_first() =~= rest);
        } else if text_le(T::place_of(v), T::place_of(list[0])) {
            assert(all.drop_first() =~= list);
        } else {
            assert(all.drop_first() =~= put_record::<T>(rest, v));
        }
    }
}

/// Where the record of a path stands, or the length.
pub fn locate<T: Placed>(list: &Vec<T>, path: &RepoPath) -> (at: usize)
    ensures
        at <= list@.len(),
        at < list@.len() ==> T::place_of(list@[at as int]@) == path@,
        record_of::<T>(views(list@), path@) == if at < list@.len() {
            Some(list@[at as int]@)
        } else {
            None
        },
        drop_record::<T>(views(list@), path@) == if at < list@.len() {
            views(list@).remove(at as int)
        } else {
            views(list@)
        },
{
    let mut i: usize = 0;
    while i < list.len()
        invariant
            i <= list@.len(),
            forall|k: int| 0 <= k < i ==> T::place_of(#[trigger] views(list@)[k]) != path@,
        decreases list@.len() - i,
    {
        if list[i].place().same(path) {
            proof {
                lemma_record_at::<T>(views(list@), path@, i as int);
            }
            return i;
        }
        i = i + 1;
    }
    proof {
        lemma_record_at::<T>(views(list@), path@, i as int);
    }
    i
}

/// Put a record in its place.
pub fn put<T: Placed>(list: &mut Vec<T>, x: T)
    ensures
        views(final(list)@) == put_record::<T>(views(old(list)@), x@),
{
    let ghost before = list@;
    let mut i: usize = 0;
    while i < list.len() && !list[i].place().same(x.place()) && !text_before(
        x.place().as_str(),
        list[i].place().as_str(),
    )
        invariant
            list@ == before,
            i <= list@.len(),
            forall|k: int|
                0 <= k < i ==> T::place_of(#[trigger] views(list@)[k]) != T::place_of(x@)
                    && !text_le(T::place_of(x@), T::place_of(views(list@)[k])),
        decreases list@.len() - i,
    {
        i = i + 1;
    }
    proof {
        lemma_put_at::<T>(views(before), x@, i as int);
    }
    if i < list.len() && list[i].place().same(x.place()) {
        list[i] = x;
        proof {
            lemma_views_update(before, i as int, x);
        }
    } else {
        list.insert(i, x);
        proof {
            assert(views(list@) =~= views(before).insert(i as int, x@));
        }
    }
}

// ---------------------------------------------------------------------------
// Path states
// ---------------------------------------------------------------------------

/// An operation that was captured and not yet answered.
#[derive(Debug)]
pub struct InFlight {
    pub operation_id: Uuid,
    pub base_revision: u64,
    pub base_entry: Option<FileEntry>,
    pub desired: Option<FileEntry>,
    pub local_seq: u64,
    pub task_id: Option<Uuid>,
    pub sent: bool,
    pub sent_at_ms: i64,
}

/// An unanswered operation as plain values.
pub struct FlightView {
    pub operation_id: Uuid,
    pub base_revision: u64,
    pub base_entry: Option<EntryView>,
    pub desired: Option<EntryView>,
    pub local_seq: u64,
    pub task_id: Option<Uuid>,
    pub sent: bool,
    pub sent_at_ms: i64,
}

impl View for InFlight {
    type V = FlightView;

    open spec fn view(&self) -> FlightView {
        FlightView {
            operation_id: self.operation_id,
            base_revision: self.base_revision,
            base_entry: entry_view(self.base_entry),
            desired: entry_view(self.desired),
            local_seq: self.local_seq,
            task_id: self.task_id,
            sent: self.sent,
            sent_at_ms: self.sent_at_ms,
        }
    }
}

impl Clone for InFlight {
    fn clone(&self) -> (copy: InFlight)
        ensures
            copy@ == self@,
    {
        InFlight {
            operation_id: self.operation_id,
            base_revision: self.base_revision,
            base_entry: copy_entry(&self.base_entry),
            desired: copy_entry(&self.desired),
            local_seq: self.local_seq,
            task_id: self.task_id,
            sent: self.sent,
            sent_at_ms: self.sent_at_ms,
        }
    }
}

/// Newer local work behind an operation in flight.
#[derive(Debug)]
pub struct PendingLocal {
    pub desired: Option<FileEntry>,
    pub local_seq: u64,
    pub task_id: Option<Uuid>,
}

/// Newer local work as plain values.
pub struct PendingView {
    pub desired: Option<EntryView>,
    pub local_seq: u64,
    pub task_id: Option<Uuid>,
}

impl View for PendingLocal {
    type V = PendingView;

    open spec fn view(&self) -> PendingView {
        PendingView {
            desired: entry_view(self.desired),
            local_seq: self.local_seq,
            task_id: self.task_id,
        }
    }
}

impl Clone for PendingLocal {
    fn clone(&self) -> (copy: PendingLocal)
        ensures
            copy@ == self@,
    {
        PendingLocal {
            desired: copy_entry(&self.desired),
            local_seq: self.local_seq,
            task_id: self.task_id,
        }
    }
}

/// A working file that is being turned into the resolution of a conflict.
#[derive(Debug)]
pub struct ConflictDraft {
    pub conflict_id: Uuid,
    pub entry: Option<FileEntry>,
    pub local_seq: u64,
}

/// A draft as plain values.
pub struct DraftView {
    pub conflict_id: Uuid,
    pub entry: Option<EntryView>,
    pub local_seq: u64,
}

impl View for ConflictDraft {
    type V = DraftView;

    open spec fn view(&self) -> DraftView {
        DraftView {
            conflict_id: self.conflict_id,
            entry: entry_view(self.entry),
            local_seq: self.local_seq,
        }
    }
}

impl Clone for ConflictDraft {
    fn clone(&self) -> (copy: ConflictDraft)
        ensures
            copy@ == self@,
    {
        ConflictDraft {
            conflict_id: self.conflict_id,
            entry: copy_entry(&self.entry),
            local_seq: self.local_seq,
        }
    }
}

/// Everything a replica knows of one path.
#[derive(Debug)]
pub struct PathState {
    /// Canonical state, as far as it was heard of.
    pub confirmed: Option<FileEntry>,
    pub confirmed_revision: u64,
    /// What Weave last saw or wrote on disk.
    pub materialized: Option<FileEntry>,
    /// At most one operation in flight.
    pub in_flight: Option<InFlight>,
    /// Newer work coalesced behind it.
    pub pending_local: Option<PendingLocal>,
    pub conflict_draft: Option<ConflictDraft>,
}

/// Path state as plain values.
pub struct StateView {
    pub confirmed: Option<EntryView>,
    pub confirmed_revision: u64,
    pub materialized: Option<EntryView>,
    pub in_flight: Option<FlightView>,
    pub pending_local: Option<PendingView>,
    pub conflict_draft: Option<DraftView>,
}

impl View for PathState {
    type V = StateView;

    open spec fn view(&self) -> StateView {
        StateView {
            confirmed: entry_view(self.confirmed),
            confirmed_revision: self.confirmed_revision,
            materialized: entry_view(self.materialized),
            in_flight: opt_view(self.in_flight),
            pending_local: opt_view(self.pending_local),
            conflict_draft: opt_view(self.conflict_draft),
        }
    }
}

impl Clone for PathState {
    fn clone(&self) -> (copy: PathState)
        ensures
            copy@ == self@,
    {
        PathState {
            confirmed: copy_entry(&self.confirmed),
            confirmed_revision: self.confirmed_revision,
            materialized: copy_entry(&self.materialized),
            in_flight: match &self.in_flight {
                Some(f) => Some(f.clone()),
                None => None,
            },
            pending_local: match &self.pending_local {
                Some(p) => Some(p.clone()),
                None => None,
            },
            conflict_draft: match &self.conflict_draft {
                Some(d) => Some(d.clone()),
                None => None,
            },
        }
    }
}

impl StateView {
    /// Nothing is known of the path.
    pub open spec fn untouched() -> StateView {
        StateView {
            confirmed: None,
            confirmed_revision: 0,
            materialized: None,
            in_flight: None,
            pending_local: None,
            conflict_draft: None,
        }
    }

    /// Whether the path holds work that canonical state does not have. A draft
    /// counts: whoever resolves a conflict is working on the file.
    pub open spec fn has_local_work(self) -> bool {
        self.in_flight is Some || self.pending_local is Some || self.conflict_draft is Some
    }

    /// The newest captured work that is still to be answered.
    pub open spec fn max_local_seq(self) -> u64 {
        let flight = match self.in_flight {
            Some(f) => f.local_seq,
            None => 0,
        };
        match self.pending_local {
            Some(p) => if p.local_seq > flight {
                p.local_seq
            } else {
                flight
            },
            None => flight,
        }
    }
}

impl PathState {
    pub fn untouched() -> (s: PathState)
        ensures
            s@ == StateView::untouched(),
    {
        PathState {
            confirmed: None,
            confirmed_revision: 0,
            materialized: None,
            in_flight: None,
            pending_local: None,
            conflict_draft: None,
        }
    }

    pub fn has_local_work(&self) -> (yes: bool)
        ensures
            yes == self@.has_local_work(),
    {
        self.in_flight.is_some() || self.pending_local.is_some() || self.conflict_draft.is_some()
    }

    pub fn max_local_seq(&self) -> (n: u64)
        ensures
            n == self@.max_local_seq(),
    {
        let flight: u64 = match &self.in_flight {
            Some(f) => f.local_seq,
            None => 0,
        };
        match &self.pending_local {
            Some(p) => if p.local_seq > flight {
                p.local_seq
            } else {
                flight
            },
            None => flight,
        }
    }
}

/// A path with its state.
#[derive(Debug)]
pub struct PathRow {
    pub path: RepoPath,
    pub state: PathState,
}

/// A path with its state, as plain values.
pub struct PathRowView {
    pub path: Seq<char>,
    pub state: StateView,
}

impl View for PathRow {
    type V = PathRowView;

    open spec fn view(&self) -> PathRowView {
        PathRowView { path: self.path@, state: self.state@ }
    }
}

impl Placed for PathRow {
    open spec fn place_of(v: PathRowView) -> Seq<char> {
        v.path
    }

    fn place(&self) -> &RepoPath {
        &self.path
    }
}

impl Placed for OversizeReport {
    open spec fn place_of(v: ReportView) -> Seq<char> {
        v.path
    }

    fn place(&self) -> &RepoPath {
        &self.path
    }
}

/// How far a publication got on this machine.
#[derive(Debug)]
pub struct JournalRow {
    pub publication: GitPublication,
    pub stage: PublicationStage,
}

/// A journal row as plain values.
pub struct JournalView {
    pub publication: PublicationView,
    pub stage: PublicationStage,
}

impl View for JournalRow {
    type V = JournalView;

    open spec fn view(&self) -> JournalView {
        JournalView { publication: self.publication@, stage: self.stage }
    }
}

impl Keyed for JournalRow {
    open spec fn key_of(v: JournalView) -> Uuid {
        v.publication.sequence as u128
    }

    fn key(&self) -> Uuid {
        self.publication.sequence as u128
    }
}

// ---------------------------------------------------------------------------
// The replica
// ---------------------------------------------------------------------------

/// Replica state as plain values.
pub struct ReplicaView {
    pub states: Seq<PathRowView>,
    pub local_seq: u64,
    pub last_applied_revision: u64,
    pub has_manifest: bool,
    pub control: Option<ControlView>,
    pub session: Option<SessionView>,
    pub publication_sequence: u64,
    pub oversize: Seq<ReportView>,
    pub journal: Seq<JournalView>,
}

/// The rows whose canonical state is a file.
pub open spec fn confirmed_rows(list: Seq<PathRowView>) -> Seq<RowView>
    decreases list.len(),
{
    if list.len() == 0 {
        Seq::empty()
    } else {
        match list.last().state.confirmed {
            Some(entry) => confirmed_rows(list.drop_last()).push(
                RowView { path: list.last().path, entry },
            ),
            None => confirmed_rows(list.drop_last()),
        }
    }
}

/// Nothing is canonical any more, as of a revision.
pub open spec fn unconfirmed(list: Seq<PathRowView>, revision: u64) -> Seq<PathRowView> {
    list.map_values(
        |r: PathRowView|
            PathRowView {
                path: r.path,
                state: StateView { confirmed: None, confirmed_revision: revision, ..r.state },
            },
    )
}

/// The rows of a manifest are canonical, as of a revision.
pub open spec fn adopted(list: Seq<PathRowView>, revision: u64, manifest: Seq<RowView>) -> Seq<
    PathRowView,
>
    decreases manifest.len(),
{
    if manifest.len() == 0 {
        list
    } else {
        let before = adopted(list, revision, manifest.drop_last());
        let row = manifest.last();
        put_record::<PathRow>(
            before,
            PathRowView {
                path: row.path,
                state: StateView {
                    confirmed: Some(row.entry),
                    confirmed_revision: revision,
                    ..state_in(before, row.path)
                },
            },
        )
    }
}

/// The state of a path.
pub open spec fn state_in(list: Seq<PathRowView>, path: Seq<char>) -> StateView {
    match record_of::<PathRow>(list, path) {
        Some(r) => r.state,
        None => StateView::untouched(),
    }
}

/// Every operation in flight has to be sent again.
pub open spec fn unsent(list: Seq<PathRowView>) -> Seq<PathRowView> {
    list.map_values(
        |r: PathRowView|
            match r.state.in_flight {
                Some(f) => PathRowView {
                    path: r.path,
                    state: StateView {
                        in_flight: Some(FlightView { sent: false, ..f }),
                        ..r.state
                    },
                },
                None => r,
            },
    )
}

/// The path and state of the operation in flight with an identifier.
pub open spec fn flight_of(list: Seq<PathRowView>, operation_id: Uuid) -> Option<PathRowView>
    decreases list.len(),
{
    if list.len() == 0 {
        None
    } else if list[0].state.in_flight matches Some(f) && f.operation_id == operation_id {
        Some(list[0])
    } else {
        flight_of(list.drop_first(), operation_id)
    }
}

/// The identifiers of the operations in flight.
pub open spec fn flight_ids(list: Seq<PathRowView>) -> Seq<Uuid>
    decreases list.len(),
{
    if list.len() == 0 {
        Seq::empty()
    } else {
        match list.last().state.in_flight {
            Some(f) => flight_ids(list.drop_last()).push(f.operation_id),
            None => flight_ids(list.drop_last()),
        }
    }
}

/// Every path there is a state of.
pub open spec fn paths_of(list: Seq<PathRowView>) -> Seq<Seq<char>> {
    list.map_values(|r: PathRowView| r.path)
}

/// Whether work up to a watermark is still to be answered.
pub open spec fn is_outstanding(s: StateView, watermark: u64) -> bool {
    0 < s.max_local_seq() <= watermark && s.has_local_work()
}

/// How many paths have local work.
pub open spec fn count_working(list: Seq<PathRowView>) -> nat
    decreases list.len(),
{
    if list.len() == 0 {
        0
    } else if list.last().state.has_local_work() {
        count_working(list.drop_last()) + 1
    } else {
        count_working(list.drop_last())
    }
}

/// The paths with a draft.
pub open spec fn drafted(list: Seq<PathRowView>) -> Seq<Seq<char>>
    decreases list.len(),
{
    if list.len() == 0 {
        Seq::empty()
    } else if list.last().state.conflict_draft is Some {
        drafted(list.drop_last()).push(list.last().path)
    } else {
        drafted(list.drop_last())
    }
}

/// Drafts of these conflicts are over.
pub open spec fn undrafted(list: Seq<PathRowView>, closed: Seq<Uuid>) -> Seq<PathRowView> {
    list.map_values(
        |r: PathRowView|
            match r.state.conflict_draft {
                Some(d) => if closed.contains(d.conflict_id) {
                    PathRowView {
                        path: r.path,
                        state: StateView { conflict_draft: None, ..r.state },
                    }
                } else {
                    r
                },
                None => r,
            },
    )
}

impl ReplicaView {
    pub open spec fn state(self, path: Seq<char>) -> StateView {
        state_in(self.states, path)
    }

    pub open spec fn with_state(self, path: Seq<char>, state: StateView) -> ReplicaView {
        ReplicaView {
            states: put_record::<PathRow>(self.states, PathRowView { path, state }),
            ..self
        }
    }

    pub open spec fn manifest(self) -> Seq<RowView> {
        confirmed_rows(self.states)
    }

    pub open spec fn is_oversize(self, path: Seq<char>) -> bool {
        record_of::<OversizeReport>(self.oversize, path) is Some
    }

    pub open spec fn stage_of(self, sequence: u64) -> Option<PublicationStage> {
        match found::<JournalRow>(self.journal, sequence as u128) {
            Some(j) => Some(j.stage),
            None => None,
        }
    }

    pub open spec fn journaled(self, publication: PublicationView, stage: PublicationStage) -> ReplicaView {
        ReplicaView {
            journal: stored::<JournalRow>(self.journal, JournalView { publication, stage }),
            ..self
        }
    }
}

pub struct ClientStore {
    states: Vec<PathRow>,
    local_seq: u64,
    last_applied_revision: u64,
    has_manifest: bool,
    control: Option<ControlSnapshot>,
    session: Option<SessionInfo>,
    publication_sequence: u64,
    oversize: Vec<OversizeReport>,
    journal: Vec<JournalRow>,
}

impl View for ClientStore {
    type V = ReplicaView;

    closed spec fn view(&self) -> ReplicaView {
        ReplicaView {
            states: views(self.states@),
            local_seq: self.local_seq,
            last_applied_revision: self.last_applied_revision,
            has_manifest: self.has_manifest,
            control: opt_view(self.control),
            session: opt_view(self.session),
            publication_sequence: self.publication_sequence,
            oversize: views(self.oversize@),
            journal: views(self.journal@),
        }
    }
}

impl ClientStore {
    pub fn new() -> (s: ClientStore)
        ensures
            s@ == (ReplicaView {
                states: Seq::empty(),
                local_seq: 0,
                last_applied_revision: 0,
                has_manifest: false,
                control: None,
                session: None,
                publication_sequence: 0,
                oversize: Seq::empty(),
                journal: Seq::empty(),
            }),
    {
        let s = ClientStore {
            states: Vec::new(),
            local_seq: 0,
            last_applied_revision: 0,
            has_manifest: false,
            control: None,
            session: None,
            publication_sequence: 0,
            oversize: Vec::new(),
            journal: Vec::new(),
        };
        proof {
            assert(s@.states =~= Seq::<PathRowView>::empty());
            assert(s@.oversize =~= Seq::<ReportView>::empty());
            assert(s@.journal =~= Seq::<JournalView>::empty());
        }
        s
    }

    pub fn path_state(&self, path: &RepoPath) -> (s: PathState)
        ensures
            s@ == self@.state(path@),
    {
        let at = locate(&self.states, path);
        if at < self.states.len() {
            self.states[at].state.clone()
        } else {
            PathState::untouched()
        }
    }

    pub fn put_path_state(&mut self, path: &RepoPath, state: PathState)
        ensures
            final(self)@ == old(self)@.with_state(path@, state@),
    {
        put(&mut self.states, PathRow { path: path.clone(), state });
    }

    /// Every path there is a state of, in ascending order.
    pub fn all_paths(&self) -> (list: Vec<RepoPath>)
        ensures
            views(list@) == paths_of(self@.states),
    {
        let mut list: Vec<RepoPath> = Vec::new();
        let ghost all = paths_of(self@.states);
        let mut i: usize = 0;
        proof {
            assert(views(list@) =~= all.take(0));
        }
        while i < self.states.len()
            invariant
                all == paths_of(self@.states),
                i <= self.states@.len(),
                views(list@) == all.take(i as int),
            decreases self.states@.len() - i,
        {
            let ghost before = list@;
            let p = self.states[i].path.clone();
            list.push(p);
            proof {
                lemma_views_push(before, p);
                assert(all.take(i + 1) =~= all.take(i as int).push(p@));
            }
            i = i + 1;
        }
        proof {
            assert(all.take(i as int) =~= all);
        }
        list
    }

    /// Every path with its state, in ascending order.
    pub fn all_rows(&self) -> (list: &Vec<PathRow>)
        ensures
            views(list@) == self@.states,
    {
        &self.states
    }

    /// Canonical state, as far as it was heard of.
    pub fn replica_manifest(&self) -> (list: Vec<ManifestEntry>)
        ensures
            rows(list@) == self@.manifest(),
    {
        let mut list: Vec<ManifestEntry> = Vec::new();
        let ghost all = self@.states;
        let mut i: usize = 0;
        proof {
            assert(rows(list@) =~= confirmed_rows(all.take(0)));
        }
        while i < self.states.len()
            invariant
                all == self@.states,
                i <= self.states@.len(),
                rows(list@) == confirmed_rows(all.take(i as int)),
            decreases self.states@.len() - i,
        {
            let ghost before = list@;
            proof {
                assert(all.take(i + 1).drop_last() =~= all.take(i as int));
                assert(all.take(i + 1).last() == self.states@[i as int]@);
            }
            match &self.states[i].state.confirmed {
                Some(e) => {
                    let row = ManifestEntry {
                        path: self.states[i].path.clone(),
                        entry: e.clone(),
                    };
                    list.push(row);
                    proof {
                        assert(rows(list@) =~= rows(before).push(row@));
                    }
                },
                None => {},
            }
            i = i + 1;
        }
        proof {
            assert(all.take(i as int) =~= all);
        }
        list
    }

    /// The canonical manifest is replaced as a whole.
    pub fn replace_confirmed_manifest(&mut self, revision: u64, manifest: &Vec<ManifestEntry>)
        ensures
            final(self)@ == (ReplicaView {
                states: adopted(
                    unconfirmed(old(self)@.states, revision),
                    revision,
                    rows(manifest@),
                ),
                has_manifest: true,
                ..old(self)@
            }),
    {
        let ghost start = self@.states;
        let ghost cleared = unconfirmed(start, revision);
        let mut i: usize = 0;
        while i < self.states.len()
            invariant
                self@ == (ReplicaView { states: self@.states, ..old(self)@ }),
                start == old(self)@.states,
                cleared == unconfirmed(start, revision),
                self.states@.len() == start.len(),
                i <= start.len(),
                self@.states == cleared.take(i as int) + start.skip(i as int),
            decreases start.len() - i,
        {
            let ghost before = self.states@;
            proof {
                assert(before[i as int]@ == self@.states[i as int]);
                assert(before[i as int]@ == start[i as int]);
            }
            self.states[i].state.confirmed = None;
            self.states[i].state.confirmed_revision = revision;
            proof {
                assert(views(self.states@) =~= views(before).update(
                    i as int,
                    cleared[i as int],
                ));
                assert(views(self.states@) =~= cleared.take(i + 1) + start.skip(i + 1));
            }
            i = i + 1;
        }
        proof {
            assert(self@.states =~= cleared);
        }
        let ghost all = rows(manifest@);
        let mut k: usize = 0;
        proof {
            assert(all.take(0) =~= Seq::<RowView>::empty());
        }
        while k < manifest.len()
            invariant
                self@ == (ReplicaView { states: self@.states, ..old(self)@ }),
                all == rows(manifest@),
                k <= manifest@.len(),
                self@.states == adopted(cleared, revision, all.take(k as int)),
            decreases manifest@.len() - k,
        {
            proof {
                assert(all.take(k + 1).drop_last() =~= all.take(k as int));
                assert(all.take(k + 1).last() == manifest@[k as int]@);
            }
            let mut state = self.path_state(&manifest[k].path);
            state.confirmed = Some(manifest[k].entry.clone());
            state.confirmed_revision = revision;
            self.put_path_state(&manifest[k].path, state);
            k = k + 1;
        }
        proof {
            assert(all.take(k as int) =~= all);
        }
        self.has_manifest = true;
    }

    /// Every operation in flight has to be sent again.
    pub fn mark_all_unsent(&mut self)
        ensures
            final(self)@ == (ReplicaView { states: unsent(old(self)@.states), ..old(self)@ }),
    {
        let ghost start = self@.states;
        let ghost goal = unsent(start);
        let mut i: usize = 0;
        while i < self.states.len()
            invariant
                self@ == (ReplicaView { states: self@.states, ..old(self)@ }),
                start == old(self)@.states,
                goal == unsent(start),
                self.states@.len() == start.len(),
                i <= start.len(),
                self@.states == goal.take(i as int) + start.skip(i as int),
            decreases start.len() - i,
        {
            let ghost before = self.states@;
            proof {
                assert(before[i as int]@ == self@.states[i as int]);
                assert(before[i as int]@ == start[i as int]);
            }
            match self.states[i].state.in_flight.take() {
                Some(f) => {
                    let mut f = f;
                    f.sent = false;
                    self.states[i].state.in_flight = Some(f);
                },
                None => {},
            }
            proof {
                assert(self.states@[i as int]@ == goal[i as int]);
                assert(views(self.states@) =~= views(before).update(i as int, goal[i as int]));
                assert(views(self.states@) =~= goal.take(i + 1) + start.skip(i + 1));
            }
            i = i + 1;
        }
        proof {
            assert(self@.states =~= goal);
        }
    }

    /// Drafts of these conflicts are over.
    pub fn close_drafts(&mut self, closed: &Vec<Uuid>)
        ensures
            final(self)@ == (ReplicaView {
                states: undrafted(old(self)@.states, closed@),
                ..old(self)@
            }),
    {
        let ghost start = self@.states;
        let ghost goal = undrafted(start, closed@);
        let mut i: usize = 0;
        while i < self.states.len()
            invariant
                self@ == (ReplicaView { states: self@.states, ..old(self)@ }),
                start == old(self)@.states,
                goal == undrafted(start, closed@),
                self.states@.len() == start.len(),
                i <= start.len(),
                self@.states == goal.take(i as int) + start.skip(i as int),
            decreases start.len() - i,
        {
            let ghost before = self.states@;
            proof {
                assert(before[i as int]@ == self@.states[i as int]);
                assert(before[i as int]@ == start[i as int]);
            }
            let over = match &self.states[i].state.conflict_draft {
                Some(d) => crate::store_host::has_id(closed, d.conflict_id),
                None => false,
            };
            if over {
                self.states[i].state.conflict_draft = None;
            }
            proof {
                assert(self.states@[i as int]@ == goal[i as int]);
                assert(views(self.states@) =~= views(before).update(i as int, goal[i as int]));
                assert(views(self.states@) =~= goal.take(i + 1) + start.skip(i + 1));
            }
            i = i + 1;
        }
        proof {
            assert(self@.states =~= goal);
        }
    }

    /// The path of the operation in flight with an identifier.
    pub fn find_flight(&self, operation_id: Uuid) -> (p: Option<RepoPath>)
        ensures
            match p {
                Some(path) => flight_of(self@.states, operation_id) is Some && flight_of(
                    self@.states,
                    operation_id,
                )->0.path == path@,
                None => flight_of(self@.states, operation_id) is None,
            },
    {
        let ghost all = self@.states;
        let mut i: usize = 0;
        proof {
            assert(all.skip(0) =~= all);
        }
        while i < self.states.len()
            invariant
                all == self@.states,
                i <= self.states@.len(),
                flight_of(all, operation_id) == flight_of(all.skip(i as int), operation_id),
            decreases self.states@.len() - i,
        {
            proof {
                assert(all.skip(i as int)[0] == self.states@[i as int]@);
                assert(all.skip(i as int).drop_first() =~= all.skip(i + 1));
            }
            match &self.states[i].state.in_flight {
                Some(f) => {
                    if f.operation_id == operation_id {
                        return Some(self.states[i].path.clone());
                    }
                },
                None => {},
            }
            i = i + 1;
        }
        None
    }

    /// The identifiers of the operations in flight.
    pub fn pending_operations(&self) -> (list: Vec<Uuid>)
        ensures
            list@ == flight_ids(self@.states),
    {
        let mut list: Vec<Uuid> = Vec::new();
        let ghost all = self@.states;
        let mut i: usize = 0;
        proof {
            assert(list@ =~= flight_ids(all.take(0)));
        }
        while i < self.states.len()
            invariant
                all == self@.states,
                i <= self.states@.len(),
                list@ == flight_ids(all.take(i as int)),
            decreases self.states@.len() - i,
        {
            proof {
                assert(all.take(i + 1).drop_last() =~= all.take(i as int));
                assert(all.take(i + 1).last() == self.states@[i as int]@);
            }
            match &self.states[i].state.in_flight {
                Some(f) => {
                    list.push(f.operation_id);
                },
                None => {},
            }
            i = i + 1;
        }
        proof {
            assert(all.take(i as int) =~= all);
        }
        list
    }

    /// Whether work up to a watermark is still to be answered.
    pub fn has_outstanding(&self, watermark: u64) -> (yes: bool)
        ensures
            yes == exists|i: int|
                0 <= i < self@.states.len() && is_outstanding(
                    (#[trigger] self@.states[i]).state,
                    watermark,
                ),
    {
        let mut i: usize = 0;
        while i < self.states.len()
            invariant
                i <= self.states@.len(),
                forall|k: int|
                    0 <= k < i ==> !is_outstanding((#[trigger] self@.states[k]).state, watermark),
            decreases self.states@.len() - i,
        {
            let s = &self.states[i].state;
            let seq: u64 = s.max_local_seq();
            if seq > 0 && seq <= watermark && s.has_local_work() {
                proof {
                    assert(is_outstanding(self@.states[i as int].state, watermark));
                }
                return true;
            }
            i = i + 1;
        }
        false
    }

    /// How many paths have local work, and which have a draft.
    pub fn work_summary(&self) -> (r: (usize, Vec<String>))
        ensures
            r.0 == count_working(self@.states),
            texts(r.1@) == drafted(self@.states),
    {
        let mut n: usize = 0;
        let mut drafts: Vec<String> = Vec::new();
        let ghost all = self@.states;
        let mut i: usize = 0;
        proof {
            assert(texts(drafts@) =~= drafted(all.take(0)));
            assert(count_working(all.take(0)) == 0);
        }
        while i < self.states.len()
            invariant
                all == self@.states,
                i <= self.states@.len(),
                n <= i,
                n == count_working(all.take(i as int)),
                texts(drafts@) == drafted(all.take(i as int)),
            decreases self.states@.len() - i,
        {
            let ghost before = drafts@;
            proof {
                assert(all.take(i + 1).drop_last() =~= all.take(i as int));
                assert(all.take(i + 1).last() == self.states@[i as int]@);
            }
            if self.states[i].state.has_local_work() {
                n = n + 1;
            }
            if self.states[i].state.conflict_draft.is_some() {
                let name = self.states[i].path.as_str().to_owned();
                drafts.push(name);
                proof {
                    assert(texts(drafts@) =~= texts(before).push(name@));
                }
            }
            i = i + 1;
        }
        proof {
            assert(all.take(i as int) =~= all);
        }
        (n, drafts)
    }

    // -------------------------------------------------------------- counters

    pub fn local_seq(&self) -> (n: u64)
        ensures
            n == self@.local_seq,
    {
        self.local_seq
    }

    pub fn next_local_seq(&mut self) -> (n: u64)
        requires
            old(self)@.local_seq < u64::MAX,
        ensures
            n == old(self)@.local_seq + 1,
            final(self)@ == (ReplicaView { local_seq: n, ..old(self)@ }),
    {
        self.local_seq = self.local_seq + 1;
        self.local_seq
    }

    pub fn last_applied_revision(&self) -> (n: u64)
        ensures
            n == self@.last_applied_revision,
    {
        self.last_applied_revision
    }

    pub fn set_last_applied_revision(&mut self, n: u64)
        ensures
            final(self)@ == (ReplicaView { last_applied_revision: n, ..old(self)@ }),
    {
        self.last_applied_revision = n;
    }

    pub fn has_manifest(&self) -> (yes: bool)
        ensures
            yes == self@.has_manifest,
    {
        self.has_manifest
    }

    pub fn control_cache(&self) -> (c: &Option<ControlSnapshot>)
        ensures
            opt_view(*c) == self@.control,
    {
        &self.control
    }

    pub fn control_version(&self) -> (n: u64)
        ensures
            n == match self@.control {
                Some(c) => c.control_version,
                None => 0,
            },
    {
        match &self.control {
            Some(c) => c.control_version,
            None => 0,
        }
    }

    pub fn set_control_cache(&mut self, c: ControlSnapshot)
        ensures
            final(self)@ == (ReplicaView { control: Some(c@), ..old(self)@ }),
    {
        self.control = Some(c);
    }

    pub fn set_session(&mut self, s: SessionInfo)
        ensures
            final(self)@ == (ReplicaView { session: Some(s@), ..old(self)@ }),
    {
        self.session = Some(s);
    }

    pub fn last_publication_sequence(&self) -> (n: u64)
        ensures
            n == self@.publication_sequence,
    {
        self.publication_sequence
    }

    /// Every publication with how far it was installed.
    pub fn journal(&self) -> (list: &Vec<JournalRow>)
        ensures
            views(list@) == self@.journal,
    {
        &self.journal
    }

    /// The session this replica belongs to.
    pub fn session(&self) -> (s: &Option<SessionInfo>)
        ensures
            opt_view(*s) == self@.session,
    {
        &self.session
    }

    pub fn set_last_publication_sequence(&mut self, n: u64)
        ensures
            final(self)@ == (ReplicaView { publication_sequence: n, ..old(self)@ }),
    {
        self.publication_sequence = n;
    }

    // -------------------------------------------------------------- oversize

    pub fn is_oversize(&self, path: &RepoPath) -> (yes: bool)
        ensures
            yes == self@.is_oversize(path@),
    {
        locate(&self.oversize, path) < self.oversize.len()
    }

    pub fn put_oversize(&mut self, path: &RepoPath, size: u64, canonical: bool)
        ensures
            final(self)@ == (ReplicaView {
                oversize: put_record::<OversizeReport>(
                    old(self)@.oversize,
                    ReportView { path: path@, size, canonical },
                ),
                ..old(self)@
            }),
    {
        put(&mut self.oversize, OversizeReport { path: path.clone(), size, canonical });
    }

    /// Drop the record of a path, and say whether there was one.
    pub fn clear_oversize(&mut self, path: &RepoPath) -> (was: bool)
        ensures
            was == old(self)@.is_oversize(path@),
            final(self)@ == (ReplicaView {
                oversize: drop_record::<OversizeReport>(old(self)@.oversize, path@),
                ..old(self)@
            }),
    {
        let at = locate(&self.oversize, path);
        if at < self.oversize.len() {
            let ghost before = self.oversize@;
            let _ = self.oversize.remove(at);
            proof {
                assert(views(self.oversize@) =~= views(before).remove(at as int));
            }
            true
        } else {
            false
        }
    }

    pub fn clear_all_oversize(&mut self)
        ensures
            final(self)@ == (ReplicaView { oversize: Seq::empty(), ..old(self)@ }),
    {
        self.oversize = Vec::new();
        proof {
            assert(self@.oversize =~= Seq::<ReportView>::empty());
        }
    }

    pub fn oversize(&self) -> (list: Vec<OversizeReport>)
        ensures
            views(list@) == self@.oversize,
    {
        copy_reports(&self.oversize)
    }

    // --------------------------------------------------------------- journal

    pub fn publication_journal_stage(&self, sequence: u64) -> (s: Option<PublicationStage>)
        ensures
            s == self@.stage_of(sequence),
    {
        let at = position(&self.journal, sequence as u128);
        if at < self.journal.len() {
            Some(self.journal[at].stage)
        } else {
            None
        }
    }

    pub fn put_publication_journal(&mut self, publication: &GitPublication, stage: PublicationStage)
        ensures
            final(self)@ == old(self)@.journaled(publication@, stage),
    {
        store(&mut self.journal, JournalRow { publication: publication.clone(), stage });
    }

    /// The publications that did not get to their end, oldest first.
    pub fn incomplete_publications(&self) -> (list: Vec<JournalRow>)
        ensures
            views(list@) == self@.journal.filter(
                |j: JournalView| j.stage != PublicationStage::Complete,
            ),
    {
        let mut list: Vec<JournalRow> = Vec::new();
        let ghost all = self@.journal;
        let ghost keep = |j: JournalView| j.stage != PublicationStage::Complete;
        let mut i: usize = 0;
        proof {
            reveal(Seq::filter);
            assert(views(list@) =~= all.take(0).filter(keep));
        }
        while i < self.journal.len()
            invariant
                all == self@.journal,
                keep == (|j: JournalView| j.stage != PublicationStage::Complete),
                i <= self.journal@.len(),
                views(list@) == all.take(i as int).filter(keep),
            decreases self.journal@.len() - i,
        {
            let ghost before = list@;
            proof {
                reveal(Seq::filter);
                assert(all.take(i + 1).drop_last() =~= all.take(i as int));
                assert(all.take(i + 1).last() == self.journal@[i as int]@);
            }
            if self.journal[i].stage != PublicationStage::Complete {
                let row = JournalRow {
                    publication: self.journal[i].publication.clone(),
                    stage: self.journal[i].stage,
                };
                list.push(row);
                proof {
                    lemma_views_push(before, row);
                }
            }
            i = i + 1;
        }
        proof {
            assert(all.take(i as int) =~= all);
        }
        list
    }
}

/// A copy of a list of reports.
pub fn copy_reports(list: &Vec<OversizeReport>) -> (copy: Vec<OversizeReport>)
    ensures
        views(copy@) == views(list@),
{
    let mut copy: Vec<OversizeReport> = Vec::new();
    let mut i: usize = 0;
    while i < list.len()
        invariant
            i <= list@.len(),
            copy@.len() == i,
            forall|k: int| 0 <= k < i ==> (#[trigger] copy@[k])@ == list@[k]@,
        decreases list@.len() - i,
    {
        copy.push(list[i].clone());
        i = i + 1;
    }
    proof {
        assert(views(copy@) =~= views(list@));
    }
    copy
}

/// Whether two lists of reports say the same.
pub fn same_reports(a: &Vec<OversizeReport>, b: &Vec<OversizeReport>) -> (same: bool)
    ensures
        same == (views(a@) == views(b@)),
{
    if a.len() != b.len() {
        proof {
            assert(views(a@).len() != views(b@).len());
        }
        return false;
    }
    let mut i: usize = 0;
    while i < a.len()
        invariant
            a@.len() == b@.len(),
            i <= a@.len(),
            forall|k: int| 0 <= k < i ==> (#[trigger] views(a@)[k]) == views(b@)[k],
        decreases a@.len() - i,
    {
        if !a[i].path.same(&b[i].path) || a[i].size != b[i].size || a[i].canonical
            != b[i].canonical {
            proof {
                assert(views(a@)[i as int] != views(b@)[i as int]);
            }
            return false;
        }
        i = i + 1;
    }
    proof {
        assert(views(a@) =~= views(b@));
    }
    true
}

/// A path's state is what was put last, and putting it touches no other path.
pub proof fn a_path_keeps_what_was_put(
    s: ReplicaView,
    path: Seq<char>,
    state: StateView,
    other: Seq<char>,
)
    ensures
        s.with_state(path, state).state(path) == state,
        other != path ==> s.with_state(path, state).state(other) == s.state(other),
{
    put_is_found::<PathRow>(s.states, PathRowView { path, state }, path);
    put_is_found::<PathRow>(s.states, PathRowView { path, state }, other);
}

} // verus!
