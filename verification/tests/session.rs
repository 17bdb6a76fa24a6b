use std::collections::{BTreeMap, HashMap};

use weave::blobs::{BlobStore, BlobWriter};
use weave::blobwire::{chunk_frame, end_frame, WIRE_CHUNK};
use weave::client::{Answer, ClientEffect, ClientEngine, Identity, Reply, Work};
use weave::client_blobs::DiskFacts;
use weave::client_rules::{STABILITY_THRESHOLD, STABILITY_WINDOW_MS};
use weave::commit::{CommitReply, CommitTask};
use weave::error::{git as git_error, integrity as integrity_error, ErrorClass, WeaveError};
use weave::gitx::{MergeOutcome, PushResult};
use weave::host::{GitState, HostEffect, HostEngine};
use weave::host_step::HostStep;
use weave::ipc::{IpcCommand, ResolveSource};
use weave::live::host_referenced;
use weave::model::{
    CommitDescriptor, ConflictKind, ConflictStatus, FileEntry, GitMode, GitPublication, OperationOutcome,
    PublicationStage, PushStatus, Revision, Role, SyncState,
};
use weave::path::RepoPath;
use weave::proto::{
    state_hash, BlobControl, ClientMessage, CommitOutcome, ControlSnapshot, HostMessage,
    ManifestEntry, SessionInfo,
};
use weave::scan::{FileMeta, MetaKind};
use weave::store_client::{ClientStore, PathState};
use weave::store_host::HostStore;

const BASE: &str = "0000000000000000000000000000000000000000";

fn path(raw: &str) -> RepoPath {
    RepoPath::new(raw).unwrap()
}

fn session_info() -> SessionInfo {
    SessionInfo {
        session_id: 77,
        repo_name: "repo".to_string(),
        branch: "main".to_string(),
        base_commit: BASE.to_string(),
        host_actor_id: 1,
        host_display_name: "Host".to_string(),
        created_at_ms: 0,
    }
}

fn identity(actor_id: u128, role: Role) -> Identity {
    Identity {
        actor_id,
        display_name: format!("Actor {actor_id}"),
        git_name: format!("Actor {actor_id}"),
        git_email: format!("actor{actor_id}@example.com"),
        role,
        session: session_info(),
        branch: "main".to_string(),
    }
}

/// A working file and when it was last written.
#[derive(Clone, PartialEq, Debug)]
struct OnDisk {
    bytes: Vec<u8>,
    mtime_ms: i64,
}

fn meta_of(f: Option<&OnDisk>) -> Option<FileMeta> {
    f.map(|f| FileMeta {
        kind: MetaKind::File,
        size: f.bytes.len() as u64,
        mtime_ms: Some(f.mtime_ms),
    })
}

/// One machine: a replica, its working tree, its blobs and its repository.
struct Machine {
    conn: u64,
    engine: ClientEngine,
    files: BTreeMap<String, OnDisk>,
    blobs: HashMap<String, Vec<u8>>,
    head: String,
    answers: Vec<Answer>,
    exits: Vec<WeaveError>,
    repaired: Vec<String>,
    said: Vec<ClientEffect>,
    /// What somebody saves just as the host answers an operation.
    late: Option<(String, Vec<u8>)>,
    /// What somebody saves while a merge runs.
    during_merge: Option<(String, Vec<u8>)>,
}

impl Machine {
    fn new(conn: u64, actor_id: u128, role: Role) -> Machine {
        Machine::over(ClientStore::new(), BlobStore::open("/blobs"), conn, actor_id, role)
    }

    fn over(store: ClientStore, blobs: BlobStore, conn: u64, actor_id: u128, role: Role) -> Machine {
        Machine {
            conn,
            engine: ClientEngine::new(store, blobs, identity(actor_id, role), BASE.to_string(), true, 0),
            files: BTreeMap::new(),
            blobs: HashMap::new(),
            head: BASE.to_string(),
            answers: Vec::new(),
            exits: Vec::new(),
            repaired: Vec::new(),
            said: Vec::new(),
            late: None,
            during_merge: None,
        }
    }

    fn write(&mut self, rel: &str, bytes: &[u8], mtime_ms: i64) {
        self.files.insert(rel.to_string(), OnDisk { bytes: bytes.to_vec(), mtime_ms });
    }

    fn text(&self, rel: &str) -> String {
        match self.files.get(rel) {
            Some(f) => String::from_utf8(f.bytes.clone()).unwrap(),
            None => "(absent)".to_string(),
        }
    }

    fn read(&mut self, rel: &str) -> Option<FileEntry> {
        let f = self.files.get(rel)?;
        let e = FileEntry::from_bytes(&f.bytes, GitMode::Regular);
        self.blobs.insert(e.blob_hash.clone(), f.bytes.clone());
        Some(e)
    }

    /// Do the work at the head of the queue, as a working tree would.
    fn step(&mut self, now: i64) -> bool {
        enum Todo {
            Go,
            Rescan,
            Missing(String),
            Visit(String),
            Read(String),
            Write(String, Option<FileEntry>),
            Objects(String, String),
            Ref,
            UpdateRef(String),
            ReadTree,
            Merge(Option<String>, Option<String>, Option<String>),
            Guard,
            Ingest,
        }
        let hash = |e: &Option<FileEntry>| e.as_ref().map(|x| x.blob_hash.clone());
        let todo = match self.engine.head() {
            None => return false,
            Some(w) => match w {
                Work::Rescan => Todo::Rescan,
                Work::Missing { path } => Todo::Missing(path.as_str().to_string()),
                Work::Visit { path, .. } => Todo::Visit(path.as_str().to_string()),
                Work::Read { path, .. } => Todo::Read(path.as_str().to_string()),
                Work::Write { path, entry, .. } => {
                    Todo::Write(path.as_str().to_string(), entry.clone())
                }
                Work::InstallObjects { publication, .. } => Todo::Objects(
                    publication.descriptor.commit_oid.clone(),
                    publication.descriptor.tree_oid.clone(),
                ),
                Work::ReadRef { .. } => Todo::Ref,
                Work::UpdateRef { publication } => {
                    Todo::UpdateRef(publication.descriptor.commit_oid.clone())
                }
                Work::ReadTree { .. } => Todo::ReadTree,
                Work::Merge { base, canonical, pending, .. } => {
                    Todo::Merge(hash(base), hash(canonical), hash(&pending.desired))
                }
                Work::GitGuard => Todo::Guard,
                Work::ResolveRead { conflict, .. } => {
                    Todo::Read(conflict.path.as_str().to_string())
                }
                Work::ResolveIngest { .. } => Todo::Ingest,
                _ => Todo::Go,
            },
        };
        let reply = match todo {
            Todo::Go => Reply::Go,
            Todo::Rescan => Reply::Listed {
                found: self.files.keys().map(|k| path(k)).collect(),
                oversize: Vec::new(),
                rejected: Vec::new(),
            },
            Todo::Missing(p) => Reply::Exists(self.files.contains_key(&p)),
            Todo::Visit(p) => Reply::Meta(meta_of(self.files.get(&p))),
            Todo::Read(p) => Reply::Entry(self.read(&p)),
            Todo::Write(p, entry) => {
                match entry {
                    Some(e) => {
                        let bytes = self.blobs[&e.blob_hash].clone();
                        self.files.insert(p, OnDisk { bytes, mtime_ms: now });
                    }
                    None => {
                        self.files.remove(&p);
                    }
                }
                Reply::Written
            }
            Todo::Objects(_, tree) => Reply::Objects { present: true, tree: Some(tree) },
            Todo::Ref => Reply::Ref(Some(self.head.clone())),
            Todo::UpdateRef(oid) => {
                self.head = oid;
                Reply::RefMoved
            }
            Todo::ReadTree => Reply::TreeRead,
            Todo::Merge(b, c, i) => {
                let get = |h: Option<String>| match h {
                    Some(h) => self.blobs[&h].clone(),
                    None => Vec::new(),
                };
                let here = [&b, &c, &i]
                    .iter()
                    .all(|h| h.as_ref().map_or(true, |h| self.blobs.contains_key(h)));
                if here {
                    let merged = merge_lines(&get(b), &get(c), &get(i));
                    if let Some((rel, bytes)) = self.during_merge.take() {
                        self.write(&rel, &bytes, now);
                    }
                    Reply::Merged(merged)
                } else {
                    Reply::Failed(integrity_error("content is missing"))
                }
            }
            Todo::Guard => Reply::Git(GitState {
                branch: Some("main".to_string()),
                head: self.head.clone(),
                staged: false,
            }),
            Todo::Ingest => Reply::Ingested(None),
        };
        self.engine.advance(reply, now);
        true
    }

    fn work(&mut self, now: i64) {
        while self.step(now) {
            // Content is there before the next piece of work needs it.
            for e in self.engine.take_effects() {
                match e {
                    ClientEffect::Install { hash, bytes } => {
                        self.blobs.insert(hash, bytes);
                    }
                    other => self.said.push(other),
                }
            }
        }
    }

    fn effects(&mut self) -> Vec<ClientEffect> {
        let mut out: Vec<ClientEffect> = self.said.drain(..).collect();
        out.extend(self.engine.take_effects());
        out
    }

    /// What was sent, when there is nobody to hear it.
    fn drain(&mut self, now: i64) -> Vec<ClientMessage> {
        self.work(now);
        let mut out = Vec::new();
        for e in self.effects() {
            if let ClientEffect::Send(m) = e {
                out.push(m);
            }
        }
        out
    }
}

/// A line-level merge of texts with the same number of lines.
fn merge_lines(base: &[u8], ours: &[u8], theirs: &[u8]) -> MergeOutcome {
    let split = |b: &[u8]| -> Vec<Vec<u8>> {
        b.split_inclusive(|c| *c == b'\n').map(|l| l.to_vec()).collect()
    };
    let (b, o, t) = (split(base), split(ours), split(theirs));
    if b.len() != o.len() || b.len() != t.len() {
        return MergeOutcome::Conflict;
    }
    let mut out = Vec::new();
    for i in 0..b.len() {
        if o[i] == t[i] || t[i] == b[i] {
            out.extend_from_slice(&o[i]);
        } else if o[i] == b[i] {
            out.extend_from_slice(&t[i]);
        } else {
            return MergeOutcome::Conflict;
        }
    }
    MergeOutcome::Clean(out)
}

fn short_digest(text: &str) -> String {
    weave::util::sha256_hex(text.as_bytes())[..40].to_string()
}

fn fresh_disk() -> DiskFacts {
    DiskFacts { free: None, writer: BlobWriter::start(true) }
}

fn copy_of(m: &HostMessage) -> HostMessage {
    match m {
        HostMessage::RevisionBroadcast { revision } => {
            HostMessage::RevisionBroadcast { revision: revision.clone() }
        }
        HostMessage::Control { control } => HostMessage::Control { control: control.clone() },
        HostMessage::Presence { peers } => HostMessage::Presence { peers: peers.clone() },
        HostMessage::BarrierStart { barrier_id } => {
            HostMessage::BarrierStart { barrier_id: *barrier_id }
        }
        HostMessage::BarrierEnd { barrier_id } => {
            HostMessage::BarrierEnd { barrier_id: *barrier_id }
        }
        HostMessage::HostState { state } => HostMessage::HostState { state: state.clone() },
        HostMessage::Goodbye { reason } => HostMessage::Goodbye { reason: reason.clone() },
        other => panic!("not sent to everybody: {other:?}"),
    }
}

/// A host and the machines connected to it.
struct Net {
    host: HostEngine,
    host_blobs: HashMap<String, Vec<u8>>,
    host_head: String,
    machines: Vec<Machine>,
    now: i64,
    refused: Vec<WeaveError>,
}

impl Net {
    fn new(base: Vec<(&str, &[u8])>) -> Net {
        let mut blobs = BlobStore::open("/host/blobs");
        let mut host_blobs = HashMap::new();
        let mut rows = Vec::new();
        for (p, content) in base {
            let (hash, _) = blobs.put(content);
            host_blobs.insert(hash, content.to_vec());
            rows.push(ManifestEntry {
                path: path(p),
                entry: FileEntry::from_bytes(content, GitMode::Regular),
            });
        }
        rows.sort_by(|a, b| a.path.as_str().cmp(b.path.as_str()));
        Net {
            host: HostEngine::new(
                HostStore::new(rows),
                blobs,
                session_info(),
                BASE.to_string(),
                "main".to_string(),
                "Host".to_string(),
                "host@example.com".to_string(),
                None,
            ),
            host_blobs,
            host_head: BASE.to_string(),
            machines: Vec::new(),
            now: 100_000,
            refused: Vec::new(),
        }
    }

    /// A machine whose working tree holds `files`, connected.
    fn join(&mut self, conn: u64, actor_id: u128, files: Vec<(&str, &[u8])>) -> usize {
        let role = if conn == 1 { Role::Host } else { Role::Participant };
        let mut m = Machine::new(conn, actor_id, role);
        for (p, content) in files {
            m.write(p, content, self.now - 60_000);
        }
        self.machines.push(m);
        let at = self.machines.len() - 1;
        self.connect(at);
        at
    }

    fn connect(&mut self, at: usize) {
        let conn = self.machines[at].conn;
        self.host.on_connected(conn, conn == 1, self.now);
        let head = self.machines[at].head.clone();
        self.machines[at].engine.on_connected(head, self.now);
        self.settle();
    }

    fn disconnect(&mut self, at: usize) {
        let conn = self.machines[at].conn;
        self.machines[at].engine.on_disconnected("lost".to_string());
        let step = self.host.lose_connection(conn, self.now);
        self.submit(conn, step);
        self.settle();
    }

    fn submit(&mut self, conn: u64, step: HostStep) {
        match step {
            HostStep::Done => {}
            HostStep::NeedsMerge(op) => {
                let get = |e: &Option<FileEntry>| match e {
                    Some(e) => self.host_blobs[&e.blob_hash].clone(),
                    None => Vec::new(),
                };
                let canonical = self.host.store().manifest_entry(&op.path);
                let merged =
                    merge_lines(&get(&op.base_entry), &get(&canonical), &get(&op.desired_entry));
                let actor = self.host.actor_of(conn).unwrap();
                let next = self.host.on_submit(conn, actor, *op, Some(merged), self.now);
                self.submit(conn, next);
            }
            HostStep::Finished(f) => {
                for (conn, op) in f.released {
                    let next = self.host.on_released(conn, op, self.now);
                    self.submit(conn, next);
                }
                self.host.conclude(f.requester_conn, f.request_id, f.outcome, f.presence_due);
            }
            HostStep::CreateCommit { request_id, prepare_id, message } => {
                let outcome = match self.publish(conn, prepare_id, &message) {
                    Ok(p) => CommitOutcome::Published { publication: Box::new(p) },
                    Err(e) => CommitOutcome::Rejected {
                        class: e.class,
                        message: e.message,
                        detail: e.detail,
                    },
                };
                self.host.commit_done(conn, request_id, outcome);
            }
            HostStep::Push { request_id } => {
                let done = PushResult { ok: true, diverged: false, message: "".to_string() };
                self.host.push_done(conn, request_id, done);
            }
            HostStep::Blob(b) => self.host.on_blob(conn, b, fresh_disk()),
            HostStep::Failed(e) => {
                self.host.on_failure(&e);
                self.refused.push(e);
            }
        }
    }

    fn publish(
        &mut self,
        conn: u64,
        prepare_id: u128,
        message: &str,
    ) -> weave::error::Result<GitPublication> {
        let actor_id = self.host.actor_of(conn).unwrap();
        let mut task = CommitTask::ReadHead { actor_id, prepare_id, message: message.to_string() };
        loop {
            let reply = match &task {
                CommitTask::ReadHead { .. } => CommitReply::Oid(self.host_head.clone()),
                CommitTask::HashObject { manifest, entries, .. } => {
                    let row = &manifest[entries.len()];
                    CommitReply::Oid(row.entry.blob_hash[..40].to_string())
                }
                CommitTask::WriteTree { entries, .. } => {
                    let lines: Vec<String> =
                        entries.iter().map(|e| format!("{} {}", e.oid, e.path.as_str())).collect();
                    CommitReply::Oid(short_digest(&lines.join("\n")))
                }
                CommitTask::CommitTree { descriptor } => {
                    CommitReply::Oid(short_digest(&descriptor.message))
                }
                CommitTask::MoveRef { publication } => {
                    let latest = self.host.store().latest_publication().unwrap();
                    assert_eq!(latest.stage, PublicationStage::ObjectsInstalled);
                    self.host_head = publication.descriptor.commit_oid.clone();
                    CommitReply::Moved
                }
                CommitTask::ReadTree { .. } => CommitReply::Moved,
                CommitTask::Push { .. } => {
                    CommitReply::Pushed(PushResult { ok: true, diverged: false, message: "".to_string() })
                }
                CommitTask::Published { publication } => return Ok(publication.clone()),
                CommitTask::Rejected { .. } => CommitReply::Moved,
            };
            task = self.host.commit_next(task, reply, self.now, self.now / 1000);
            if let CommitTask::Rejected { error } = task {
                return Err(error);
            }
        }
    }

    fn deliver(&mut self, conn: u64, m: HostMessage) {
        let now = self.now;
        let Some(machine) = self.machines.iter_mut().find(|m| m.conn == conn) else {
            return;
        };
        if matches!(m, HostMessage::OperationResult { .. }) {
            if let Some((rel, bytes)) = machine.late.take() {
                machine.write(&rel, &bytes, now);
            }
        }
        if let Some(blob) = machine.engine.on_host_message(m, now) {
            machine.engine.on_blob(blob, fresh_disk());
        }
    }

    /// Until nobody has anything left to do or to say.
    fn settle(&mut self) {
        loop {
            let mut quiet = true;
            for at in 0..self.machines.len() {
                self.machines[at].work(self.now);
                let conn = self.machines[at].conn;
                for e in self.machines[at].effects() {
                    quiet = false;
                    match e {
                        ClientEffect::Send(m) => {
                            let step = self.host.on_message(conn, m, self.now);
                            self.submit(conn, step);
                        }
                        ClientEffect::Stream(job) => {
                            let bytes = self.machines[at].blobs[&job.hash].clone();
                            for slice in bytes[job.from_offset as usize..].chunks(WIRE_CHUNK) {
                                self.host.on_data(conn, &chunk_frame(job.transfer_id, slice));
                            }
                            self.host_blobs.insert(job.hash.clone(), bytes);
                            self.host.on_data(conn, &end_frame(job.transfer_id));
                        }
                        ClientEffect::Install { hash, bytes } => {
                            self.machines[at].blobs.insert(hash, bytes);
                        }
                        ClientEffect::Answer { answer, .. } => {
                            self.machines[at].answers.push(answer);
                        }
                        ClientEffect::Repaired(line) => self.machines[at].repaired.push(line),
                        ClientEffect::Exit(e) => self.machines[at].exits.push(e),
                        ClientEffect::Collect => {}
                    }
                }
            }
            for e in self.host.take_effects() {
                quiet = false;
                match e {
                    HostEffect::Send { to, message } => {
                        for conn in to.iter().skip(1) {
                            self.deliver(*conn, copy_of(&message));
                        }
                        if let Some(conn) = to.first() {
                            self.deliver(*conn, message);
                        }
                    }
                    HostEffect::Close { conn_id } => {
                        let step = self.host.lose_connection(conn_id, self.now);
                        self.submit(conn_id, step);
                    }
                    HostEffect::Install { hash, bytes } => {
                        self.host_blobs.insert(hash, bytes);
                    }
                    HostEffect::Stream { to, job } => {
                        let bytes = self.host_blobs[&job.hash].clone();
                        let m = self.machines.iter_mut().find(|m| m.conn == to).unwrap();
                        m.blobs.insert(job.hash.clone(), bytes.clone());
                        for slice in bytes[job.from_offset as usize..].chunks(WIRE_CHUNK) {
                            m.engine.on_data(&chunk_frame(job.transfer_id, slice));
                        }
                        m.engine.on_data(&end_frame(job.transfer_id));
                    }
                    HostEffect::Pack { to, publication } => {
                        let pack = publication.descriptor.commit_oid.as_bytes().to_vec();
                        let hash = weave::util::sha256_hex(&pack);
                        let size = pack.len() as u64;
                        self.host_blobs.insert(hash.clone(), pack);
                        self.host.publication_packed(to, publication, hash, size);
                    }
                }
            }
            if quiet {
                break;
            }
        }
    }

    fn tick(&mut self, ms: i64) {
        self.now += ms;
        for m in &mut self.machines {
            m.engine.on_tick(self.now);
        }
        let work = self.host.on_tick(self.now);
        if work.check_git {
            let head = self.host_head.clone();
            self.host.check_git_state(&GitState {
                branch: Some("main".to_string()),
                head,
                staged: false,
            });
        }
        if work.barrier {
            let step = self.host.tick_barrier(self.now);
            self.submit(1, step);
        }
        self.settle();
    }

    /// Somebody edits a file and the watcher notices.
    fn edit(&mut self, at: usize, rel: &str, content: &[u8]) {
        self.now += 10;
        let now = self.now;
        self.machines[at].write(rel, content, now);
        self.machines[at].engine.on_watch_batch(vec![rel.to_string()], Vec::new());
        self.settle();
    }

    fn remove(&mut self, at: usize, rel: &str) {
        self.machines[at].files.remove(rel);
        self.machines[at].engine.on_watch_batch(vec![rel.to_string()], Vec::new());
        self.settle();
    }

    fn command(&mut self, at: usize, c: IpcCommand) -> Answer {
        let now = self.now;
        self.machines[at].engine.dispatch(1, c, now);
        self.settle();
        self.machines[at].answers.pop().expect("an answer")
    }

    fn revision(&self) -> u64 {
        self.host.store().current_revision()
    }
}

fn two() -> Net {
    let mut net = Net::new(vec![("a.txt", b"A\nB\nC\n")]);
    net.join(1, 1, vec![("a.txt", b"A\nB\nC\n")]);
    net.join(2, 2, vec![("a.txt", b"A\nB\nC\n")]);
    net
}

// ------------------------------------------------------------ synchronization

#[test]
fn an_edit_reaches_everybody() {
    let mut net = two();
    assert_eq!(net.revision(), 0);
    net.edit(0, "a.txt", b"A1\nB\nC\n");
    assert_eq!(net.revision(), 1);
    assert_eq!(net.machines[1].text("a.txt"), "A1\nB\nC\n");
    net.edit(1, "new/b.txt", b"hello\n");
    assert_eq!(net.revision(), 2);
    assert_eq!(net.machines[0].text("new/b.txt"), "hello\n");
    net.remove(0, "a.txt");
    assert_eq!(net.revision(), 3);
    assert_eq!(net.machines[1].text("a.txt"), "(absent)");
    assert!(net.refused.is_empty());
}

#[test]
fn a_late_joiner_is_brought_up_to_date() {
    let mut net = two();
    net.edit(0, "a.txt", b"A1\nB\nC\n");
    net.edit(0, "b.txt", b"b\n");
    let third = net.join(3, 3, vec![("a.txt", b"A\nB\nC\n")]);
    assert_eq!(net.machines[third].text("b.txt"), "b\n");
}

#[test]
fn edits_made_apart_merge_line_by_line() {
    let mut net = two();
    net.disconnect(1);
    net.edit(1, "a.txt", b"A\nB\nC1\n");
    net.edit(0, "a.txt", b"A1\nB\nC\n");
    net.connect(1);
    net.tick(10_000);
    assert_eq!(net.machines[0].text("a.txt"), "A1\nB\nC1\n");
    assert_eq!(net.machines[1].text("a.txt"), "A1\nB\nC1\n");
    assert_eq!(net.host.store().open_conflicts().len(), 0);
}

#[test]
fn a_disconnected_machine_loses_no_work() {
    let mut net = two();
    net.disconnect(1);
    net.edit(1, "only-here.txt", b"mine\n");
    assert_eq!(net.revision(), 0);
    assert_eq!(net.machines[1].engine.status().outbox_pending, 1);
    net.connect(1);
    net.tick(10_000);
    assert_eq!(net.revision(), 1);
    assert_eq!(net.machines[0].text("only-here.txt"), "mine\n");
    assert_eq!(net.machines[1].engine.status().outbox_pending, 0);
}

// ------------------------------------------------------------------ conflicts

fn conflicted() -> Net {
    let mut net = two();
    net.disconnect(1);
    net.edit(1, "a.txt", b"A\nGAMMA\nC\n");
    net.edit(0, "a.txt", b"A\nBETA\nC\n");
    net.connect(1);
    net.tick(10_000);
    net
}

#[test]
fn overlapping_edits_become_a_conflict_that_keeps_both_sides() {
    let net = conflicted();
    let open = net.host.store().open_conflicts();
    assert_eq!(open.len(), 1);
    assert_eq!(open[0].path.as_str(), "a.txt");
    let incoming = open[0].incoming_entry.as_ref().unwrap().blob_hash.clone();
    assert_eq!(net.host_blobs[&incoming], b"A\nGAMMA\nC\n");
    assert_eq!(net.machines[1].text("a.txt"), "A\nBETA\nC\n");
    let named = host_referenced(net.host.store());
    assert!(named.contains(&incoming));
}

#[test]
fn a_resolution_settles_the_conflict_for_everybody() {
    let mut net = conflicted();
    let id = net.host.store().open_conflicts()[0].short_id();
    let before = net.revision();
    let answer = net.command(
        1,
        IpcCommand::ConflictResolve { id, source: ResolveSource::Incoming, content_file: None },
    );
    assert!(matches!(answer, Answer::Acknowledged { .. }), "{answer:?}");
    assert_eq!(net.host.store().open_conflicts().len(), 0);
    assert_eq!(net.revision(), before + 1);
    net.tick(10_000);
    assert_eq!(net.machines[0].text("a.txt"), "A\nGAMMA\nC\n");
    assert_eq!(net.machines[1].text("a.txt"), "A\nGAMMA\nC\n");
}

#[test]
fn a_dismissed_conflict_changes_no_file() {
    let mut net = conflicted();
    let id = net.host.store().open_conflicts()[0].short_id();
    let before = net.revision();
    net.command(0, IpcCommand::ConflictDismiss { id });
    assert_eq!(net.revision(), before);
    assert_eq!(net.host.store().conflicts()[0].status, ConflictStatus::Dismissed);
    assert_eq!(net.machines[0].text("a.txt"), "A\nBETA\nC\n");
}

// ---------------------------------------------------------------------- tasks

#[test]
fn a_task_is_started_shown_and_completed() {
    let mut net = two();
    let started = net.command(
        1,
        IpcCommand::TaskStart {
            description: "Refine".to_string(),
            scopes: vec!["a.txt".to_string()],
        },
    );
    assert!(matches!(started, Answer::Acknowledged { .. }), "{started:?}");
    let id = net.host.store().active_tasks()[0].short_id();
    net.edit(1, "a.txt", b"A9\nB\nC\n");
    assert_eq!(net.host.store().tasks()[0].touched_paths.len(), 1);
    net.command(1, IpcCommand::TaskComplete { id });
    assert!(net.host.store().active_tasks().is_empty());
    match net.command(0, IpcCommand::TaskShow { id: "T-FFFF0".to_string() }) {
        Answer::Failed(e) => assert_eq!(e.class, ErrorClass::UsageError),
        other => panic!("unexpected {other:?}"),
    }
}

// --------------------------------------------------------------- publications

#[test]
fn a_publication_is_bound_to_one_revision_and_reaches_everybody() {
    let mut net = two();
    net.edit(1, "a.txt", b"A1\nB\nC\n");
    let prepared =
        match net.command(0, IpcCommand::CommitPrepare { allow_active_tasks: false }) {
            Answer::Prepared(p) => p,
            other => panic!("unexpected {other:?}"),
        };
    assert_eq!(prepared.target_revision, 1);
    assert_eq!(prepared.diff_summary.modified.len(), 1);
    // Work that follows the preparation is not part of it.
    net.edit(1, "later.txt", b"later\n");
    let published = match net.command(
        0,
        IpcCommand::CommitCreate {
            prepare_id: weave::util::uuid_text(prepared.prepare_id),
            message: "docs: change a".to_string(),
        },
    ) {
        Answer::Published(p) => p,
        other => panic!("unexpected {other:?}"),
    };
    assert_eq!(published.stage, PublicationStage::Complete);
    assert_eq!(published.push_status, PushStatus::NoUpstream);
    assert!(published
        .descriptor
        .message
        .contains("Co-authored-by: Actor 2 <actor2@example.com>"));
    assert_eq!(net.machines[1].head, published.descriptor.commit_oid);
    assert_eq!(net.machines[0].head, net.host_head);
}

#[test]
fn an_open_conflict_blocks_a_publication() {
    let mut net = conflicted();
    match net.command(0, IpcCommand::CommitPrepare { allow_active_tasks: false }) {
        Answer::Failed(e) => assert_eq!(e.class, ErrorClass::ConflictError),
        other => panic!("unexpected {other:?}"),
    }
}

#[test]
fn an_active_task_blocks_a_publication_unless_it_is_allowed() {
    let mut net = two();
    net.command(
        1,
        IpcCommand::TaskStart { description: "Refine".to_string(), scopes: Vec::new() },
    );
    net.edit(1, "a.txt", b"A1\nB\nC\n");
    let refused = net.command(0, IpcCommand::CommitPrepare { allow_active_tasks: false });
    assert!(matches!(refused, Answer::Failed(_)), "{refused:?}");
    let allowed = net.command(0, IpcCommand::CommitPrepare { allow_active_tasks: true });
    assert!(matches!(allowed, Answer::Prepared(_)), "{allowed:?}");
}

// ---------------------------------------------------------------- the host alone

fn operation(id: u128, base: Option<FileEntry>, content: &str) -> weave::model::FileOperation {
    weave::model::FileOperation {
        operation_id: id,
        actor_id: 9,
        task_id: None,
        local_seq: 1,
        base_revision: 0,
        base_entry: base,
        path: path("x.txt"),
        desired_entry: Some(FileEntry::from_bytes(content.as_bytes(), GitMode::Regular)),
        content: Some(content.as_bytes().to_vec()),
    }
}

fn results(host: &mut HostEngine) -> Vec<HostMessage> {
    let mut out = Vec::new();
    for e in host.take_effects() {
        if let HostEffect::Send { message, .. } = e {
            if matches!(message, HostMessage::OperationResult { .. } | HostMessage::Error { .. }) {
                out.push(message);
            }
        }
    }
    out
}

#[test]
fn a_repeated_operation_makes_no_second_revision() {
    let mut net = two();
    let step = net.host.on_submit(2, 2, operation(5, None, "x"), None, 1);
    assert!(matches!(step, HostStep::Done));
    assert_eq!(net.revision(), 1);
    let first = format!("{:?}", results(&mut net.host));
    net.host.on_submit(2, 2, operation(5, None, "x"), None, 2);
    assert_eq!(net.revision(), 1);
    let second = format!("{:?}", results(&mut net.host));
    assert_eq!(first, second);
    // The same identifier for something else is refused.
    net.host.on_submit(2, 2, operation(5, None, "y"), None, 3);
    assert_eq!(net.revision(), 1);
    assert!(format!("{:?}", results(&mut net.host)).contains("ProtocolError"));
}

#[test]
fn a_host_that_is_not_live_accepts_nothing() {
    let mut net = two();
    net.host.enter_degraded("disk failed");
    net.host.on_submit(2, 2, operation(5, None, "x"), None, 1);
    assert_eq!(net.revision(), 0);
}

#[test]
fn moving_the_branch_pauses_the_session_until_it_is_restored() {
    let mut net = two();
    net.host.check_git_state(&GitState {
        branch: Some("other".to_string()),
        head: BASE.to_string(),
        staged: false,
    });
    net.host.on_submit(2, 2, operation(5, None, "x"), None, 1);
    assert_eq!(net.revision(), 0);
    net.host.check_git_state(&GitState {
        branch: Some("main".to_string()),
        head: BASE.to_string(),
        staged: false,
    });
    net.host.on_submit(2, 2, operation(6, None, "x"), None, 1);
    assert_eq!(net.revision(), 1);
}

#[test]
fn nobody_is_heard_before_introducing_themselves() {
    let mut net = two();
    net.host.on_connected(9, false, 1);
    net.host.on_message(
        9,
        ClientMessage::SubmitOperation { operation: Box::new(operation(5, None, "x")) },
        1,
    );
    assert_eq!(net.revision(), 0);
}

// ------------------------------------------------------------------- barriers

fn connected_machine() -> Machine {
    let mut m = Machine::new(2, 2, Role::Participant);
    m.engine.on_connected(BASE.to_string(), 1);
    m.engine.on_host_message(
        HostMessage::Welcome {
            session: session_info(),
            snapshot_revision: 0,
            manifest: Some(Vec::new()),
            control: Box::new(control()),
            pending_publications: Vec::new(),
            host_state_hash: state_hash(&Vec::new()),
        },
        1,
    );
    m.drain(1);
    m
}

fn control() -> ControlSnapshot {
    ControlSnapshot {
        control_version: 1,
        tasks: Vec::new(),
        conflicts: Vec::new(),
        publication: None,
        publication_sequence: 0,
        session: session_info(),
        max_file_size: 64 * 1024 * 1024,
        oversize: Vec::new(),
    }
}

fn broadcast(revision: u64, rel: &str, entry: FileEntry) -> HostMessage {
    HostMessage::RevisionBroadcast {
        revision: Box::new(Revision {
            revision,
            operation_id: 50 + revision as u128,
            actor_id: 1,
            task_id: None,
            timestamp_ms: 0,
            path: path(rel),
            before: None,
            after: Some(entry),
        }),
    }
}

fn answered(sent: &[ClientMessage]) -> bool {
    sent.iter().any(|m| matches!(m, ClientMessage::BarrierReady { .. }))
}

fn arrive(m: &mut Machine, id: u64, bytes: &[u8]) {
    let hash = weave::util::sha256_hex(bytes);
    m.blobs.insert(hash.clone(), bytes.to_vec());
    m.engine.on_blob(
        BlobControl::Offer { transfer_id: id, hash, size: bytes.len() as u64 },
        fresh_disk(),
    );
    m.engine.on_data(&chunk_frame(id, bytes));
    m.engine.on_data(&end_frame(id));
}

#[test]
fn a_barrier_is_not_answered_while_content_is_still_arriving() {
    // Materialization waiting on a blob.
    let mut m = connected_machine();
    let entry = FileEntry::from_bytes(b"notes\n", GitMode::Regular);
    m.engine.on_host_message(broadcast(1, "notes.md", entry), 2);
    m.drain(2);
    m.engine.on_host_message(HostMessage::BarrierStart { barrier_id: 8 }, 3);
    assert!(!answered(&m.drain(3)), "answered despite a missing blob");

    // A publication pack still in transit.
    let mut m = connected_machine();
    m.engine.on_host_message(
        HostMessage::Publication {
            publication: Box::new(sample_publication()),
            pack_hash: Some("f".repeat(64)),
        },
        2,
    );
    m.drain(2);
    m.engine.on_host_message(HostMessage::BarrierStart { barrier_id: 8 }, 3);
    assert!(!answered(&m.drain(3)), "answered despite a missing pack");
}

#[test]
fn a_barrier_is_answered_once_the_content_has_arrived() {
    let mut m = connected_machine();
    let entry = FileEntry::from_bytes(b"notes\n", GitMode::Regular);
    m.engine.on_host_message(broadcast(1, "notes.md", entry), 2);
    m.drain(2);
    m.engine.on_host_message(HostMessage::BarrierStart { barrier_id: 8 }, 3);
    assert!(!answered(&m.drain(3)));

    arrive(&mut m, 1, b"notes\n");
    let mut sent = m.drain(4);
    m.engine.on_tick(10_000);
    sent.extend(m.drain(10_000));
    assert_eq!(m.text("notes.md"), "notes\n");
    assert!(answered(&sent), "nothing was outstanding any more");
}

fn sample_publication() -> GitPublication {
    GitPublication {
        descriptor: CommitDescriptor {
            prepare_id: 4,
            target_revision: 1,
            parent_commit_oid: "0".repeat(40),
            tree_oid: "1".repeat(40),
            commit_oid: "2".repeat(40),
            author_name: "Tester".to_string(),
            author_email: "tester@example.com".to_string(),
            committer_name: "Tester".to_string(),
            committer_email: "tester@example.com".to_string(),
            timestamp: 0,
            timezone: "+0000".to_string(),
            message: "commit".to_string(),
            contributing_task_ids: Vec::new(),
            branch: "main".to_string(),
        },
        stage: PublicationStage::Pending,
        push_status: PushStatus::NotAttempted,
        push_error: None,
        created_at_ms: 0,
        sequence: 1,
    }
}

// ------------------------------------------------------------------ stability

fn large(size: u64, mtime_ms: i64) -> Option<FileMeta> {
    Some(FileMeta { kind: MetaKind::File, size, mtime_ms: Some(mtime_ms) })
}

#[test]
fn a_large_file_is_captured_only_once_it_stops_changing() {
    let mut m = Machine::new(2, 2, Role::Participant);
    let p = path("asset.bin");
    let size = STABILITY_THRESHOLD;
    let now = 100_000;
    let seen = large(size, now);
    assert!(!m.engine.has_settled(&p, &seen, now), "first sighting proves nothing");
    assert!(!m.engine.has_settled(&p, &seen, now + 10), "the window has not elapsed yet");

    // Still being written: the clock starts again.
    let grown = large(size + 4096, now + 20);
    assert!(!m.engine.has_settled(&p, &grown, now + 20));
    let later = now + 20 + STABILITY_WINDOW_MS + 200;
    assert!(
        m.engine.has_settled(&p, &grown, later),
        "unchanged for a full window, so it is finished"
    );
    assert!(m.engine.unstable_paths().is_empty());
}

#[test]
fn a_file_that_has_finished_stays_settled() {
    let mut m = Machine::new(2, 2, Role::Participant);
    let p = path("asset.bin");
    let written = 100_000;
    let now = written + STABILITY_WINDOW_MS + 200;
    for round in 0..3 {
        assert!(
            m.engine.has_settled(&p, &large(STABILITY_THRESHOLD, written), now + round),
            "an untouched file stopped being settled on check {round}"
        );
        assert!(m.engine.unstable_paths().is_empty());
    }
}

/// A replica that is owed canonical content, under a size limit.
fn owed(canonical: &[u8], rel: &str, limit: u64) -> Machine {
    let mut blobs = BlobStore::open("/blobs");
    blobs.put(canonical);
    let mut store = limited(limit);
    let mut state = PathState::untouched();
    state.confirmed = Some(FileEntry::from_bytes(canonical, GitMode::Regular));
    state.confirmed_revision = 1;
    store.put_path_state(&path(rel), state);
    let mut m = Machine::over(store, blobs, 2, 2, Role::Participant);
    m.blobs.insert(weave::util::sha256_hex(canonical), canonical.to_vec());
    m
}

fn limited(limit: u64) -> ClientStore {
    let mut c = control();
    c.max_file_size = limit;
    let mut store = ClientStore::new();
    store.set_control_cache(c);
    store
}

#[test]
fn a_file_that_is_still_being_written_is_not_overwritten_by_canonical_content() {
    let mut m = owed(&[1u8; 64], "asset.bin", 64 * 1024 * 1024);
    let local = vec![9u8; STABILITY_THRESHOLD as usize];
    let now = 100_000;
    m.write("asset.bin", &local, now);

    m.engine.materialize_if_safe(&path("asset.bin"));
    m.work(now);
    assert_eq!(
        m.files["asset.bin"].bytes.len(),
        local.len(),
        "canonical content overwrote a file that was still being written"
    );
    assert!(m.engine.unstable_paths().contains(&path("asset.bin")));
    assert!(!m.engine.store().path_state(&path("asset.bin")).has_local_work());

    // Once it holds still it is captured as local work, and still not
    // overwritten.
    m.engine.materialize_if_safe(&path("asset.bin"));
    m.work(now + STABILITY_WINDOW_MS + 200);
    assert_eq!(m.files["asset.bin"].bytes.len(), local.len());
    assert!(m.engine.store().path_state(&path("asset.bin")).has_local_work());
}

#[test]
fn small_files_and_deletions_never_wait() {
    let mut m = Machine::new(2, 2, Role::Participant);
    assert!(m.engine.has_settled(&path("notes.md"), &large(7, 100), 100));
    assert!(m.engine.has_settled(&path("removed.bin"), &None, 100));
    assert!(m.engine.unstable_paths().is_empty());
}

// -------------------------------------------------------------- the size limit

#[test]
fn a_file_above_the_limit_is_recorded_without_being_read() {
    let mut m = Machine::over(limited(4096), BlobStore::open("/blobs"), 2, 2, Role::Participant);
    m.write("huge.bin", &vec![5u8; 16 * 1024], 1);
    m.engine.on_watch_batch(vec!["huge.bin".to_string()], Vec::new());
    m.work(10);
    assert!(m.blobs.is_empty(), "an oversize file was read into the store");
    assert!(!m.engine.store().path_state(&path("huge.bin")).has_local_work());
    let held = m.engine.store().oversize();
    assert_eq!(held.len(), 1);
    assert_eq!(held[0].path, path("huge.bin"));
    assert_eq!(held[0].size, 16 * 1024);

    // Back under the limit, it is ordinary work again, with nothing to undo.
    m.write("huge.bin", &vec![5u8; 128], 20);
    m.engine.on_watch_batch(vec!["huge.bin".to_string()], Vec::new());
    m.work(30);
    assert!(m.engine.store().path_state(&path("huge.bin")).has_local_work());
    assert!(m.engine.store().oversize().is_empty());
}

#[test]
fn canonical_content_never_overwrites_a_file_that_grew_past_the_limit() {
    let canonical = vec![1u8; 64];
    let mut m = owed(&canonical, "cut.mov", 4096);
    let local = vec![9u8; 16 * 1024];
    m.write("cut.mov", &local, 1);

    m.engine.materialize_if_safe(&path("cut.mov"));
    m.work(10);
    assert_eq!(
        m.files["cut.mov"].bytes, local,
        "canonical content overwrote a file Weave never captured"
    );
    let held = m.engine.store().oversize();
    assert_eq!(held.len(), 1);
    assert!(
        held[0].canonical,
        "the session was not told it already holds content for this path"
    );

    // And publication is refused for as long as that is true.
    assert!(m.engine.oversize_detail().is_some());

    // Shrinking resolves it.
    m.write("cut.mov", &canonical, 20);
    m.engine.materialize_if_safe(&path("cut.mov"));
    m.work(30);
    assert!(m.engine.store().oversize().is_empty());
    assert!(m.engine.oversize_detail().is_none());
}

// ------------------------------------------------------------- a replica alone

#[test]
fn a_revision_out_of_order_waits_for_the_ones_before_it() {
    let mut m = connected_machine();
    let one = FileEntry::from_bytes(b"one\n", GitMode::Regular);
    let two = FileEntry::from_bytes(b"two\n", GitMode::Regular);
    m.engine.on_host_message(broadcast(2, "two.txt", two), 2);
    m.drain(2);
    assert_eq!(m.engine.store().last_applied_revision(), 0);
    m.engine.on_host_message(broadcast(1, "one.txt", one), 3);
    m.drain(3);
    assert_eq!(m.engine.store().last_applied_revision(), 2);
}

#[test]
fn a_manifest_that_does_not_add_up_changes_nothing() {
    let mut m = connected_machine();
    m.engine.on_host_message(
        HostMessage::ManifestSnapshot {
            snapshot_revision: 9,
            manifest: vec![ManifestEntry {
                path: path("a.txt"),
                entry: FileEntry::from_bytes(b"a", GitMode::Regular),
            }],
            host_state_hash: state_hash(&Vec::new()),
        },
        2,
    );
    m.drain(2);
    assert_eq!(m.engine.store().last_applied_revision(), 0);
    assert!(m.engine.store().replica_manifest().is_empty());
}

#[test]
fn a_sweep_keeps_what_the_replica_names() {
    let m = owed(b"kept", "a.txt", 4096);
    let live = m.engine.live_hashes(&vec!["from-the-host".to_string()]);
    assert!(live.contains(&weave::util::sha256_hex(b"kept")));
    assert!(live.contains(&"from-the-host".to_string()));
    assert_eq!(live.len(), 2);
}

#[test]
fn a_command_that_needs_the_host_fails_without_one() {
    let mut m = Machine::new(2, 2, Role::Participant);
    m.engine.dispatch(1, IpcCommand::Push, 1);
    m.work(1);
    let mut failed = false;
    for e in m.effects() {
        if let ClientEffect::Answer { call: 1, answer: Answer::Failed(e) } = e {
            assert_eq!(e.class, ErrorClass::NetworkError);
            failed = true;
        }
    }
    assert!(failed);
}

#[test]
fn a_session_that_pauses_says_so() {
    let mut m = connected_machine();
    m.engine.on_host_message(
        HostMessage::HostState {
            state: SyncState::Paused { reason: "moved".to_string(), detail: "d".to_string() },
        },
        2,
    );
    m.drain(2);
    let s = m.engine.status();
    assert!(!s.sync_state.is_live());
    assert!(s.connected);
}

#[test]
fn a_task_of_somebody_else_keeps_nobody_from_editing() {
    let mut net = two();
    net.command(
        1,
        IpcCommand::TaskStart {
            description: "Mine".to_string(),
            scopes: vec!["a.txt:1-3".to_string()],
        },
    );
    net.edit(0, "a.txt", b"A\nB\nC9\n");
    assert_eq!(net.revision(), 1);
    assert_eq!(net.machines[1].text("a.txt"), "A\nB\nC9\n");
}

#[test]
fn a_replica_ends_up_with_the_manifest_of_the_host() {
    let mut net = two();
    net.edit(0, "a.txt", b"A1\nB\nC\n");
    net.disconnect(1);
    net.edit(0, "b.txt", b"b\n");
    net.remove(0, "a.txt");
    net.connect(1);
    net.tick(10_000);
    let host = state_hash(&net.host.store().manifest_all());
    for m in &net.machines {
        assert_eq!(state_hash(&m.engine.store().replica_manifest()), host);
        assert_eq!(m.engine.store().last_applied_revision(), 3);
        assert!(m.engine.has_room());
    }
    assert!(net.host.has_room());
}

// ------------------------------------------------------- nothing is overwritten

#[test]
fn an_edit_saved_while_another_is_rebased_is_kept() {
    let mut net = two();
    // The host's merge comes to content this machine holds already.
    net.edit(1, "copy.txt", b"A1\nB\nC1\n");
    net.disconnect(1);
    net.edit(1, "a.txt", b"A\nB\nC1\n");
    net.edit(1, "a.txt", b"A\nB\nC2\n");
    net.edit(0, "a.txt", b"A1\nB\nC\n");
    net.machines[1].during_merge = Some(("a.txt".to_string(), b"A\nB\nC3\n".to_vec()));
    net.connect(1);
    net.tick(10_000);
    net.tick(10_000);
    assert!(net.machines[1].during_merge.is_none());
    assert_eq!(net.machines[1].text("a.txt"), "A1\nB\nC3\n");
    assert_eq!(net.machines[0].text("a.txt"), "A1\nB\nC3\n");
    assert_eq!(net.host.store().open_conflicts().len(), 0);
}

#[test]
fn an_edit_saved_while_a_conflict_is_found_is_kept() {
    let mut net = two();
    net.disconnect(1);
    net.edit(1, "a.txt", b"A\nGAMMA\nC\n");
    net.edit(0, "a.txt", b"A\nBETA\nC\n");
    net.machines[1].late = Some(("a.txt".to_string(), b"A\nDELTA\nC\n".to_vec()));
    net.connect(1);
    net.tick(10_000);
    net.tick(10_000);
    assert!(net.machines[1].late.is_none());
    let newest = weave::util::sha256_hex(b"A\nDELTA\nC\n");
    let kept = host_referenced(net.host.store()).contains(&newest)
        || net.machines[1].text("a.txt") == "A\nDELTA\nC\n";
    assert!(kept, "the newest bytes are nowhere");
}

// ------------------------------------------------------------ merges that fail

#[test]
fn a_merge_that_cannot_be_run_is_answered() {
    let mut net = two();
    net.host.on_submit(2, 2, operation(5, None, "a\nb\n"), None, 1);
    let base = FileEntry::from_bytes(b"a\nb\n", GitMode::Regular);
    let mut theirs = operation(6, Some(base.clone()), "A\nb\n");
    theirs.base_revision = 1;
    net.host.on_submit(2, 2, theirs, None, 2);
    assert_eq!(net.revision(), 2);
    results(&mut net.host);

    let mine = || {
        let mut op = operation(7, Some(base.clone()), "a\nB\n");
        op.base_revision = 1;
        op
    };
    match net.host.on_submit(2, 2, mine(), None, 3) {
        HostStep::NeedsMerge(op) => net.host.merge_failed(2, &op, git_error("git is gone")),
        _ => panic!("both sides changed"),
    }
    assert_eq!(net.revision(), 2);
    let first = format!("{:?}", results(&mut net.host));
    assert!(first.contains("Rejected"));
    assert!(first.contains("git is gone"));
    // The same answer when it is asked again.
    net.host.on_submit(2, 2, mine(), None, 4);
    assert_eq!(format!("{:?}", results(&mut net.host)), first);
}

// --------------------------------------------------------------------- repairs

fn interrupted() -> Machine {
    let mut store = ClientStore::new();
    store.put_publication_journal(&sample_publication(), PublicationStage::ObjectsInstalled);
    let mut m = Machine::over(store, BlobStore::open("/blobs"), 2, 2, Role::Participant);
    m.engine.repair_publications();
    m
}

fn repaired_lines(m: &mut Machine) -> Vec<String> {
    let mut out = Vec::new();
    for e in m.effects() {
        if let ClientEffect::Repaired(line) = e {
            out.push(line);
        }
    }
    out
}

#[test]
fn a_repair_is_reported_once_it_is_complete() {
    let mut m = interrupted();
    assert!(repaired_lines(&mut m).is_empty());
    assert_eq!(m.head, BASE);
    m.work(1);
    assert_eq!(m.head, "2".repeat(40));
    assert_eq!(repaired_lines(&mut m).len(), 1);
}

#[test]
fn a_session_whose_repair_fails_does_not_start() {
    let mut m = interrupted();
    while let Some(w) = m.engine.head() {
        if matches!(w, Work::InstallObjects { .. }) {
            break;
        }
        m.step(1);
    }
    m.engine.advance(Reply::Failed(git_error("no objects")), 1);
    assert!(m.engine.head().is_none());
    let mut exits = 0;
    for e in m.effects() {
        match e {
            ClientEffect::Exit(e) => {
                exits += 1;
                assert_eq!(e.message, "no objects");
            }
            ClientEffect::Repaired(_) => panic!("nothing was repaired"),
            _ => {}
        }
    }
    assert_eq!(exits, 1);
    assert_eq!(m.head, BASE);
}

// --------------------------------------------------------------------- commits

#[test]
fn a_commit_that_fails_leaves_the_branch_and_the_record_alone() {
    let mut net = two();
    let task = CommitTask::ReadHead { actor_id: 1, prepare_id: 9, message: "m".to_string() };
    let next =
        net.host.commit_next(task, CommitReply::Failed(git_error("no head")), net.now, 0);
    match next {
        CommitTask::Rejected { error } => assert_eq!(error.message, "no head"),
        _ => panic!("the command failed"),
    }
    let task = CommitTask::ReadHead { actor_id: 1, prepare_id: 9, message: "m".to_string() };
    match net.host.commit_next(task, CommitReply::Oid(BASE.to_string()), net.now, 0) {
        CommitTask::Rejected { error } => {
            assert_eq!(error.class, ErrorClass::UsageError);
            assert!(error.message.starts_with("No Weave commit preparation "));
        }
        _ => panic!("there is no such preparation"),
    }
    assert!(net.host.store().latest_publication().is_none());
}

#[test]
fn publications_stand_by_sequence_however_they_are_put() {
    let mut store = HostStore::new(Vec::new());
    for n in [2u64, 5, 3] {
        let mut p = sample_publication();
        p.sequence = n;
        store.put_publication(p);
    }
    assert_eq!(store.latest_publication().unwrap().sequence, 5);
    let after: Vec<u64> = store.publications_after(2).iter().map(|p| p.sequence).collect();
    assert_eq!(after, vec![3, 5]);
}

// ------------------------------------------------------------------ late news

/// A machine with one edit on its way, and the operation that carries it.
fn edited(rel: &str, bytes: &[u8]) -> (Machine, u128) {
    let mut m = connected_machine();
    m.write(rel, bytes, 2);
    m.engine.on_watch_batch(vec![rel.to_string()], Vec::new());
    let mut sent = m.drain(3);
    let mut offer = None;
    for s in &sent {
        if let ClientMessage::Blob { blob: BlobControl::Offer { transfer_id, hash, .. } } = s {
            offer = Some((*transfer_id, hash.clone()));
        }
    }
    let (transfer_id, hash) = offer.expect("the content is offered first");
    m.engine.on_blob(BlobControl::Have { transfer_id, hash }, fresh_disk());
    sent.extend(m.drain(4));
    for s in sent {
        if let ClientMessage::SubmitOperation { operation } = s {
            return (m, operation.operation_id);
        }
    }
    panic!("nothing was submitted");
}

#[test]
fn a_barrier_is_not_answered_while_canonical_content_is_owed_to_a_conflict() {
    let (mut m, operation_id) = edited("notes.md", b"mine\n");
    let theirs = FileEntry::from_bytes(b"theirs\n", GitMode::Regular);
    m.engine.on_host_message(
        HostMessage::OperationResult {
            operation_id,
            outcome: Box::new(OperationOutcome::Conflicted {
                conflict_id: 6,
                kind: ConflictKind::ConcurrentCreate,
                revision: 0,
                canonical_entry: Some(theirs),
            }),
        },
        5,
    );
    m.drain(5);
    assert_eq!(m.text("notes.md"), "mine\n");
    m.engine.on_host_message(HostMessage::BarrierStart { barrier_id: 8 }, 6);
    assert!(!answered(&m.drain(6)), "answered despite content owed to a conflict");

    arrive(&mut m, 1, b"theirs\n");
    let mut sent = m.drain(7);
    m.engine.on_tick(10_000);
    sent.extend(m.drain(10_000));
    assert_eq!(m.text("notes.md"), "theirs\n");
    assert!(answered(&sent));
}

#[test]
fn a_late_answer_replaces_no_newer_knowledge() {
    let (mut m, operation_id) = edited("notes.md", b"mine\n");
    let mine = FileEntry::from_bytes(b"mine\n", GitMode::Regular);
    let other = FileEntry::from_bytes(b"theirs\n", GitMode::Regular);
    m.engine.on_host_message(broadcast(1, "notes.md", mine.clone()), 5);
    m.engine.on_host_message(broadcast(2, "other.md", other), 5);
    m.drain(5);
    let answer = || HostMessage::OperationResult {
        operation_id,
        outcome: Box::new(OperationOutcome::Accepted {
            revision: 1,
            canonical_entry: Some(mine.clone()),
        }),
    };
    m.engine.on_host_message(answer(), 6);
    m.drain(6);
    m.engine.on_host_message(answer(), 7);
    m.drain(7);
    let s = m.engine.store().path_state(&path("notes.md"));
    assert_eq!(s.confirmed, Some(mine));
    assert_eq!(s.confirmed_revision, 1);
    assert!(s.in_flight.is_none());
}

fn row(rel: &str, bytes: &[u8]) -> ManifestEntry {
    ManifestEntry { path: path(rel), entry: FileEntry::from_bytes(bytes, GitMode::Regular) }
}

#[test]
fn the_last_row_of_a_path_counts() {
    let sent = || vec![row("b.txt", b"b\n"), row("a.txt", b"old\n"), row("a.txt", b"new\n")];
    let meant = vec![row("a.txt", b"new\n"), row("b.txt", b"b\n")];

    let mut m = connected_machine();
    m.engine.on_host_message(
        HostMessage::ManifestSnapshot {
            snapshot_revision: 1,
            manifest: sent(),
            host_state_hash: state_hash(&sent()),
        },
        2,
    );
    m.drain(2);
    assert!(m.engine.store().path_state(&path("a.txt")).confirmed.is_none());

    let mut m = connected_machine();
    m.engine.on_host_message(
        HostMessage::ManifestSnapshot {
            snapshot_revision: 1,
            manifest: sent(),
            host_state_hash: state_hash(&meant),
        },
        2,
    );
    let asked: Vec<String> = m
        .drain(2)
        .into_iter()
        .filter_map(|s| match s {
            ClientMessage::RequestBlobs { hashes } => Some(hashes),
            _ => None,
        })
        .flatten()
        .collect();
    let wanted: Vec<String> = meant.iter().map(|m| m.entry.blob_hash.clone()).collect();
    assert_eq!(asked, wanted);
    for r in meant {
        assert_eq!(m.engine.store().path_state(&r.path).confirmed, Some(r.entry));
    }
}

// -------------------------------------------------------------- who has left

/// A host with a barrier that everybody but the second participant answered.
fn half_answered() -> (Net, i64) {
    let mut net = two();
    let now = net.now;
    net.host.take_effects();
    let step = net.host.on_message(
        1,
        ClientMessage::CommitPrepare { request_id: 9, allow_active_tasks: false },
        now,
    );
    assert!(matches!(step, HostStep::Done));
    let mut started = None;
    for e in net.host.take_effects() {
        if let HostEffect::Send { message: HostMessage::BarrierStart { barrier_id }, .. } = e {
            started = Some(barrier_id);
        }
    }
    let barrier_id = started.expect("a barrier");
    let ack = ClientMessage::BarrierAck { barrier_id, watermark: 0 };
    assert!(matches!(net.host.on_message(1, ack, now), HostStep::Done));
    let ready = ClientMessage::BarrierReady { barrier_id, ok: true, detail: String::new() };
    assert!(matches!(net.host.on_message(1, ready, now), HostStep::Done));
    net.host.take_effects();
    (net, now)
}

fn names_of(effects: Vec<HostEffect>) -> Vec<&'static str> {
    effects
        .iter()
        .filter_map(|e| match e {
            HostEffect::Send { message, .. } => Some(match message {
                HostMessage::BarrierEnd { .. } => "end",
                HostMessage::PrepareResult { .. } => "prepared",
                HostMessage::Control { .. } => "control",
                HostMessage::Presence { .. } => "presence",
                _ => "other",
            }),
            _ => None,
        })
        .collect()
}

#[test]
fn a_barrier_does_not_wait_for_somebody_who_left() {
    let (mut net, now) = half_answered();
    // Nothing has changed yet: the tick leaves it running.
    assert!(matches!(net.host.tick_barrier(now + 1), HostStep::Done));
    assert!(net.host.on_tick(now + 1).barrier);
    assert!(net.host.take_effects().is_empty());

    match net.host.lose_connection(2, now + 2) {
        HostStep::Finished(f) => {
            assert!(f.presence_due);
            assert_eq!(f.requester_conn, 1);
            net.host.conclude(f.requester_conn, f.request_id, f.outcome, f.presence_due);
        }
        _ => panic!("nobody was left to wait for"),
    }
    assert!(!net.host.on_tick(now + 3).barrier);
    assert_eq!(names_of(net.host.take_effects()), vec!["end", "prepared", "control", "presence"]);
}

#[test]
fn somebody_else_leaving_is_only_told() {
    let (mut net, now) = half_answered();
    assert!(matches!(net.host.lose_connection(1, now + 2), HostStep::Done));
    assert!(net.host.on_tick(now + 3).barrier, "the other one has still to answer");
    let effects = net.host.take_effects();
    match &effects[..] {
        [HostEffect::Send { to, message: HostMessage::Presence { peers } }] => {
            assert_eq!(to, &vec![2]);
            let online: Vec<u128> =
                peers.iter().filter(|p| p.online).map(|p| p.actor_id).collect();
            assert_eq!(online, vec![2]);
            assert_eq!(peers.len(), 2);
        }
        _ => panic!("everybody who is left hears who is present"),
    }
}

#[test]
fn a_barrier_ends_when_its_time_is_over() {
    let (mut net, now) = half_answered();
    assert!(matches!(net.host.tick_barrier(now + 20_000), HostStep::Done));
    match net.host.tick_barrier(now + 20_001) {
        HostStep::Finished(f) => {
            assert!(!f.presence_due);
            net.host.conclude(f.requester_conn, f.request_id, f.outcome, f.presence_due);
        }
        _ => panic!("the time was over"),
    }
    assert_eq!(names_of(net.host.take_effects()), vec!["end", "prepared", "control"]);
    assert!(matches!(net.host.tick_barrier(now + 20_002), HostStep::Done));
}

#[test]
fn a_barrier_is_over_at_the_next_tick_when_nobody_is_left() {
    let (mut net, now) = half_answered();
    net.host.on_disconnected(2);
    assert!(matches!(net.host.tick_barrier(now + 1), HostStep::Finished(_)));
}

#[test]
fn a_withheld_operation_of_somebody_who_left_is_dropped() {
    let mut net = two();
    assert!(matches!(net.host.on_released(7, operation(5, None, "x"), 1), HostStep::Done));
    assert_eq!(net.revision(), 0);
    assert!(matches!(net.host.on_released(2, operation(6, None, "x"), 1), HostStep::Done));
    assert_eq!(net.revision(), 1);
}
