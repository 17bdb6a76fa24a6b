//! `weave recover`: diagnostics first, repair second, destruction never.

use vstd::prelude::*;

use crate::proto::{rows, ManifestEntry, RowView};
use crate::blobs::BlobStore;
use crate::model::{EntryView, FileEntry};
use crate::store_client::{ClientStore, JournalRow, JournalView, PathRowView, StateView};
use crate::text::{
    contains_text, decimal, decimal_text, has_text, join, join_text, lemma_texts_push, texts, views,
};
use crate::util::{fmt_revision, oid_head, revision_form, short_oid};

verus! {

#[derive(Debug)]
pub struct RecoverReport {
    pub role: Option<String>,
    pub findings: Vec<String>,
    pub repairs: Vec<String>,
    pub export_directory: Option<String>,
    pub healthy: bool,
}

#[derive(Debug)]
pub struct RecoverOptions {
    /// Rebuild the derived canonical manifest from durable revision history.
    pub rebuild: bool,
    /// Export the latest recoverable canonical files to a directory.
    pub export: Option<String>,
}

fn say(lines: &mut Vec<String>, line: String)
    ensures
        texts(final(lines)@) == texts(old(lines)@).push(line@),
{
    let ghost before = lines@;
    lines.push(line);
    proof {
        lemma_texts_push(before, line);
    }
}

// ---------------------------------------------------------------------------
// The replica
// ---------------------------------------------------------------------------

/// Whether an entry names content that is not here.
pub open spec fn is_missing(held: Map<Seq<char>, u64>, e: Option<EntryView>) -> nat {
    match e {
        Some(x) => if held.contains_key(x.blob_hash) {
            0
        } else {
            1
        },
        None => 0,
    }
}

/// How many references of a path are to content that is not here.
pub open spec fn missing_of(held: Map<Seq<char>, u64>, s: StateView) -> nat {
    is_missing(held, s.confirmed) + is_missing(held, s.materialized) + (match s.conflict_draft {
        Some(d) => is_missing(held, d.entry),
        None => 0,
    })
}

pub open spec fn count_missing(held: Map<Seq<char>, u64>, list: Seq<PathRowView>) -> nat
    decreases list.len(),
{
    if list.len() == 0 {
        0
    } else {
        count_missing(held, list.drop_last()) + missing_of(held, list.last().state)
    }
}

fn absent(blobs: &BlobStore, e: &Option<FileEntry>) -> (n: u64)
    ensures
        n == is_missing(blobs.sizes(), crate::model::entry_view(*e)),
        n <= 1,
{
    match e {
        Some(x) => if blobs.has(x.blob_hash.as_str()) {
            0
        } else {
            1
        },
        None => 0,
    }
}

/// The references of a manifest to content that is not here, a line for each.
pub open spec fn lost_references(held: Map<Seq<char>, u64>, list: Seq<RowView>) -> Seq<Seq<char>>
    decreases list.len(),
{
    if list.len() == 0 {
        Seq::empty()
    } else {
        let before = lost_references(held, list.drop_last());
        let row = list.last();
        if held.contains_key(row.entry.blob_hash) {
            before
        } else {
            before.push(row.path + " -> "@ + row.entry.blob_hash)
        }
    }
}

pub fn missing_canonical(manifest: &Vec<ManifestEntry>, blobs: &BlobStore) -> (lines: Vec<String>)
    ensures
        texts(lines@) == lost_references(blobs.sizes(), rows(manifest@)),
{
    let ghost all = rows(manifest@);
    let mut lines: Vec<String> = Vec::new();
    let mut i: usize = 0;
    proof {
        assert(texts(lines@) =~= lost_references(blobs.sizes(), all.take(0)));
    }
    while i < manifest.len()
        invariant
            all == rows(manifest@),
            i <= manifest@.len(),
            texts(lines@) == lost_references(blobs.sizes(), all.take(i as int)),
        decreases manifest@.len() - i,
    {
        proof {
            assert(all.take(i + 1).drop_last() =~= all.take(i as int));
            assert(all.take(i + 1).last() == manifest@[i as int]@);
        }
        let m = &manifest[i];
        if !blobs.has(m.entry.blob_hash.as_str()) {
            let mut line = m.path.as_str().to_owned();
            line.push_str(" -> ");
            line.push_str(m.entry.blob_hash.as_str());
            say(&mut lines, line);
        }
        i = i + 1;
    }
    proof {
        assert(all.take(i as int) =~= all);
    }
    lines
}

/// How many references of a replica are to content that is not here.
pub fn missing_local(store: &ClientStore, blobs: &BlobStore) -> (n: u64)
    requires
        store@.states.len() <= 0x1000_0000_0000_0000,
    ensures
        n == count_missing(blobs.sizes(), store@.states),
{
    let rows = store.all_rows();
    let ghost all = store@.states;
    let mut n: u64 = 0;
    let mut i: usize = 0;
    proof {
        assert(views(rows@).len() == rows@.len());
        assert(count_missing(blobs.sizes(), all.take(0)) == 0);
    }
    while i < rows.len()
        invariant
            all == store@.states,
            views(rows@) == all,
            all.len() <= 0x1000_0000_0000_0000,
            rows@.len() == all.len(),
            i <= rows@.len(),
            n <= 3 * i,
            n == count_missing(blobs.sizes(), all.take(i as int)),
        decreases rows@.len() - i,
    {
        proof {
            assert(all.take(i + 1).drop_last() =~= all.take(i as int));
            assert(all.take(i + 1).last() == views(rows@)[i as int]);
        }
        let s = &rows[i].state;
        n = n + absent(blobs, &s.confirmed) + absent(blobs, &s.materialized);
        match &s.conflict_draft {
            Some(d) => {
                n = n + absent(blobs, &d.entry);
            },
            None => {},
        }
        i = i + 1;
    }
    proof {
        assert(all.take(i as int) =~= all);
    }
    n
}

/// What was found of a replica.
#[derive(Debug)]
pub struct ReplicaFacts {
    pub problems: Vec<String>,
    pub incomplete: Vec<JournalRow>,
    pub missing: u64,
    pub pending: u64,
}

pub open spec fn interrupted_line(j: JournalView) -> Seq<char> {
    "Interrupted Git publication "@ + oid_head(j.publication.descriptor.commit_oid) + " at stage "@
        + j.stage.name() + ". Run `weave resume` to finish it."@
}

pub open spec fn publication_findings(list: Seq<JournalView>) -> Seq<Seq<char>> {
    if list.len() == 0 {
        seq!["No interrupted Git publication on this machine"@]
    } else {
        list.map_values(|j: JournalView| interrupted_line(j))
    }
}

pub open spec fn database_finding(what: Seq<char>, problems: Seq<Seq<char>>) -> Seq<char> {
    if problems.len() == 0 {
        what + " database integrity: ok"@
    } else {
        what + " database problems: "@ + join(problems, "; "@)
    }
}

pub open spec fn replica_findings(f: ReplicaFacts) -> Seq<Seq<char>> {
    seq![database_finding("Replica"@, texts(f.problems@))] + publication_findings(
        views(f.incomplete@),
    ) + seq![
        if f.missing == 0 {
            "Replica blob references: ok"@
        } else {
            decimal(f.missing as nat)
                + " replica blob reference(s) are missing; the host copy remains authoritative and will be re-fetched on reconnect."@
        },
        "Outbox: "@ + decimal(f.pending as nat) + " path(s) with unconfirmed local work"@,
    ]
}

fn database_line(what: &str, problems: &Vec<String>) -> (s: String)
    ensures
        s@ == database_finding(what@, texts(problems@)),
{
    proof {
        assert(texts(problems@).len() == problems@.len());
    }
    let mut s = what.to_owned();
    if problems.len() == 0 {
        s.push_str(" database integrity: ok");
    } else {
        s.push_str(" database problems: ");
        s.push_str(join_text(problems, "; ").as_str());
    }
    s
}

fn find_publications(list: &Vec<JournalRow>) -> (lines: Vec<String>)
    ensures
        texts(lines@) == publication_findings(views(list@)),
{
    let mut lines: Vec<String> = Vec::new();
    if list.len() == 0 {
        lines.push("No interrupted Git publication on this machine".to_owned());
        proof {
            assert(texts(lines@) =~= publication_findings(views(list@)));
        }
        return lines;
    }
    let mut i: usize = 0;
    while i < list.len()
        invariant
            i <= list@.len(),
            lines@.len() == i,
            forall|k: int| 0 <= k < i ==> (#[trigger] lines@[k])@ == interrupted_line(list@[k]@),
        decreases list@.len() - i,
    {
        let mut line = "Interrupted Git publication ".to_owned();
        line.push_str(short_oid(list[i].publication.descriptor.commit_oid.as_str()).as_str());
        line.push_str(" at stage ");
        line.push_str(list[i].stage.as_str());
        line.push_str(". Run `weave resume` to finish it.");
        lines.push(line);
        i = i + 1;
    }
    proof {
        assert(texts(lines@) =~= publication_findings(views(list@)));
    }
    lines
}

/// What is said of a replica.
pub fn find_replica(f: &ReplicaFacts) -> (lines: Vec<String>)
    ensures
        texts(lines@) == replica_findings(*f),
{
    let mut lines: Vec<String> = Vec::new();
    say(&mut lines, database_line("Replica", &f.problems));
    let ghost first = texts(lines@);
    let mut more = find_publications(&f.incomplete);
    let ghost second = texts(more@);
    let ghost before = lines@;
    let ghost added = more@;
    lines.append(&mut more);
    proof {
        assert(first =~= seq![database_finding("Replica"@, texts(f.problems@))]);
        assert(texts(lines@) =~= texts(before) + texts(added));
    }
    if f.missing == 0 {
        say(&mut lines, "Replica blob references: ok".to_owned());
    } else {
        let mut line = decimal_text(f.missing);
        line.push_str(
            " replica blob reference(s) are missing; the host copy remains authoritative and will be re-fetched on reconnect.",
        );
        say(&mut lines, line);
    }
    let mut line = "Outbox: ".to_owned();
    line.push_str(decimal_text(f.pending).as_str());
    line.push_str(" path(s) with unconfirmed local work");
    say(&mut lines, line);
    proof {
        assert(texts(lines@) =~= replica_findings(*f));
    }
    lines
}

// ---------------------------------------------------------------------------
// Canonical state
// ---------------------------------------------------------------------------

/// What was found of canonical state.
#[derive(Debug)]
pub struct CanonicalFacts {
    pub problems: Vec<String>,
    /// References to content that is not here, one line each.
    pub missing: Vec<String>,
    pub revision: u64,
    pub files: u64,
    pub publications: u64,
    pub open_conflicts: u64,
}

pub open spec fn shown_missing(list: Seq<Seq<char>>) -> Seq<Seq<char>> {
    (if list.len() <= 10 {
        list
    } else {
        list.take(10)
    }).map_values(|s: Seq<char>| "  "@ + s)
}

pub open spec fn reference_findings(missing: Seq<Seq<char>>) -> Seq<Seq<char>> {
    if missing.len() == 0 {
        seq!["Canonical blob references: ok"@]
    } else {
        seq![
            "IntegrityError: "@ + decimal(missing.len())
                + " canonical blob reference(s) are missing"@,
        ] + shown_missing(missing)
    }
}

pub open spec fn canonical_findings(f: CanonicalFacts) -> Seq<Seq<char>> {
    seq![database_finding("Canonical"@, texts(f.problems@))] + reference_findings(
        texts(f.missing@),
    ) + seq![
        "Canonical revision: "@ + revision_form(f.revision),
        "Canonical files: "@ + decimal(f.files as nat),
        "Publications: "@ + decimal(f.publications as nat),
        "Open conflicts: "@ + decimal(f.open_conflicts as nat),
    ]
}

fn find_references(missing: &Vec<String>) -> (lines: Vec<String>)
    ensures
        texts(lines@) == reference_findings(texts(missing@)),
{
    let mut lines: Vec<String> = Vec::new();
    proof {
        assert(texts(missing@).len() == missing@.len());
    }
    if missing.len() == 0 {
        lines.push("Canonical blob references: ok".to_owned());
        proof {
            assert(texts(lines@) =~= reference_findings(texts(missing@)));
        }
        return lines;
    }
    let mut head = "IntegrityError: ".to_owned();
    head.push_str(decimal_text(missing.len() as u64).as_str());
    head.push_str(" canonical blob reference(s) are missing");
    let ghost first = head@;
    lines.push(head);
    let ghost start = texts(lines@);
    let ghost all = shown_missing(texts(missing@));
    let mut i: usize = 0;
    proof {
        assert(start =~= seq![first]);
        assert(texts(lines@) =~= start + all.take(0));
    }
    while i < missing.len() && i < 10
        invariant
            all == shown_missing(texts(missing@)),
            texts(missing@).len() == missing@.len(),
            i <= missing@.len(),
            i <= 10,
            texts(lines@) == start + all.take(i as int),
        decreases missing@.len() - i,
    {
        let mut line = "  ".to_owned();
        line.push_str(missing[i].as_str());
        proof {
            assert(line@ == all[i as int]);
            assert((start + all.take(i as int)).push(line@) =~= start + all.take(i + 1));
        }
        say(&mut lines, line);
        i = i + 1;
    }
    proof {
        assert(all.take(i as int) =~= all);
    }
    lines
}

fn counted(what: &str, n: u64) -> (s: String)
    ensures
        s@ == what@ + decimal(n as nat),
{
    let mut s = what.to_owned();
    s.push_str(decimal_text(n).as_str());
    s
}

/// What is said of canonical state.
pub fn find_canonical(f: &CanonicalFacts) -> (lines: Vec<String>)
    ensures
        texts(lines@) == canonical_findings(*f),
{
    let mut lines: Vec<String> = Vec::new();
    say(&mut lines, database_line("Canonical", &f.problems));
    let ghost first = texts(lines@);
    let mut more = find_references(&f.missing);
    let ghost second = texts(more@);
    let ghost before = lines@;
    let ghost added = more@;
    lines.append(&mut more);
    proof {
        assert(first =~= seq![database_finding("Canonical"@, texts(f.problems@))]);
        assert(texts(lines@) =~= texts(before) + texts(added));
    }
    let mut revision = "Canonical revision: ".to_owned();
    revision.push_str(fmt_revision(f.revision).as_str());
    say(&mut lines, revision);
    say(&mut lines, counted("Canonical files: ", f.files));
    say(&mut lines, counted("Publications: ", f.publications));
    say(&mut lines, counted("Open conflicts: ", f.open_conflicts));
    proof {
        assert(texts(lines@) =~= canonical_findings(*f));
    }
    lines
}

/// What is said of a rebuilt manifest.
pub fn rebuilt_line(count: u64) -> (s: String)
    ensures
        s@ == "Rebuilt the canonical manifest from durable revision history ("@ + decimal(
            count as nat,
        ) + " file(s))."@,
{
    let mut s = counted("Rebuilt the canonical manifest from durable revision history (", count);
    s.push_str(" file(s)).");
    s
}

/// What is said of an export.
pub fn exported_line(exported: u64, dir: &str, skipped: u64) -> (s: String)
    ensures
        s@ == "Exported "@ + decimal(exported as nat) + " canonical file(s) to "@ + dir@ + " ("@
            + decimal(skipped as nat) + " unavailable)."@,
{
    let mut s = counted("Exported ", exported);
    s.push_str(" canonical file(s) to ");
    s.push_str(dir);
    s.push_str(" (");
    s.push_str(decimal_text(skipped).as_str());
    s.push_str(" unavailable).");
    s
}

// ---------------------------------------------------------------------------
// The report
// ---------------------------------------------------------------------------

/// Whether a finding is a problem.
pub open spec fn is_problem(f: Seq<char>) -> bool {
    contains_text(f, "IntegrityError"@) || contains_text(f, "problems:"@) || contains_text(
        f,
        "Interrupted"@,
    )
}

pub open spec fn is_healthy(findings: Seq<Seq<char>>) -> bool {
    forall|i: int| 0 <= i < findings.len() ==> !is_problem(#[trigger] findings[i])
}

pub fn healthy(findings: &Vec<String>) -> (yes: bool)
    ensures
        yes == is_healthy(texts(findings@)),
{
    let mut i: usize = 0;
    while i < findings.len()
        invariant
            i <= findings@.len(),
            forall|k: int| 0 <= k < i ==> !is_problem(#[trigger] texts(findings@)[k]),
        decreases findings@.len() - i,
    {
        let f = findings[i].as_str();
        if has_text(f, "IntegrityError") || has_text(f, "problems:") || has_text(f, "Interrupted") {
            proof {
                assert(is_problem(texts(findings@)[i as int]));
            }
            return false;
        }
        i = i + 1;
    }
    true
}

/// The findings of a machine: its replica, canonical state, then the blob
/// store.
pub open spec fn findings_of(
    replica: Option<ReplicaFacts>,
    canonical: Option<CanonicalFacts>,
    blobs: Seq<char>,
) -> Seq<Seq<char>> {
    (match replica {
        Some(f) => replica_findings(f),
        None => Seq::empty(),
    }) + (match canonical {
        Some(f) => canonical_findings(f),
        None => Seq::empty(),
    }) + seq![blobs]
}

/// Put a report together. `blobs` says what the blob store holds.
pub fn run(
    role: Option<String>,
    replica: &Option<ReplicaFacts>,
    canonical: &Option<CanonicalFacts>,
    blobs: String,
    repairs: Vec<String>,
    export_directory: Option<String>,
) -> (r: RecoverReport)
    ensures
        r.role == role,
        r.repairs == repairs,
        r.export_directory == export_directory,
        texts(r.findings@) == findings_of(*replica, *canonical, blobs@),
        r.healthy == is_healthy(texts(r.findings@)),
{
    let mut findings: Vec<String> = Vec::new();
    proof {
        assert(texts(findings@) =~= Seq::<Seq<char>>::empty());
    }
    match replica {
        Some(f) => {
            findings = find_replica(f);
        },
        None => {},
    }
    let ghost first = texts(findings@);
    match canonical {
        Some(f) => {
            let mut more = find_canonical(f);
            let ghost before = findings@;
            let ghost added = more@;
            findings.append(&mut more);
            proof {
                assert(texts(findings@) =~= texts(before) + texts(added));
            }
        },
        None => {
            proof {
                assert(first + Seq::<Seq<char>>::empty() =~= first);
            }
        },
    }
    let ghost both = texts(findings@);
    let ghost last = blobs@;
    say(&mut findings, blobs);
    proof {
        assert(texts(findings@) =~= both + seq![last]);
    }
    let ok = healthy(&findings);
    RecoverReport { role, findings, repairs, export_directory, healthy: ok }
}

pub open spec fn verdict(healthy: bool) -> Seq<Seq<char>> {
    if healthy {
        seq!["No integrity problems found."@]
    } else {
        seq![
            "Weave found problems above. No data was discarded."@,
            "Use `weave recover --export <dir>` to copy the latest recoverable canonical"@,
            "files to a safe directory before taking any further action."@,
        ]
    }
}

pub open spec fn report_lines(r: RecoverReport) -> Seq<Seq<char>> {
    (match r.role {
        Some(role) => seq!["Session role: "@ + role@, ""@],
        None => Seq::empty(),
    }) + texts(r.findings@) + (if r.repairs@.len() > 0 {
        seq![""@] + texts(r.repairs@)
    } else {
        Seq::empty()
    }) + seq![""@] + verdict(r.healthy)
}

fn add_copy(lines: &mut Vec<String>, more: &Vec<String>)
    ensures
        texts(final(lines)@) == texts(old(lines)@) + texts(more@),
{
    let mut copy = crate::model::copy_texts(more);
    let ghost before = lines@;
    let ghost added = copy@;
    lines.append(&mut copy);
    proof {
        assert(texts(lines@) =~= texts(before) + texts(added));
    }
}

/// What `weave recover` prints.
pub fn print_report(r: &RecoverReport) -> (lines: Vec<String>)
    ensures
        texts(lines@) == report_lines(*r),
{
    let mut lines: Vec<String> = Vec::new();
    match &r.role {
        Some(role) => {
            let mut line = "Session role: ".to_owned();
            line.push_str(role.as_str());
            say(&mut lines, line);
            say(&mut lines, "".to_owned());
            proof {
                assert(texts(lines@) =~= seq!["Session role: "@ + role@, ""@]);
            }
        },
        None => {
            proof {
                assert(texts(lines@) =~= Seq::<Seq<char>>::empty());
            }
        },
    }
    add_copy(&mut lines, &r.findings);
    let ghost two = texts(lines@);
    if r.repairs.len() > 0 {
        say(&mut lines, "".to_owned());
        add_copy(&mut lines, &r.repairs);
        proof {
            assert(texts(lines@) =~= two + (seq![""@] + texts(r.repairs@)));
        }
    } else {
        proof {
            assert(two + Seq::<Seq<char>>::empty() =~= two);
        }
    }
    let ghost three = texts(lines@);
    say(&mut lines, "".to_owned());
    if r.healthy {
        say(&mut lines, "No integrity problems found.".to_owned());
    } else {
        say(&mut lines, "Weave found problems above. No data was discarded.".to_owned());
        say(
            &mut lines,
            "Use `weave recover --export <dir>` to copy the latest recoverable canonical".to_owned(),
        );
        say(
            &mut lines,
            "files to a safe directory before taking any further action.".to_owned(),
        );
    }
    proof {
        assert(texts(lines@) =~= three + seq![""@] + verdict(r.healthy));
    }
    lines
}

} // verus!
