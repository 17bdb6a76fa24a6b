//! The replica: installing Git publications.

use vstd::prelude::*;

use crate::client::{Awaited, ClientEngine, Work};
use crate::client_rules::{
    install_awaited, interrupted, is_awaited, objects_installed, on_publication, place_publication,
    publish, publish_works, ready_publications, ref_read, ref_updated, repair_line, repair_works,
    tree_read, AwaitedView, WorkView,
};
use crate::error::integrity;
use crate::model::{GitPublication, PublicationStage, PublicationView};
use crate::text::{lemma_views_push, opt_view, same_text, views};
use crate::util::{fmt_revision, short_oid};

verus! {

// ---------------------------------------------------------------------------
// Publications
// ---------------------------------------------------------------------------

proof fn lemma_place_publication(list: Seq<PublicationView>, p: PublicationView, at: int)
    requires
        0 <= at <= list.len(),
        at > 0 ==> list[at - 1].sequence <= p.sequence,
        forall|k: int| at <= k < list.len() ==> (#[trigger] list[k]).sequence > p.sequence,
    ensures
        place_publication(list, p) == list.insert(at, p),
    decreases list.len(),
{
    if at == list.len() {
        assert(list.insert(at, p) =~= list.push(p));
    } else {
        lemma_place_publication(list.drop_last(), p, at);
        assert(list.drop_last().insert(at, p).push(list.last()) =~= list.insert(at, p));
    }
}

impl ClientEngine {
    pub(crate) fn is_awaited(&self, hash: &str, sequence: u64) -> (yes: bool)
        ensures
            yes == is_awaited(self@.awaiting_pack, hash@, sequence),
    {
        let mut i: usize = 0;
        while i < self.awaiting_pack.len()
            invariant
                i <= self.awaiting_pack@.len(),
                forall|k: int|
                    0 <= k < i ==> !((#[trigger] views(self.awaiting_pack@)[k]).hash == hash@
                        && views(self.awaiting_pack@)[k].publication.sequence == sequence),
            decreases self.awaiting_pack@.len() - i,
        {
            if same_text(self.awaiting_pack[i].hash.as_str(), hash)
                && self.awaiting_pack[i].publication.sequence == sequence {
                proof {
                    let a = views(self.awaiting_pack@)[i as int];
                    assert(a.hash == hash@ && a.publication.sequence == sequence);
                }
                return true;
            }
            i = i + 1;
        }
        false
    }

    /// A publication waits for its pack.
    pub(crate) fn on_publication(&mut self, publication: GitPublication, pack: Option<String>)
        requires
            old(self).wf(),
        ensures
            final(self).wf(),
            final(self)@ == on_publication(old(self)@, publication@, opt_view(pack)),
    {
        proof {
            reveal(on_publication);
        }
        let absent = match &pack {
            Some(hash) => !self.traffic.holds(hash.as_str()),
            None => false,
        };
        if absent {
            match pack {
                Some(hash) => {
                    if !self.is_awaited(hash.as_str(), publication.sequence) {
                        let ghost before = self.awaiting_pack@;
                        let a = Awaited { hash: hash.clone(), publication };
                        self.awaiting_pack.push(a);
                        proof {
                            lemma_views_push(before, a);
                        }
                    }
                    self.want_blob(hash.as_str());
                },
                None => {},
            }
        } else {
            self.first_one(Work::Publish { publication, pack });
        }
    }

    pub(crate) fn install_awaited_publications(&mut self, hash: &str)
        requires
            old(self).wf(),
        ensures
            final(self).wf(),
            final(self)@ == install_awaited(old(self)@, hash@),
    {
        proof {
            reveal(install_awaited);
        }
        let ghost all = views(self.awaiting_pack@);
        let ghost keep = |a: AwaitedView| a.hash != hash@;
        let mut ready: Vec<GitPublication> = Vec::new();
        let mut kept: Vec<Awaited> = Vec::new();
        let mut i: usize = 0;
        proof {
            reveal(Seq::filter);
            assert(views(kept@) =~= all.take(0).filter(keep));
            assert(views(ready@) =~= ready_publications(all.take(0), hash@));
        }
        while i < self.awaiting_pack.len()
            invariant
                *self == *old(self),
                self.wf(),
                all == views(self.awaiting_pack@),
                keep == (|a: AwaitedView| a.hash != hash@),
                i <= self.awaiting_pack@.len(),
                views(kept@) == all.take(i as int).filter(keep),
                views(ready@) == ready_publications(all.take(i as int), hash@),
            decreases self.awaiting_pack@.len() - i,
        {
            let ghost kept0 = kept@;
            proof {
                reveal(Seq::filter);
                assert(all.take(i + 1).drop_last() =~= all.take(i as int));
                assert(all.take(i + 1).last() == self.awaiting_pack@[i as int]@);
            }
            let a = &self.awaiting_pack[i];
            if same_text(a.hash.as_str(), hash) {
                let p = a.publication.clone();
                let mut at: usize = ready.len();
                while at > 0 && ready[at - 1].sequence > p.sequence
                    invariant
                        at <= ready@.len(),
                        forall|k: int|
                            at <= k < ready@.len() ==> (#[trigger] views(ready@)[k]).sequence
                                > p.sequence,
                    decreases at,
                {
                    at = at - 1;
                }
                let ghost ready0 = ready@;
                proof {
                    if at > 0 {
                        assert(views(ready@)[at - 1] == ready@[at - 1]@);
                    }
                    lemma_place_publication(views(ready@), p@, at as int);
                }
                ready.insert(at, p);
                proof {
                    assert(views(ready@) =~= views(ready0).insert(at as int, p@));
                }
            } else {
                let k = Awaited { hash: a.hash.clone(), publication: a.publication.clone() };
                kept.push(k);
                proof {
                    lemma_views_push(kept0, k);
                }
            }
            i = i + 1;
        }
        proof {
            assert(all.take(i as int) =~= all);
        }
        self.awaiting_pack = kept;
        let mut works: Vec<Work> = Vec::new();
        let mut k: usize = 0;
        while k < ready.len()
            invariant
                k <= ready@.len(),
                works@.len() == k,
                forall|j: int|
                    0 <= j < k ==> (#[trigger] works@[j])@ == (WorkView::Publish {
                        publication: ready@[j]@,
                        pack: Some(hash@),
                    }),
            decreases ready@.len() - k,
        {
            works.push(
                Work::Publish { publication: ready[k].clone(), pack: Some(hash.to_owned()) },
            );
            k = k + 1;
        }
        proof {
            assert(views(works@) =~= publish_works(views(ready@), hash@));
        }
        self.first(works);
    }

    /// Install exact host-produced Git objects, journalling each step.
    pub(crate) fn apply_publication(&mut self, p: GitPublication, pack: Option<String>)
        requires
            old(self).wf(),
        ensures
            final(self).wf(),
            final(self)@ == publish(old(self)@, p@, opt_view(pack)),
    {
        proof {
            reveal(publish);
        }
        let complete = match self.store.publication_journal_stage(p.sequence) {
            Some(stage) => stage == PublicationStage::Complete,
            None => false,
        };
        if complete {
            self.store.set_last_publication_sequence(p.sequence);
            self.expected_head = p.descriptor.commit_oid;
            return;
        }
        self.store.put_publication_journal(&p, PublicationStage::Pending);
        self.first_one(Work::InstallObjects { publication: p, pack });
    }

    pub(crate) fn objects_installed(&mut self, p: GitPublication, present: bool, tree: Option<String>)
        requires
            old(self).wf(),
        ensures
            final(self).wf(),
            final(self)@ == objects_installed(old(self)@, p@, present, opt_view(tree)),
    {
        proof {
            reveal(objects_installed);
        }
        if !present {
            let mut m = "The published commit ".to_owned();
            m.push_str(short_oid(p.descriptor.commit_oid.as_str()).as_str());
            m.push_str(" is missing after installing the host's Git objects.");
            self.fail(integrity(m.as_str()));
            return;
        }
        let same = match &tree {
            Some(t) => same_text(t.as_str(), p.descriptor.tree_oid.as_str()),
            None => false,
        };
        if !same {
            self.fail(
                integrity("The published commit does not carry the tree named in its descriptor."),
            );
            return;
        }
        self.store.put_publication_journal(&p, PublicationStage::ObjectsInstalled);
        self.first_one(Work::ReadRef { publication: p });
    }

    pub(crate) fn ref_read(&mut self, p: GitPublication, current: Option<String>)
        requires
            old(self).wf(),
        ensures
            final(self).wf(),
            final(self)@ == ref_read(old(self)@, p@, opt_view(current)),
    {
        proof {
            reveal(ref_read);
        }
        let there = match &current {
            Some(c) => same_text(c.as_str(), p.descriptor.commit_oid.as_str()),
            None => false,
        };
        if there {
            self.ref_updated(p);
        } else {
            self.first_one(Work::UpdateRef { publication: p });
        }
    }

    pub(crate) fn ref_updated(&mut self, p: GitPublication)
        requires
            old(self).wf(),
        ensures
            final(self).wf(),
            final(self)@ == ref_updated(old(self)@, p@),
    {
        proof {
            reveal(ref_updated);
        }
        self.expected_head = p.descriptor.commit_oid.clone();
        self.store.put_publication_journal(&p, PublicationStage::RefUpdated);
        self.first_one(Work::ReadTree { publication: p });
    }

    pub(crate) fn tree_read(&mut self, p: GitPublication)
        requires
            old(self).wf(),
        ensures
            final(self).wf(),
            final(self)@ == tree_read(old(self)@, p@),
    {
        proof {
            reveal(tree_read);
        }
        self.store.put_publication_journal(&p, PublicationStage::IndexUpdated);
        self.store.put_publication_journal(&p, PublicationStage::Complete);
        self.store.set_last_publication_sequence(p.sequence);
        let mut text = "Git publication installed: ".to_owned();
        text.push_str(short_oid(p.descriptor.commit_oid.as_str()).as_str());
        text.push_str(" (");
        text.push_str(fmt_revision(p.descriptor.target_revision).as_str());
        text.push_str(")");
        self.note(text);
    }

    /// Finish what a crash interrupted: every publication that did not get to
    /// its end is taken up again, and each is announced once it is complete.
    pub fn repair_publications(&mut self)
        requires
            old(self).wf(),
        ensures
            final(self).wf(),
            final(self)@ == old(self)@.first(repair_works(interrupted(old(self)@.replica))),
    {
        let list = self.store.incomplete_publications();
        let ghost all = views(list@);
        let mut works: Vec<Work> = Vec::new();
        let mut i: usize = 0;
        proof {
            assert(views(works@) =~= repair_works(all.take(0)));
        }
        while i < list.len()
            invariant
                *self == *old(self),
                self.wf(),
                all == views(list@),
                i <= list@.len(),
                views(works@) == repair_works(all.take(i as int)),
            decreases list@.len() - i,
        {
            let publication = list[i].publication.clone();
            let stage = list[i].stage;
            let ghost before = views(works@);
            proof {
                assert(all.take(i + 1).drop_last() =~= all.take(i as int));
                assert(all.take(i + 1).last() == list@[i as int]@);
            }
            let again = publication.clone();
            works.push(Work::Publish { publication, pack: None });
            works.push(Work::Repaired { publication: again, stage });
            proof {
                assert(views(works@) =~= before + seq![
                    WorkView::Publish { publication: list@[i as int]@.publication, pack: None },
                    WorkView::Repaired {
                        publication: list@[i as int]@.publication,
                        stage: list@[i as int]@.stage,
                    },
                ]);
            }
            i = i + 1;
        }
        proof {
            assert(all.take(i as int) =~= all);
        }
        self.first(works);
    }
}

/// What is said of a publication that was taken up again.
pub(crate) fn repaired_line(p: &GitPublication, stage: PublicationStage) -> (s: String)
    ensures
        s@ == repair_line(p@, stage),
{
    let mut line = "resumed publication ".to_owned();
    line.push_str(short_oid(p.descriptor.commit_oid.as_str()).as_str());
    line.push_str(" from stage ");
    line.push_str(stage.as_str());
    line
}

} // verus!
