//! Commit collection: at most one commit per participant per height, with a
//! canonical result per height that all later commits must match.

use vstd::prelude::*;

verus! {

use crate::bytes::{bytes_eq, copy_bytes};
use crate::error::BftError;
use crate::lru::{
    bounded_insert, lru_capacity, lru_consistent, lru_contents, lru_get, lru_insert, lru_len,
    lru_new, lru_order, lru_pop_lru, promoted,
};
use vstd::pervasive::VecAdditionalExecFns;
use crate::whitebox::Commit;
use lru_cache::LruCache;
use std::collections::{HashMap, HashSet};

broadcast use vstd::std_specs::hash::group_hash_axioms;

/// Mathematical content of a [`CommitCollector`]: the committed results in
/// arrival order and the participant ids that have not committed yet.
pub ghost struct CommitWindow {
    /// The committed results, in arrival order.
    pub results: Seq<Seq<u8>>,
    /// The participant ids whose slot is still free.
    pub pending: Set<u8>,
}

/// The window created by the first commit of a height: the result is
/// recorded when the participant id is a known one, and that id's slot is
/// used up.
pub open spec fn fresh_window(n: u8, v: Seq<u8>) -> CommitWindow {
    CommitWindow {
        results: if set![0u8, 1u8, 2u8, 3u8].contains(n) {
            seq![v]
        } else {
            Seq::empty()
        },
        pending: set![0u8, 1u8, 2u8, 3u8].remove(n),
    }
}

/// Per height: a reserved slot per known participant id; a repeat from the
/// same id is rejected.
pub struct CommitCollector {
    commit_collector: Vec<Vec<u8>>,
    do_not_commit: HashSet<u8>,
}

impl CommitCollector {
    /// The collector's mathematical content.
    pub closed spec fn model(&self) -> CommitWindow {
        CommitWindow {
            results: Seq::new(self.commit_collector@.len(), |i: int| self.commit_collector@[i]@),
            pending: self.do_not_commit@,
        }
    }

    /// A collector with one free slot per known participant id.
    pub fn new() -> (r: CommitCollector)
        ensures
            r.model().results =~= Seq::empty(),
            r.model().pending =~= set![0u8, 1u8, 2u8, 3u8],
    {
        let mut commit_node: HashSet<u8> = HashSet::new();
        commit_node.insert(0);
        commit_node.insert(1);
        commit_node.insert(2);
        commit_node.insert(3);
        let r = CommitCollector { commit_collector: Vec::new(), do_not_commit: commit_node };
        proof {
            assert(r.model().results =~= Seq::empty());
            assert(r.model().pending =~= set![0u8, 1u8, 2u8, 3u8]);
        }
        r
    }

    /// Fills the participant's slot with its result; returns false and
    /// changes nothing when the slot was already used.
    pub fn add(&mut self, node_id: u8, consequence: Vec<u8>) -> (r: bool)
        ensures
            r == old(self).model().pending.contains(node_id),
            r ==> final(self).model().results == old(self).model().results.push(consequence@)
                && final(self).model().pending == old(self).model().pending.remove(node_id),
            !r ==> final(self).model() == old(self).model(),
    {
        if self.do_not_commit.contains(&node_id) {
            self.commit_collector.push(consequence);
            self.do_not_commit.remove(&node_id);
            proof {
                assert(self.model().results =~= old(self).model().results.push(consequence@));
            }
            true
        } else {
            false
        }
    }
}

/// Commits of the last 20 heights, with the canonical result of every height
/// ever seen. The first commit of a height fixes its result; later commits
/// must match it and must come from fresh participants.
pub struct HeightCommitCollector {
    height_commit_collector: LruCache<u64, usize>,
    store: Vec<CommitCollector>,
    height_result: HashMap<u64, Vec<u8>>,
}

impl HeightCommitCollector {
    /// The canonical result recorded for each height ever seen.
    pub closed spec fn results(&self) -> Map<u64, Seq<u8>> {
        Map::new(
            |h: u64| self.height_result@.dom().contains(h),
            |h: u64| self.height_result@[h]@,
        )
    }

    /// The commit windows currently held, by height.
    pub closed spec fn model(&self) -> Map<u64, CommitWindow> {
        Map::new(
            |h: u64| lru_contents(self.height_commit_collector).dom().contains(h),
            |h: u64| self.store@[lru_contents(self.height_commit_collector)[h] as int].model(),
        )
    }

    /// The windowed heights in recency order, the least-recently used
    /// first; recording a commit for a height moves it to the most-recent
    /// end, and a full window evicts the first height of this order.
    pub closed spec fn order(&self) -> Seq<u64> {
        lru_order(self.height_commit_collector)
    }

    /// The recency order lists exactly the windowed heights, each once, and
    /// never more than the window holds.
    pub proof fn lemma_order_consistent(&self)
        requires
            self.wf(),
        ensures
            self.order().no_duplicates(),
            self.order().to_set() == self.model().dom(),
            self.order().len() == self.model().dom().len(),
            self.model().dom().len() <= 20,
    {
        assert(self.order().to_set() =~= self.model().dom());
    }

    /// The window keeps 20 heights and every cached height points into the
    /// store.
    pub closed spec fn wf(&self) -> bool {
        let c = lru_contents(self.height_commit_collector);
        &&& lru_capacity(self.height_commit_collector) == 20
        &&& lru_consistent(self.height_commit_collector)
        &&& forall|h: u64| c.dom().contains(h) ==> self.height_result@.dom().contains(h)
        &&& forall|h: u64| c.dom().contains(h) ==> (#[trigger] c[h]) < self.store@.len()
        &&& forall|h1: u64, h2: u64|
            #![trigger c[h1], c[h2]]
            c.dom().contains(h1) && c.dom().contains(h2) && h1 != h2 ==> c[h1] != c[h2]
    }

    /// An empty collector.
    pub fn new() -> (r: HeightCommitCollector)
        ensures
            r.wf(),
            r.order() =~= Seq::empty(),
            r.results() =~= Map::empty(),
            r.model() =~= Map::empty(),
    {
        let r = HeightCommitCollector {
            height_commit_collector: lru_new(20),
            store: Vec::new(),
            height_result: HashMap::new(),
        };
        proof {
            assert(r.results() =~= Map::empty());
            assert(r.model() =~= Map::empty());
        }
        r
    }

    /// Records one commit. The first commit of a height is accepted
    /// unconditionally and fixes the height's canonical result; a later
    /// commit with a differing result fails with CommitDiff, and a second
    /// commit from an already-recorded participant fails with
    /// MultipleCommit.
    pub fn add_commit(&mut self, commit: Commit) -> (r: Result<(), BftError>)
        requires
            old(self).wf(),
        ensures
            final(self).wf(),
            (r matches Result::Err(e) && e matches BftError::CommitDiff(_)) ==> final(self).order() == old(self).order(),
            !(r matches Result::Err(e) && e matches BftError::CommitDiff(_)) ==> final(self).order() == (if old(self).results().dom().contains(commit.height) {
                promoted(old(self).order(), commit.height)
            } else if old(self).model().dom().len() < 20 {
                old(self).order().push(commit.height)
            } else {
                old(self).order().drop_first().push(commit.height)
            }),
            r is Ok && !old(self).results().dom().contains(commit.height) && old(self).model().dom().len() >= 20 ==> old(self).model().dom().contains(
                old(self).order().first(),
            ) && final(self).model().dom() =~= old(self).model().dom().remove(
                old(self).order().first(),
            ).insert(commit.height),
            ({
                let h = commit.height;
                let v = commit.result@;
                let n = commit.node;
                let res0 = old(self).results();
                let w0 = old(self).model();
                match r {
                    Result::Err(e) => final(self).results() == res0 && final(self).model() == w0
                        && (e matches BftError::CommitDiff(hh) ==> hh == h && res0.dom().contains(h)
                        && res0[h] != v) && (e matches BftError::MultipleCommit(hh) ==> hh == h
                        && res0.dom().contains(h) && res0[h] == v && w0.dom().contains(h)
                        && !w0[h].pending.contains(n)) && (e matches BftError::CommitDiff(_)
                        || e matches BftError::MultipleCommit(_)),
                    Result::Ok(u) => if res0.dom().contains(h) {
                        &&& res0[h] == v
                        &&& final(self).results() == res0
                        &&& if w0.dom().contains(h) {
                            &&& w0[h].pending.contains(n)
                            &&& final(self).model() == w0.insert(
                                h,
                                CommitWindow {
                                    results: w0[h].results.push(v),
                                    pending: w0[h].pending.remove(n),
                                },
                            )
                        } else {
                            final(self).model() == w0
                        }
                    } else {
                        &&& final(self).results() == res0.insert(h, v)
                        &&& bounded_insert(w0, final(self).model(), h, fresh_window(n, v), 20)
                    },
                }
            }),
    {
        let node_id = commit.node;
        let height = commit.height;
        let consequence = commit.result;
        let ghost res0 = self.results();
        let ghost w0 = self.model();
        let ghost c0 = lru_contents(self.height_commit_collector);
        if self.height_result.contains_key(&height) {
            let matches_recorded = match self.height_result.get(&height) {
                Some(rec) => bytes_eq(&consequence, rec),
                None => false,
            };
            if !matches_recorded {
                return Result::Err(BftError::CommitDiff(height));
            }
            match lru_get(&mut self.height_commit_collector, height) {
                Some(idx) => {
                    let mut cc = self.store.remove(idx);
                    let ok = cc.add(node_id, consequence);
                    let ghost ccm = cc.model();
                    self.store.insert(idx, cc);
                    proof {
                        assert(self.store@ =~= old(self).store@.update(
                            idx as int,
                            self.store@[idx as int],
                        ));
                        assert(self.results() =~= res0);
                        if ok {
                            assert(self.model() =~= w0.insert(height, ccm));
                            assert(self.model() == w0.insert(
                                height,
                                CommitWindow {
                                    results: w0[height].results.push(commit.result@),
                                    pending: w0[height].pending.remove(node_id),
                                },
                            ));
                        } else {
                            assert(self.model() =~= w0);
                        }
                    }
                    if !ok {
                        return Result::Err(BftError::MultipleCommit(height));
                    }
                },
                None => {
                    proof {
                        assert(self.results() =~= res0);
                        assert(self.model() =~= w0);
                    }
                },
            }
            Result::Ok(())
        } else {
            let stored = copy_bytes(&consequence);
            self.height_result.insert(height, stored);
            let mut cc = CommitCollector::new();
            cc.add(node_id, consequence);
            let ghost ccm = cc.model();
            proof {
                assert(!c0.dom().contains(height));
                assert(!lru_order(old(self).height_commit_collector).contains(height));
            }
            let idx: usize;
            if lru_len(&self.height_commit_collector) >= 20 {
                let victim = lru_pop_lru(&mut self.height_commit_collector);
                idx = victim.1;
                proof {
                    assert(c0.dom().contains(victim.0));
                    assert(idx < self.store@.len());
                }
                self.store.set(idx, cc);
            } else {
                idx = self.store.len();
                self.store.push(cc);
            }
            lru_insert(&mut self.height_commit_collector, height, idx);
            proof {
                assert(self.results() =~= res0.insert(height, commit.result@));
                if node_id == 0 || node_id == 1 || node_id == 2 || node_id == 3 {
                    assert(set![0u8, 1u8, 2u8, 3u8].contains(node_id));
                    assert(ccm.results =~= seq![commit.result@]);
                } else {
                    assert(!set![0u8, 1u8, 2u8, 3u8].contains(node_id));
                    assert(ccm.results =~= Seq::<Seq<u8>>::empty());
                }
                assert(ccm.pending =~= fresh_window(node_id, commit.result@).pending);
                assert(ccm == fresh_window(node_id, commit.result@));
                let c1 = lru_contents(self.height_commit_collector);
                assert(w0.dom() =~= c0.dom());
                if c0.dom().contains(height) || c0.dom().len() < 20 {
                    assert(c1 == c0.insert(height, idx));
                    assert(self.model() =~= w0.insert(height, ccm));
                } else {
                    let e = lru_order(old(self).height_commit_collector).first();
                    assert(lru_order(old(self).height_commit_collector).contains(e));
                    assert(c0.dom().contains(e) && e != height);
                    assert(c1 == c0.remove(e).insert(height, idx));
                    assert(self.model() =~= w0.remove(e).insert(height, ccm));
                    assert(w0.dom().contains(e) && e != height && self.model() == w0.remove(
                        e,
                    ).insert(height, ccm));
                }
            }
            Result::Ok(())
        }
    }
}

impl Default for HeightCommitCollector {
    /// An empty collector.
    fn default() -> (r: Self)
        ensures
            r.wf(),
            r.results() =~= Map::empty(),
            r.model() =~= Map::empty(),
    {
        Self::new()
    }
}

} // verus!
