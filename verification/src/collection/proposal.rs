//! Proposal collection: at most one accepted proposal per (height, round),
//! cached in bounded windows of rounds and heights.

use vstd::prelude::*;

verus! {

use crate::lru::{
    bounded_insert, lru_capacity, lru_consistent, lru_contents, lru_get, lru_insert, lru_len,
    lru_new, lru_order, lru_pop_lru, promoted,
};
use vstd::pervasive::VecAdditionalExecFns;
use crate::whitebox::{Proposal, ProposalModel};
use lru_cache::LruCache;

/// Per height: the accepted proposal of each of the last 20 rounds, least-
/// recently used round evicted first. A slot, once filled, is never
/// overwritten.
pub struct ProposalRoundCollector {
    round_proposals: LruCache<u64, usize>,
    store: Vec<Proposal>,
}

impl ProposalRoundCollector {
    /// The proposals currently held, by round.
    pub closed spec fn model(&self) -> Map<u64, ProposalModel> {
        Map::new(
            |r: u64| lru_contents(self.round_proposals).dom().contains(r),
            |r: u64| self.store@[lru_contents(self.round_proposals)[r] as int].model(),
        )
    }

    /// The window keeps 20 rounds and every cached round points into the
    /// store.
    pub closed spec fn wf(&self) -> bool {
        let c = lru_contents(self.round_proposals);
        &&& lru_capacity(self.round_proposals) == 20
        &&& lru_consistent(self.round_proposals)
        &&& forall|r: u64| c.dom().contains(r) ==> (#[trigger] c[r]) < self.store@.len()
        &&& forall|r1: u64, r2: u64|
            #![trigger c[r1], c[r2]]
            c.dom().contains(r1) && c.dom().contains(r2) && r1 != r2 ==> c[r1] != c[r2]
    }

    /// An empty round window.
    pub fn new() -> (r: ProposalRoundCollector)
        ensures
            r.wf(),
            r.model() =~= Map::empty(),
    {
        let r = ProposalRoundCollector { round_proposals: lru_new(20), store: Vec::new() };
        proof {
            assert(r.model() =~= Map::empty());
        }
        r
    }

    /// Stores the proposal under its round; returns false without overwrite
    /// when the slot is occupied.
    pub fn add(&mut self, round: u64, proposal: Proposal) -> (added: bool)
        requires
            old(self).wf(),
        ensures
            final(self).wf(),
            added == !old(self).model().dom().contains(round),
            !added ==> final(self).model() == old(self).model(),
            added ==> bounded_insert(
                old(self).model(),
                final(self).model(),
                round,
                proposal.model(),
                20,
            ),
    {
        let ghost m0 = self.model();
        let ghost c0 = lru_contents(self.round_proposals);
        match lru_get(&mut self.round_proposals, round) {
            Some(_) => {
                proof {
                    assert(self.model() =~= m0);
                }
                false
            },
            None => {
                proof {
                    assert(!lru_order(old(self).round_proposals).contains(round));
                }
                let idx: usize;
                if lru_len(&self.round_proposals) >= 20 {
                    let victim = lru_pop_lru(&mut self.round_proposals);
                    idx = victim.1;
                    proof {
                        assert(c0.dom().contains(victim.0));
                        assert(idx < self.store@.len());
                    }
                    self.store.set(idx, proposal);
                } else {
                    idx = self.store.len();
                    self.store.push(proposal);
                }
                lru_insert(&mut self.round_proposals, round, idx);
                proof {
                    let c1 = lru_contents(self.round_proposals);
                    assert(m0.dom() =~= c0.dom());
                    if c0.dom().len() < 20 {
                        assert(c1 == c0.insert(round, idx));
                        assert(self.model() =~= m0.insert(round, proposal.model()));
                    } else {
                        let e = lru_order(old(self).round_proposals).first();
                        assert(lru_order(old(self).round_proposals).contains(e));
                        assert(c0.dom().contains(e) && e != round);
                        assert(c1 == c0.remove(e).insert(round, idx));
                        assert(self.model() =~= m0.remove(e).insert(round, proposal.model()));
                        assert(m0.dom().contains(e) && e != round && self.model() == m0.remove(
                            e,
                        ).insert(round, proposal.model()));
                    }
                }
                true
            },
        }
    }

    /// A copy of the proposal stored for the round, or absence where none
    /// is held; a lookup refreshes recency but changes no contents.
    pub fn get_proposal(&mut self, round: u64) -> (r: Option<Proposal>)
        requires
            old(self).wf(),
        ensures
            final(self).wf(),
            final(self).model() == old(self).model(),
            match r {
                Some(p) => old(self).model().dom().contains(round) && old(self).model()[round]
                    == p.model(),
                None => !old(self).model().dom().contains(round),
            },
    {
        let ghost m0 = self.model();
        let r = match lru_get(&mut self.round_proposals, round) {
            Some(idx) => Some(self.store[idx].duplicate()),
            None => None,
        };
        proof {
            assert(self.model() =~= m0);
        }
        r
    }
}

impl Default for ProposalRoundCollector {
    /// An empty round window.
    fn default() -> (r: Self)
        ensures
            r.wf(),
            r.model() =~= Map::empty(),
    {
        Self::new()
    }
}

/// How the whole proposal cache changes when one proposal is accepted: the
/// proposal's height stores it under its round unless that slot is occupied,
/// a missing height enters fresh, and a full cache lets one other height go.
pub open spec fn proposal_add_rel(
    m0: Map<u64, Map<u64, ProposalModel>>,
    m1: Map<u64, Map<u64, ProposalModel>>,
    p: ProposalModel,
    added: bool,
) -> bool {
    if m0.dom().contains(p.height) {
        if m0[p.height].dom().contains(p.round) {
            !added && m1 == m0
        } else {
            added && exists|rv: Map<u64, ProposalModel>|
                #[trigger] bounded_insert(m0[p.height], rv, p.round, p, 20) && m1 == m0.insert(
                    p.height,
                    rv,
                )
        }
    } else {
        added && exists|rv: Map<u64, ProposalModel>|
            rv == Map::empty().insert(p.round, p) && #[trigger] bounded_insert(
                m0,
                m1,
                p.height,
                rv,
                20,
            )
    }
}

/// Accepted proposals of the last 20 heights, one per (height, round),
/// least-recently used height evicted first.
pub struct ProposalCollector {
    proposals: LruCache<u64, usize>,
    store: Vec<ProposalRoundCollector>,
}

impl ProposalCollector {
    /// The proposals currently held, by height and round.
    pub closed spec fn model(&self) -> Map<u64, Map<u64, ProposalModel>> {
        Map::new(
            |h: u64| lru_contents(self.proposals).dom().contains(h),
            |h: u64| self.store@[lru_contents(self.proposals)[h] as int].model(),
        )
    }

    /// The cached heights in recency order, the least-recently used first;
    /// storing under a height or looking one up moves it to the most-recent
    /// end, and a full cache evicts the first height of this order.
    pub closed spec fn order(&self) -> Seq<u64> {
        lru_order(self.proposals)
    }

    /// The recency order lists exactly the cached heights, each once, and
    /// never more than the window holds.
    pub proof fn lemma_order_consistent(&self)
        requires
            self.wf(),
        ensures
            self.order().no_duplicates(),
            self.order().to_set() == self.model().dom(),
            self.order().len() == self.model().dom().len(),
            self.model().dom().len() <= 20,
    {
        assert(self.order().to_set() =~= self.model().dom());
    }

    /// The cache keeps 20 heights, every cached height points at a
    /// well-formed round window, and no two heights share one.
    pub closed spec fn wf(&self) -> bool {
        let c = lru_contents(self.proposals);
        &&& lru_capacity(self.proposals) == 20
        &&& lru_consistent(self.proposals)
        &&& forall|h: u64| c.dom().contains(h) ==> (#[trigger] c[h]) < self.store@.len()
        &&& forall|h1: u64, h2: u64|
            #![trigger c[h1], c[h2]]
            c.dom().contains(h1) && c.dom().contains(h2) && h1 != h2 ==> c[h1] != c[h2]
        &&& forall|h: u64| c.dom().contains(h) ==> self.store@[#[trigger] c[h] as int].wf()
    }

    /// An empty cache.
    pub fn new() -> (r: ProposalCollector)
        ensures
            r.wf(),
            r.model() =~= Map::empty(),
            r.order() =~= Seq::empty(),
    {
        let r = ProposalCollector { proposals: lru_new(20), store: Vec::new() };
        proof {
            assert(r.model() =~= Map::empty());
        }
        r
    }

    /// Stores the proposal under its (height, round); returns false without
    /// overwrite when that slot is occupied.
    pub fn add(&mut self, proposal: Proposal) -> (added: bool)
        requires
            old(self).wf(),
        ensures
            final(self).wf(),
            proposal_add_rel(old(self).model(), final(self).model(), proposal.model(), added),
            final(self).order() == (if old(self).model().dom().contains(proposal.height) {
                promoted(old(self).order(), proposal.height)
            } else if old(self).model().dom().len() < 20 {
                old(self).order().push(proposal.height)
            } else {
                old(self).order().drop_first().push(proposal.height)
            }),
            !old(self).model().dom().contains(proposal.height) && old(self).model().dom().len()
                >= 20 ==> old(self).model().dom().contains(old(self).order().first()),
            final(self).model().dom() =~= (if old(self).model().dom().contains(proposal.height) {
                old(self).model().dom()
            } else if old(self).model().dom().len() < 20 {
                old(self).model().dom().insert(proposal.height)
            } else {
                old(self).model().dom().remove(old(self).order().first()).insert(proposal.height)
            }),
    {
        let height = proposal.height;
        let round = proposal.round;
        let ghost pm = proposal.model();
        let ghost m0 = self.model();
        let ghost c0 = lru_contents(self.proposals);
        match lru_get(&mut self.proposals, height) {
            Some(idx) => {
                let mut rc = self.store.remove(idx);
                let ghost rcm0 = rc.model();
                proof {
                    assert(rcm0 == m0[height]);
                }
                let added = rc.add(round, proposal);
                let ghost rcm = rc.model();
                self.store.insert(idx, rc);
                proof {
                    assert(self.store@ =~= old(self).store@.update(
                        idx as int,
                        self.store@[idx as int],
                    ));
                    assert(self.store@[idx as int].model() == rcm);
                    assert(self.model() =~= m0.insert(height, rcm));
                    if !added {
                        assert(m0[height].dom().contains(round));
                        assert(rcm == rcm0);
                        assert(self.model() =~= m0);
                    } else {
                        assert(!m0[height].dom().contains(round));
                        assert(bounded_insert(m0[pm.height], rcm, pm.round, pm, 20)
                            && self.model() == m0.insert(pm.height, rcm));
                        assert(exists|rv: Map<u64, ProposalModel>|
                            #[trigger] bounded_insert(m0[pm.height], rv, pm.round, pm, 20)
                                && self.model() == m0.insert(pm.height, rv));
                    }
                    assert(proposal_add_rel(m0, self.model(), pm, added));
                }
                added
            },
            None => {
                let mut rc = ProposalRoundCollector::new();
                let added = rc.add(round, proposal);
                let ghost rcm = rc.model();
                proof {
                    assert(!lru_order(old(self).proposals).contains(height));
                }
                let idx: usize;
                if lru_len(&self.proposals) >= 20 {
                    let victim = lru_pop_lru(&mut self.proposals);
                    idx = victim.1;
                    proof {
                        assert(c0.dom().contains(victim.0));
                        assert(idx < self.store@.len());
                    }
                    self.store.set(idx, rc);
                } else {
                    idx = self.store.len();
                    self.store.push(rc);
                }
                lru_insert(&mut self.proposals, height, idx);
                proof {
                    let c1 = lru_contents(self.proposals);
                    assert(m0.dom() =~= c0.dom());
                    assert(rcm =~= Map::empty().insert(round, pm));
                    if c0.dom().len() < 20 {
                        assert(c1 == c0.insert(height, idx));
                        assert(self.model() =~= m0.insert(height, rcm));
                    } else {
                        let e = lru_order(old(self).proposals).first();
                        assert(lru_order(old(self).proposals).contains(e));
                        assert(c0.dom().contains(e) && e != height);
                        assert(c1 == c0.remove(e).insert(height, idx));
                        assert(self.model() =~= m0.remove(e).insert(height, rcm));
                        assert(m0.dom().contains(e) && e != height && self.model() == m0.remove(
                            e,
                        ).insert(height, rcm));
                    }
                    assert(!m0.dom().contains(pm.height));
                    assert(rcm == Map::<u64, ProposalModel>::empty().insert(pm.round, pm));
                    assert(bounded_insert(m0, self.model(), pm.height, rcm, 20));
                    assert(exists|rv: Map<u64, ProposalModel>|
                        rv == Map::<u64, ProposalModel>::empty().insert(pm.round, pm)
                            && #[trigger] bounded_insert(m0, self.model(), pm.height, rv, 20));
                    assert(added);
                    assert(proposal_add_rel(m0, self.model(), pm, added));
                }
                added
            },
        }
    }

    /// A copy of the proposal stored at (height, round), or absence where
    /// the height left the window or the round holds none; a lookup
    /// refreshes recency but changes no contents.
    pub fn get_proposal(&mut self, height: u64, round: u64) -> (r: Option<Proposal>)
        requires
            old(self).wf(),
        ensures
            final(self).wf(),
            final(self).model() == old(self).model(),
            final(self).order() == promoted(old(self).order(), height),
            match r {
                Some(p) => old(self).model().dom().contains(height) && old(
                    self,
                ).model()[height].dom().contains(round) && old(self).model()[height][round]
                    == p.model(),
                None => !old(self).model().dom().contains(height) || !old(
                    self,
                ).model()[height].dom().contains(round),
            },
    {
        let ghost m0 = self.model();
        match lru_get(&mut self.proposals, height) {
            Some(idx) => {
                let mut rc = self.store.remove(idx);
                let r = rc.get_proposal(round);
                self.store.insert(idx, rc);
                proof {
                    assert(self.store@ =~= old(self).store@.update(
                        idx as int,
                        self.store@[idx as int],
                    ));
                    assert(self.model() =~= m0);
                }
                r
            },
            None => None,
        }
    }
}

impl Default for ProposalCollector {
    /// An empty cache.
    fn default() -> (r: Self)
        ensures
            r.wf(),
            r.model() =~= Map::empty(),
    {
        Self::new()
    }
}

} // verus!
