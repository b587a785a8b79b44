//! The blackbox actuator: a round-script interpreter that drives the node
//! under test from outside only, synthesizing proposals, feeds and votes
//! and checking polled commits against the working proposal.

use vstd::prelude::*;

verus! {

use crate::bytes::{bytes_eq, contains_bytes, copy_bytes, spec_contains_bytes};
use crate::collection::vote_cache::{StepModel, VoteCache};
use crate::whitebox::actuator::{cache_adds, lemma_cache_adds_snoc};
use crate::whitebox::VoteModel;
use crate::correctness::bft_test::{
    BftTest, BftTestUnit, NO_COMMIT_BUT_LOCK, NO_COMMIT_NO_LOCK, NULL_ROUND, SHOULD_COMMIT,
};
use crate::error::BftError;
use crate::whitebox::correctness::test_case::{byz_spec, byzantine_proposal, unit_eq, unit_filled};
use crate::whitebox::{Address, Commit, Feed, FrameSend, Proposal, Support, Vote, VoteType};

/// Result of a blackbox protocol-invariant check.
pub type BftResult<T> = Result<T, BftError>;

/// Everything of the blackbox actuator one script step may read or change.
pub ghost struct BbConfig {
    /// The consensus instance being driven.
    pub height: u64,
    /// The sub-attempt within the height.
    pub round: u64,
    /// The value of the held lock, if any.
    pub lock_proposal: Option<Seq<u8>>,
    /// The working proposal value.
    pub proposal: Seq<u8>,
    /// The cached votes, by height, round and step.
    pub cache: Map<u64, Map<u64, StepModel>>,
    /// The running prevote count per round.
    pub counts: Map<u64, usize>,
}

/// The votes one blackbox ballot half synthesizes, read from slot `upto`
/// on: each of the first two slots of the half that is scripted normal
/// contributes one vote for `value`; every other slot is skipped.
pub open spec fn bb_half(
    unit: Seq<u8>,
    base: int,
    upto: int,
    height: u64,
    round: u64,
    vt: crate::whitebox::VoteType,
    value: Seq<u8>,
    auths: Seq<Seq<u8>>,
) -> Seq<VoteModel>
    decreases 2 - upto,
{
    if upto < 0 || upto >= 2 {
        Seq::empty()
    } else if unit[base + upto] == 1 {
        seq![
            VoteModel { height, round, vote_type: vt, proposal: value, voter: auths[upto + 1] },
        ] + bb_half(unit, base, upto + 1, height, round, vt, value, auths)
    } else {
        bb_half(unit, base, upto + 1, height, round, vt, value, auths)
    }
}

/// The votes one blackbox ballot unit synthesizes: the prevote half read
/// from slots 0 and 1, then the precommit half read from slots 3 and 4.
pub open spec fn bb_votes(
    unit: Seq<u8>,
    height: u64,
    round: u64,
    value: Seq<u8>,
    auths: Seq<Seq<u8>>,
) -> Seq<VoteModel> {
    bb_half(unit, 0, 0, height, round, crate::whitebox::VoteType::Prevote, value, auths) + bb_half(
        unit,
        3,
        0,
        height,
        round,
        crate::whitebox::VoteType::Precommit,
        value,
        auths,
    )
}

/// How a should-commit sentinel changes the configuration: a polled commit
/// must equal the working proposal, else the script halts incorrect;
/// nothing else moves.
pub open spec fn bb_should_commit_rel(c0: BbConfig, c1: BbConfig, r: BftResult<()>) -> bool {
    match r {
        Result::Ok(u) => c1 == c0,
        Result::Err(e) => e == BftError::CommitIncorrect(c0.height) && c1 == c0,
    }
}

/// How a no-commit-but-lock sentinel changes the configuration: a pending
/// commit is invalid and force-sets the lock to the working proposal before
/// halting; otherwise nothing moves.
pub open spec fn bb_no_commit_but_lock_rel(c0: BbConfig, c1: BbConfig, r: BftResult<()>) -> bool {
    match r {
        Result::Ok(u) => c1 == c0,
        Result::Err(e) => e == BftError::CommitInvalid(c0.height) && c1 == (BbConfig {
            lock_proposal: Some(c0.proposal),
            ..c0
        }),
    }
}

/// How a no-commit-no-lock sentinel changes the configuration: a pending
/// commit is invalid and halts; otherwise nothing moves.
pub open spec fn bb_no_commit_no_lock_rel(c0: BbConfig, c1: BbConfig, r: BftResult<()>) -> bool {
    match r {
        Result::Ok(u) => c1 == c0,
        Result::Err(e) => e == BftError::CommitInvalid(c0.height) && c1 == c0,
    }
}

/// How a null-round sentinel changes the configuration: only the round
/// advances.
pub open spec fn bb_null_round_rel(c0: BbConfig, c1: BbConfig, r: BftResult<()>) -> bool {
    &&& r is Ok
    &&& c1 == (BbConfig { round: (c0.round + 1) as u64, ..c0 })
}

/// How one blackbox ballot unit changes the configuration: an out-of-list
/// proposer halts unchanged; the harness's own seat feeds a fresh
/// denylist-avoiding value with no votes; any other proposer gets a fresh
/// proposal whose content becomes the working proposal, and exactly the
/// scripted votes of slots 0, 1, 3 and 4 land in the cache.
pub open spec fn bb_ballot_rel(
    c0: BbConfig,
    c1: BbConfig,
    unit: Seq<u8>,
    auths: Seq<Seq<u8>>,
    r: BftResult<()>,
) -> bool {
    ||| (r == BftResult::<()>::Err(BftError::ProposerBeyondList(c0.height, c0.round)) && c1 == c0)
    ||| (r is Ok && exists|v: Seq<u8>|
        v.len() == 4 && !#[trigger] byz_spec().contains(v) && ((c1 == (BbConfig {
            proposal: v,
            ..c0
        })) || (c1.height == c0.height && c1.round == c0.round && c1.lock_proposal
            == c0.lock_proposal && c1.proposal == v && cache_adds(
            c0.cache,
            c1.cache,
            c0.counts,
            c1.counts,
            bb_votes(unit, c0.height, c0.round, v, auths),
        ))))
}

/// How one scripted unit changes the configuration, by the unit's kind.
pub open spec fn bb_unit_rel(
    c0: BbConfig,
    c1: BbConfig,
    unit: Seq<u8>,
    auths: Seq<Seq<u8>>,
    r: BftResult<()>,
) -> bool {
    if unit == unit_filled(8) {
        bb_should_commit_rel(c0, c1, r)
    } else if unit == NO_COMMIT_BUT_LOCK@ {
        bb_no_commit_but_lock_rel(c0, c1, r)
    } else if unit == unit_filled(9) {
        bb_no_commit_no_lock_rel(c0, c1, r)
    } else if unit == unit_filled(7) {
        bb_null_round_rel(c0, c1, r)
    } else {
        bb_ballot_rel(c0, c1, unit, auths, r)
    }
}

/// How a whole blackbox script changes the configuration: the units are
/// consumed in order, each step related by its unit's kind; the first
/// failing unit halts the script with its error and the configuration it
/// left, and no later unit is processed.
pub open spec fn bb_script_rel(
    c0: BbConfig,
    c1: BbConfig,
    units: Seq<Seq<u8>>,
    auths: Seq<Seq<u8>>,
    r: BftResult<()>,
) -> bool
    decreases units.len(),
{
    if units.len() == 0 {
        r is Ok && c1 == c0
    } else {
        exists|cm: BbConfig, ru: BftResult<()>|
            #![trigger bb_unit_rel(c0, cm, units[0], auths, ru)]
            bb_unit_rel(c0, cm, units[0], auths, ru) && match ru {
                Result::Ok(u) => bb_script_rel(
                    cm,
                    c1,
                    units.subrange(1, units.len() as int),
                    auths,
                    r,
                ),
                Result::Err(e) => r == BftResult::<()>::Err(e) && c1 == cm,
            }
    }
}

/// One more successfully processed unit extends a processed script.
proof fn bb_lemma_script_snoc_ok(
    c0: BbConfig,
    cm: BbConfig,
    c1: BbConfig,
    units: Seq<Seq<u8>>,
    u: Seq<u8>,
    auths: Seq<Seq<u8>>,
)
    requires
        bb_script_rel(c0, cm, units, auths, BftResult::<()>::Ok(())),
        bb_unit_rel(cm, c1, u, auths, BftResult::<()>::Ok(())),
    ensures
        bb_script_rel(c0, c1, units.push(u), auths, BftResult::<()>::Ok(())),
    decreases units.len(),
{
    let snoc = units.push(u);
    if units.len() == 0 {
        assert(cm == c0);
        assert(snoc[0] == u);
        assert(snoc.subrange(1, snoc.len() as int) =~= Seq::empty());
        assert(bb_unit_rel(c0, c1, snoc[0], auths, BftResult::<()>::Ok(())));
        assert(bb_script_rel(
            c1,
            c1,
            snoc.subrange(1, snoc.len() as int),
            auths,
            BftResult::<()>::Ok(()),
        ));
    } else {
        let head = units[0];
        let w = choose|cmid: BbConfig, ru: BftResult<()>|
            #![trigger bb_unit_rel(c0, cmid, units[0], auths, ru)]
            bb_unit_rel(c0, cmid, units[0], auths, ru) && match ru {
                Result::Ok(uu) => bb_script_rel(
                    cmid,
                    cm,
                    units.subrange(1, units.len() as int),
                    auths,
                    BftResult::<()>::Ok(()),
                ),
                Result::Err(e) => BftResult::<()>::Ok(()) == BftResult::<()>::Err(e) && cm == cmid,
            };
        assert(w.1 is Ok);
        bb_lemma_script_snoc_ok(w.0, cm, c1, units.subrange(1, units.len() as int), u, auths);
        assert(snoc.subrange(1, snoc.len() as int) =~= units.subrange(
            1,
            units.len() as int,
        ).push(u));
        assert(snoc[0] == head);
        assert(bb_unit_rel(c0, w.0, snoc[0], auths, w.1));
        assert(bb_script_rel(
            w.0,
            c1,
            snoc.subrange(1, snoc.len() as int),
            auths,
            BftResult::<()>::Ok(()),
        ));
    }
}

/// A failing unit after a processed prefix halts the whole script with that
/// failure and the configuration it left, whatever units follow.
proof fn bb_lemma_script_fail(
    c0: BbConfig,
    cm: BbConfig,
    c1: BbConfig,
    prefix: Seq<Seq<u8>>,
    u: Seq<u8>,
    rest: Seq<Seq<u8>>,
    auths: Seq<Seq<u8>>,
    e: BftError,
)
    requires
        bb_script_rel(c0, cm, prefix, auths, BftResult::<()>::Ok(())),
        bb_unit_rel(cm, c1, u, auths, BftResult::<()>::Err(e)),
    ensures
        bb_script_rel(c0, c1, prefix + seq![u] + rest, auths, BftResult::<()>::Err(e)),
    decreases prefix.len(),
{
    let full = prefix + seq![u] + rest;
    if prefix.len() == 0 {
        assert(cm == c0);
        assert(full[0] == u);
        assert(bb_unit_rel(c0, c1, full[0], auths, BftResult::<()>::Err(e)));
    } else {
        let head = prefix[0];
        let w = choose|cmid: BbConfig, ru: BftResult<()>|
            #![trigger bb_unit_rel(c0, cmid, prefix[0], auths, ru)]
            bb_unit_rel(c0, cmid, prefix[0], auths, ru) && match ru {
                Result::Ok(uu) => bb_script_rel(
                    cmid,
                    cm,
                    prefix.subrange(1, prefix.len() as int),
                    auths,
                    BftResult::<()>::Ok(()),
                ),
                Result::Err(e2) => BftResult::<()>::Ok(()) == BftResult::<()>::Err(e2) && cm
                    == cmid,
            };
        assert(w.1 is Ok);
        bb_lemma_script_fail(
            w.0,
            cm,
            c1,
            prefix.subrange(1, prefix.len() as int),
            u,
            rest,
            auths,
            e,
        );
        assert(full.subrange(1, full.len() as int) =~= prefix.subrange(1, prefix.len() as int)
            + seq![u] + rest);
        assert(full[0] == head);
        assert(bb_unit_rel(c0, w.0, full[0], auths, w.1));
        assert(bb_script_rel(
            w.0,
            c1,
            full.subrange(1, full.len() as int),
            auths,
            BftResult::<()>::Err(e),
        ));
    }
}

/// A blackbox testing actuator, generic over the capability contract of
/// the node under test.
pub struct Actuator<T> {
    function: T,
    height: u64,
    round: u64,
    lock_round: Option<u64>,
    lock_proposal: Option<Vec<u8>>,
    authority_list: Vec<Address>,
    proposal: Vec<u8>,
    byzantine: Vec<Vec<u8>>,
    vote_cache: VoteCache,
}

impl<T: Support> Actuator<T> {
    /// The current height.
    pub closed spec fn spec_height(&self) -> u64 {
        self.height
    }

    /// The current round.
    pub closed spec fn spec_round(&self) -> u64 {
        self.round
    }

    /// The working proposal value.
    pub closed spec fn spec_proposal(&self) -> Seq<u8> {
        self.proposal@
    }

    /// The value of the held lock, if any.
    pub closed spec fn spec_lock_proposal(&self) -> Option<Seq<u8>> {
        match self.lock_proposal {
            Some(v) => Some(v@),
            None => None,
        }
    }

    /// The ordered authority list.
    pub closed spec fn spec_authorities(&self) -> Seq<Seq<u8>> {
        Seq::new(self.authority_list@.len(), |i: int| self.authority_list@[i]@)
    }

    /// The cached votes, by height, round and step.
    pub closed spec fn cache(&self) -> Map<u64, Map<u64, StepModel>> {
        self.vote_cache.model()
    }

    /// The running prevote count per round.
    pub closed spec fn counts(&self) -> Map<u64, usize> {
        self.vote_cache.counts()
    }

    /// Everything one script step may read or change.
    pub open spec fn config(&self) -> BbConfig {
        BbConfig {
            height: self.spec_height(),
            round: self.spec_round(),
            lock_proposal: self.spec_lock_proposal(),
            proposal: self.spec_proposal(),
            cache: self.cache(),
            counts: self.counts(),
        }
    }

    /// Internal consistency: the vote cache is well-formed and the denylist
    /// is the fixed one.
    pub closed spec fn wf(&self) -> bool {
        &&& self.vote_cache.wf()
        &&& Seq::new(self.byzantine@.len(), |i: int| self.byzantine@[i]@) == byz_spec()
    }

    /// A fresh actuator at the given height and round, with no lock, no
    /// working proposal, an empty vote cache and the fixed denylist.
    pub fn new(function: T, height: u64, round: u64, authority_list: Vec<Address>) -> (r: Actuator<
        T,
    >)
        ensures
            r.wf(),
            r.spec_height() == height,
            r.spec_round() == round,
            r.spec_proposal() == Seq::<u8>::empty(),
            r.spec_lock_proposal() is None,
            r.spec_authorities() == Seq::new(
                authority_list@.len(),
                |i: int| authority_list@[i]@,
            ),
    {
        let r = Actuator {
            function,
            height,
            round,
            lock_round: None,
            lock_proposal: None,
            authority_list,
            proposal: Vec::new(),
            byzantine: byzantine_proposal(),
            vote_cache: VoteCache::new(),
        };
        proof {
            assert(Seq::new(r.byzantine@.len(), |i: int| r.byzantine@[i]@) =~= byz_spec());
        }
        r
    }

    /// Replaces the authority list; everything else stays.
    pub fn set_authority_list(&mut self, authority_list: Vec<Address>)
        requires
            old(self).wf(),
        ensures
            final(self).wf(),
            final(self).spec_height() == old(self).spec_height(),
            final(self).spec_round() == old(self).spec_round(),
            final(self).spec_proposal() == old(self).spec_proposal(),
            final(self).spec_authorities() == Seq::new(
                authority_list@.len(),
                |i: int| authority_list@[i]@,
            ),
    {
        self.authority_list = authority_list;
    }

    /// The current height.
    pub fn get_height(&self) -> (r: u64)
        ensures
            r == self.spec_height(),
    {
        self.height
    }

    /// Signals the node to terminate.
    pub fn stop(&self) {
        self.function.stop()
    }

    /// A four-byte candidate value outside the denylist; the denylist holds
    /// only six-byte values, so the first candidate already avoids it.
    fn draw_value(byzantine: &Vec<Vec<u8>>) -> (r: Vec<u8>)
        requires
            Seq::new(byzantine@.len(), |i: int| byzantine@[i]@) == byz_spec(),
        ensures
            r@.len() == 4,
            !byz_spec().contains(r@),
    {
        let mut candidate: Vec<u8> = Vec::new();
        candidate.push(0);
        candidate.push(0);
        candidate.push(0);
        candidate.push(0);
        if contains_bytes(byzantine, &candidate) {
            proof {
                let j = choose|j: int|
                    0 <= j < byzantine@.len() && byzantine@[j]@ == candidate@;
                assert(byz_spec()[j] == candidate@);
                assert(byz_spec()[j].len() == 6);
                assert(false);
            }
        }
        proof {
            if byz_spec().contains(candidate@) {
                let j = choose|j: int| 0 <= j < byz_spec().len() && byz_spec()[j] == candidate@;
                assert(byz_spec()[j].len() == 6);
            }
        }
        candidate
    }

    /// Synthesizes the harness's own candidate value for this height.
    fn generate_feed(&self) -> (r: Feed)
        requires
            self.wf(),
        ensures
            r.height == self.spec_height(),
            r.proposal@.len() == 4,
            !byz_spec().contains(r.proposal@),
    {
        let proposal = Self::draw_value(&self.byzantine);
        Feed { height: self.height, proposal }
    }

    /// Synthesizes a proposal from the designated authority; the fresh
    /// content becomes the working proposal.
    fn generate_proposal(
        &mut self,
        auth_index: usize,
        lock_round: Option<u64>,
        lock_votes: Vec<Vote>,
    ) -> (r: Proposal)
        requires
            old(self).wf(),
            auth_index < old(self).spec_authorities().len(),
        ensures
            final(self).wf(),
            r.height == old(self).spec_height(),
            r.round == old(self).spec_round(),
            r.proposer@ == old(self).spec_authorities()[auth_index as int],
            r.lock_round == lock_round,
            r.lock_votes == lock_votes,
            r.content@.len() == 4,
            !byz_spec().contains(r.content@),
            final(self).spec_proposal() == r.content@,
            final(self).spec_height() == old(self).spec_height(),
            final(self).spec_round() == old(self).spec_round(),
            final(self).spec_lock_proposal() == old(self).spec_lock_proposal(),
            final(self).spec_authorities() == old(self).spec_authorities(),
            final(self).cache() == old(self).cache(),
            final(self).counts() == old(self).counts(),
    {
        let content = Self::draw_value(&self.byzantine);
        let adopted = copy_bytes(&content);
        self.proposal = adopted;
        Proposal {
            height: self.height,
            round: self.round,
            content,
            proposer: copy_bytes(&self.authority_list[auth_index]),
            lock_round,
            lock_votes,
        }
    }

    /// Emits the scripted votes of both ballot halves: each of the first
    /// two slots of a half that is scripted normal sends a vote for the
    /// working proposal and records it in the cache.
    fn generate_vote(&mut self, unit: &BftTestUnit)
        requires
            old(self).wf(),
            old(self).spec_authorities().len() >= 3,
        ensures
            final(self).wf(),
            final(self).spec_height() == old(self).spec_height(),
            final(self).spec_round() == old(self).spec_round(),
            final(self).spec_proposal() == old(self).spec_proposal(),
            final(self).spec_lock_proposal() == old(self).spec_lock_proposal(),
            final(self).spec_authorities() == old(self).spec_authorities(),
            cache_adds(
                old(self).cache(),
                final(self).cache(),
                old(self).counts(),
                final(self).counts(),
                bb_votes(
                    unit@,
                    old(self).spec_height(),
                    old(self).spec_round(),
                    old(self).spec_proposal(),
                    old(self).spec_authorities(),
                ),
            ),
    {
        let ghost c0 = self.cache();
        let ghost pc0 = self.counts();
        let ghost auths = self.spec_authorities();
        let ghost h = self.spec_height();
        let ghost rd = self.spec_round();
        let ghost value = self.spec_proposal();
        let ghost prevotes = bb_half(unit@, 0, 0, h, rd, VoteType::Prevote, value, auths);
        let ghost precommits = bb_half(unit@, 3, 0, h, rd, VoteType::Precommit, value, auths);
        let ghost mut emitted: Seq<crate::whitebox::VoteModel> = Seq::empty();
        let mut i: usize = 0;
        while i < 2
            invariant
                i <= 2,
                self.wf(),
                self.spec_height() == old(self).spec_height(),
                self.spec_round() == old(self).spec_round(),
                self.spec_proposal() == old(self).spec_proposal(),
                self.spec_lock_proposal() == old(self).spec_lock_proposal(),
                self.spec_authorities() == old(self).spec_authorities(),
                self.spec_authorities().len() >= 3,
                c0 == old(self).cache(),
                pc0 == old(self).counts(),
                auths == old(self).spec_authorities(),
                h == old(self).spec_height(),
                rd == old(self).spec_round(),
                value == old(self).spec_proposal(),
                prevotes == bb_half(unit@, 0, 0, h, rd, VoteType::Prevote, value, auths),
                precommits == bb_half(unit@, 3, 0, h, rd, VoteType::Precommit, value, auths),
                cache_adds(c0, self.cache(), pc0, self.counts(), emitted),
                emitted + bb_half(unit@, 0, i as int, h, rd, VoteType::Prevote, value, auths)
                    == prevotes,
            decreases 2 - i,
        {
            let ghost suffix = bb_half(unit@, 0, i as int, h, rd, VoteType::Prevote, value, auths);
            if *vstd::array::array_index_get(unit, i) == 1 {
                let vote = Vote {
                    height: self.height,
                    round: self.round,
                    vote_type: VoteType::Prevote,
                    proposal: copy_bytes(&self.proposal),
                    voter: copy_bytes(&self.authority_list[i + 1]),
                };
                let ghost vm = vote.model();
                let ghost cm = self.cache();
                let ghost pcm = self.counts();
                self.function.send(FrameSend::Vote(vote.duplicate()));
                let added = self.vote_cache.add(vote);
                proof {
                    lemma_cache_adds_snoc(
                        c0,
                        cm,
                        self.cache(),
                        pc0,
                        pcm,
                        self.counts(),
                        emitted,
                        vm,
                        added,
                    );
                    assert(suffix =~= seq![vm] + bb_half(
                        unit@,
                        0,
                        i + 1,
                        h,
                        rd,
                        VoteType::Prevote,
                        value,
                        auths,
                    ));
                    emitted = emitted.push(vm);
                    assert(emitted + bb_half(unit@, 0, i + 1, h, rd, VoteType::Prevote, value, auths)
                        =~= prevotes);
                }
            } else {
                proof {
                    assert(suffix =~= bb_half(
                        unit@,
                        0,
                        i + 1,
                        h,
                        rd,
                        VoteType::Prevote,
                        value,
                        auths,
                    ));
                }
            }
            i = i + 1;
        }
        proof {
            assert(bb_half(unit@, 0, 2, h, rd, VoteType::Prevote, value, auths) =~= Seq::empty());
            assert(emitted =~= prevotes);
        }
        let mut k: usize = 0;
        while k < 2
            invariant
                k <= 2,
                self.wf(),
                self.spec_height() == old(self).spec_height(),
                self.spec_round() == old(self).spec_round(),
                self.spec_proposal() == old(self).spec_proposal(),
                self.spec_lock_proposal() == old(self).spec_lock_proposal(),
                self.spec_authorities() == old(self).spec_authorities(),
                self.spec_authorities().len() >= 3,
                c0 == old(self).cache(),
                pc0 == old(self).counts(),
                auths == old(self).spec_authorities(),
                h == old(self).spec_height(),
                rd == old(self).spec_round(),
                value == old(self).spec_proposal(),
                prevotes == bb_half(unit@, 0, 0, h, rd, VoteType::Prevote, value, auths),
                precommits == bb_half(unit@, 3, 0, h, rd, VoteType::Precommit, value, auths),
                cache_adds(c0, self.cache(), pc0, self.counts(), emitted),
                emitted + bb_half(unit@, 3, k as int, h, rd, VoteType::Precommit, value, auths)
                    == prevotes + precommits,
            decreases 2 - k,
        {
            let ghost suffix = bb_half(
                unit@,
                3,
                k as int,
                h,
                rd,
                VoteType::Precommit,
                value,
                auths,
            );
            if *vstd::array::array_index_get(unit, 3 + k) == 1 {
                let vote = Vote {
                    height: self.height,
                    round: self.round,
                    vote_type: VoteType::Precommit,
                    proposal: copy_bytes(&self.proposal),
                    voter: copy_bytes(&self.authority_list[k + 1]),
                };
                let ghost vm = vote.model();
                let ghost cm = self.cache();
                let ghost pcm = self.counts();
                self.function.send(FrameSend::Vote(vote.duplicate()));
                let added = self.vote_cache.add(vote);
                proof {
                    lemma_cache_adds_snoc(
                        c0,
                        cm,
                        self.cache(),
                        pc0,
                        pcm,
                        self.counts(),
                        emitted,
                        vm,
                        added,
                    );
                    assert(suffix =~= seq![vm] + bb_half(
                        unit@,
                        3,
                        k + 1,
                        h,
                        rd,
                        VoteType::Precommit,
                        value,
                        auths,
                    ));
                    emitted = emitted.push(vm);
                    assert(emitted + bb_half(
                        unit@,
                        3,
                        k + 1,
                        h,
                        rd,
                        VoteType::Precommit,
                        value,
                        auths,
                    ) =~= prevotes + precommits);
                }
            } else {
                proof {
                    assert(suffix =~= bb_half(
                        unit@,
                        3,
                        k + 1,
                        h,
                        rd,
                        VoteType::Precommit,
                        value,
                        auths,
                    ));
                }
            }
            k = k + 1;
        }
        proof {
            assert(bb_half(unit@, 3, 2, h, rd, VoteType::Precommit, value, auths) =~= Seq::empty());
            assert(emitted =~= prevotes + precommits);
            assert(emitted =~= bb_votes(unit@, h, rd, value, auths));
        }
    }

    /// Checks a polled commit against the working proposal.
    fn check_commit(&self, commit: &Commit) -> (r: BftResult<()>)
        ensures
            r is Ok <==> commit.result@ == self.spec_proposal(),
            r is Err ==> r == BftResult::<()>::Err(BftError::CommitIncorrect(self.spec_height())),
    {
        if !bytes_eq(&commit.result, &self.proposal) {
            return Result::Err(BftError::CommitIncorrect(self.height));
        }
        Result::Ok(())
    }

    /// Consumes one scripted unit at a time: the whole run is related to
    /// the starting configuration by one script step per unit — a polled
    /// commit must match the working proposal, a commit where none is
    /// allowed is invalid, a null round only advances the round, and a
    /// ballot unit synthesizes the proposer's traffic and the scripted
    /// votes — and the first violation halts the script, surfaces that
    /// error and freezes the configuration the failing unit left.
    pub fn proc_test(&mut self, cases: BftTest) -> (r: BftResult<()>)
        requires
            old(self).wf(),
            old(self).spec_authorities().len() >= 3,
            old(self).spec_round() + cases@.len() < u64::MAX,
        ensures
            final(self).wf(),
            final(self).spec_height() == old(self).spec_height(),
            final(self).spec_authorities() == old(self).spec_authorities(),
            bb_script_rel(
                old(self).config(),
                final(self).config(),
                Seq::new(cases@.len(), |i: int| cases@[i]@),
                old(self).spec_authorities(),
                r,
            ),
            cases@.len() == 0 ==> r is Ok && final(self).config() == old(self).config(),
    {
        let ghost c0 = self.config();
        let ghost auths = self.spec_authorities();
        let ghost units = Seq::new(cases@.len(), |i: int| cases@[i]@);
        let mut idx: usize = 0;
        let n = cases.len();
        while idx < n
            invariant
                idx <= n,
                n == cases@.len(),
                self.wf(),
                self.spec_height() == old(self).spec_height(),
                self.spec_authorities() == old(self).spec_authorities(),
                self.spec_authorities().len() >= 3,
                self.spec_round() <= old(self).spec_round() + idx,
                old(self).spec_round() + n < u64::MAX,
                c0 == old(self).config(),
                auths == old(self).spec_authorities(),
                units == Seq::new(cases@.len(), |i: int| cases@[i]@),
                bb_script_rel(
                    c0,
                    self.config(),
                    units.subrange(0, idx as int),
                    auths,
                    BftResult::<()>::Ok(()),
                ),
            decreases n - idx,
        {
            let ghost cm = self.config();
            let ghost u = units[idx as int];
            let ghost prefix = units.subrange(0, idx as int);
            let ghost rest = units.subrange(idx + 1, n as int);
            proof {
                assert(SHOULD_COMMIT@ =~= unit_filled(8));
                assert(NULL_ROUND@ =~= unit_filled(7));
                assert(NO_COMMIT_NO_LOCK@ =~= unit_filled(9));
            }
            let case: BftTestUnit = cases[idx];
            if unit_eq(&case, &SHOULD_COMMIT) {
                if let Some(commit) = self.function.try_get_commit() {
                    match self.check_commit(&commit) {
                        Result::Err(e) => {
                            proof {
                                assert(bb_unit_rel(
                                    cm,
                                    self.config(),
                                    u,
                                    auths,
                                    BftResult::<()>::Err(e),
                                ));
                                bb_lemma_script_fail(
                                    c0,
                                    cm,
                                    self.config(),
                                    prefix,
                                    u,
                                    rest,
                                    auths,
                                    e,
                                );
                                assert(units =~= prefix + seq![u] + rest);
                            }
                            return Result::Err(e);
                        },
                        Result::Ok(u2) => {},
                    }
                }
                proof {
                    assert(bb_unit_rel(cm, self.config(), u, auths, BftResult::<()>::Ok(())));
                }
            } else if unit_eq(&case, &NO_COMMIT_BUT_LOCK) {
                if self.function.try_get_commit().is_some() {
                    let held = copy_bytes(&self.proposal);
                    self.lock_proposal = Some(held);
                    proof {
                        let e = BftError::CommitInvalid(cm.height);
                        assert(self.config() == (BbConfig {
                            lock_proposal: Some(cm.proposal),
                            ..cm
                        }));
                        assert(bb_unit_rel(cm, self.config(), u, auths, BftResult::<()>::Err(e)));
                        bb_lemma_script_fail(c0, cm, self.config(), prefix, u, rest, auths, e);
                        assert(units =~= prefix + seq![u] + rest);
                    }
                    return Result::Err(BftError::CommitInvalid(self.height));
                }
                proof {
                    assert(bb_unit_rel(cm, self.config(), u, auths, BftResult::<()>::Ok(())));
                }
            } else if unit_eq(&case, &NO_COMMIT_NO_LOCK) {
                if self.function.try_get_commit().is_some() {
                    proof {
                        let e = BftError::CommitInvalid(cm.height);
                        assert(bb_unit_rel(cm, self.config(), u, auths, BftResult::<()>::Err(e)));
                        bb_lemma_script_fail(c0, cm, self.config(), prefix, u, rest, auths, e);
                        assert(units =~= prefix + seq![u] + rest);
                    }
                    return Result::Err(BftError::CommitInvalid(self.height));
                }
                proof {
                    assert(bb_unit_rel(cm, self.config(), u, auths, BftResult::<()>::Ok(())));
                }
            } else if unit_eq(&case, &NULL_ROUND) {
                self.round = self.round + 1;
                proof {
                    assert(self.config() == (BbConfig { round: (cm.round + 1) as u64, ..cm }));
                    assert(bb_unit_rel(cm, self.config(), u, auths, BftResult::<()>::Ok(())));
                }
            } else {
                let proposer = self.function.cal_proposer(self.height, self.round);
                if proposer == 0 {
                    let feed = self.generate_feed();
                    let adopted = copy_bytes(&feed.proposal);
                    self.proposal = adopted;
                    proof {
                        assert(feed.proposal@.len() == 4 && !byz_spec().contains(feed.proposal@)
                            && self.config() == (BbConfig { proposal: feed.proposal@, ..cm }));
                        assert(bb_unit_rel(cm, self.config(), u, auths, BftResult::<()>::Ok(())));
                    }
                    self.function.send(FrameSend::Feed(feed));
                } else if proposer < self.authority_list.len() {
                    let lock_round = self.lock_round;
                    let proposal = self.generate_proposal(proposer, lock_round, Vec::new());
                    self.function.send(FrameSend::Proposal(proposal));
                    self.generate_vote(&case);
                    proof {
                        assert(case@ == u);
                        assert(proposal.content@.len() == 4 && !byz_spec().contains(
                            proposal.content@,
                        ));
                        assert(self.config().proposal == proposal.content@);
                        assert(cache_adds(
                            cm.cache,
                            self.config().cache,
                            cm.counts,
                            self.config().counts,
                            bb_votes(u, cm.height, cm.round, proposal.content@, auths),
                        ));
                        assert(bb_unit_rel(cm, self.config(), u, auths, BftResult::<()>::Ok(())));
                    }
                } else {
                    proof {
                        let e = BftError::ProposerBeyondList(cm.height, cm.round);
                        assert(bb_unit_rel(cm, self.config(), u, auths, BftResult::<()>::Err(e)));
                        bb_lemma_script_fail(c0, cm, self.config(), prefix, u, rest, auths, e);
                        assert(units =~= prefix + seq![u] + rest);
                    }
                    return Result::Err(BftError::ProposerBeyondList(self.height, self.round));
                }
            }
            proof {
                bb_lemma_script_snoc_ok(c0, cm, self.config(), prefix, u, auths);
                assert(units.subrange(0, idx + 1) =~= prefix.push(u));
            }
            idx = idx + 1;
        }
        proof {
            assert(units.subrange(0, n as int) =~= units);
        }
        Result::Ok(())
    }
}

} // verus!
