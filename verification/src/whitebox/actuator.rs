//! The whitebox actuator: a round-script interpreter that drives the node
//! under test through scripted ballots and control sentinels, mutating its
//! own height/round/lock state, synthesizing protocol traffic, and
//! independently recomputing quorum outcomes to cross-check the node.

use vstd::prelude::*;

verus! {

use crate::bytes::{bytes_eq, contains_bytes, copy_bytes, spec_contains_bytes};
use crate::collection::vote_cache::{
    cache_add_rel, count_for, counts_after, step_slot, StepModel, VoteCache, VoteSet, VoteSetModel,
};
use crate::rng::random_u8;
use crate::whitebox::correctness::test_case::{
    byz_spec, byzantine_proposal, unit_eq, unit_filled, unit_ok, BftTest, BftTestUnit, BYZANTINE,
    NORMAL, NO_COMMIT_BUT_LOCK, NO_COMMIT_NO_LOCK, NULL_ROUND, SHOULD_COMMIT,
};
use crate::whitebox::error::BftError;
use crate::whitebox::{
    Address, BftResult, Commit, Feed, FrameRecv, FrameSend, Proposal, Status, Support, Vote,
    VoteType,
};

/// The mutable round state of the actuator: where the simulation stands and
/// which value, if any, it is locked on.
pub ghost struct ActState {
    /// The consensus instance being driven.
    pub height: u64,
    /// The sub-attempt within the height.
    pub round: u64,
    /// The round of the held lock, if any.
    pub lock_round: Option<u64>,
    /// The value of the held lock, if any.
    pub lock_proposal: Option<Seq<u8>>,
    /// The working proposal value.
    pub proposal: Seq<u8>,
}

/// The state after the lock is forced to the current working proposal.
pub open spec fn lock_forced(s: ActState) -> ActState {
    ActState { lock_round: Some(s.round), lock_proposal: Some(s.proposal), ..s }
}

/// The state after a round advance: the working proposal is restored from
/// the lock, or cleared where none is held.
pub open spec fn round_advanced(s: ActState) -> ActState {
    ActState {
        round: (s.round + 1) as u64,
        proposal: if s.lock_round is Some {
            s.lock_proposal.unwrap()
        } else {
            Seq::empty()
        },
        ..s
    }
}

/// The state after a height advance: the next height starts at round zero
/// with no lock and no working proposal.
pub open spec fn height_advanced(s: ActState) -> ActState {
    ActState {
        height: (s.height + 1) as u64,
        round: 0,
        lock_round: None,
        lock_proposal: None,
        proposal: Seq::empty(),
    }
}

/// The state after a value reached prevote quorum: the lock is set to
/// (current round, value) and the value is adopted as the working proposal.
pub open spec fn polc_set(s: ActState, v: Seq<u8>) -> ActState {
    ActState { lock_round: Some(s.round), lock_proposal: Some(v), proposal: v, ..s }
}

/// The state after nil reached prevote quorum: the lock and the working
/// proposal are cleared.
pub open spec fn polc_cleared(s: ActState) -> ActState {
    ActState { lock_round: None, lock_proposal: None, proposal: Seq::empty(), ..s }
}

/// The value of the last tally entry above the supermajority threshold, in
/// first-vote order, where any is.
pub open spec fn last_quorum(t: Seq<(Seq<u8>, usize)>, n: nat) -> Option<Seq<u8>>
    decreases t.len(),
{
    if t.len() == 0 {
        None
    } else if 3 * t.last().1 > 2 * n {
        Some(t.last().0)
    } else {
        last_quorum(t.drop_last(), n)
    }
}

/// The first precommit fault found walking the tallies in first-vote order:
/// a quorum entry disagreeing with the precommit value, or one whose
/// corroborating prevote evidence is thinner than three votes.
pub open spec fn precommit_scan(
    t: Seq<(Seq<u8>, usize)>,
    n: nat,
    vote_value: Seq<u8>,
    polc: nat,
) -> Option<bool>
    decreases t.len(),
{
    if t.len() == 0 {
        None
    } else if 3 * t[0].1 > 2 * n {
        if t[0].0 != vote_value {
            Some(true)
        } else if polc < 3 {
            Some(false)
        } else {
            precommit_scan(t.subrange(1, t.len() as int), n, vote_value, polc)
        }
    } else {
        precommit_scan(t.subrange(1, t.len() as int), n, vote_value, polc)
    }
}

/// The value a normal slot votes for: the locked value where a lock is
/// held, else the working proposal.
pub open spec fn half_value(s: ActState) -> Seq<u8> {
    if s.lock_proposal is Some {
        s.lock_proposal.unwrap()
    } else {
        s.proposal
    }
}

/// The votes one scripted ballot half synthesizes, read from slot `upto`
/// on: one vote per slot, a normal slot voting `value`, a byzantine slot
/// voting its denylisted value, and an offline slot silencing the rest of
/// the half.
pub open spec fn half_votes(
    unit: Seq<u8>,
    base: int,
    upto: int,
    height: u64,
    round: u64,
    vt: VoteType,
    value: Seq<u8>,
    auths: Seq<Seq<u8>>,
) -> Seq<crate::whitebox::VoteModel>
    decreases 3 - upto,
{
    if upto < 0 || upto >= 3 {
        Seq::empty()
    } else if unit[base + upto] == NORMAL {
        seq![
            crate::whitebox::VoteModel {
                height,
                round,
                vote_type: vt,
                proposal: value,
                voter: auths[upto + 1],
            },
        ] + half_votes(unit, base, upto + 1, height, round, vt, value, auths)
    } else if unit[base + upto] == BYZANTINE {
        seq![
            crate::whitebox::VoteModel {
                height,
                round,
                vote_type: vt,
                proposal: byz_spec()[upto],
                voter: auths[upto + 1],
            },
        ] + half_votes(unit, base, upto + 1, height, round, vt, value, auths)
    } else {
        Seq::empty()
    }
}

/// The cache and the prevote counters after recording a list of votes in
/// order, each through one bounded insertion.
pub open spec fn cache_adds(
    c0: Map<u64, Map<u64, StepModel>>,
    c1: Map<u64, Map<u64, StepModel>>,
    pc0: Map<u64, usize>,
    pc1: Map<u64, usize>,
    votes: Seq<crate::whitebox::VoteModel>,
) -> bool
    decreases votes.len(),
{
    if votes.len() == 0 {
        c1 == c0 && pc1 == pc0
    } else {
        exists|cm: Map<u64, Map<u64, StepModel>>, added: bool|
            #![trigger cache_add_rel(c0, cm, votes[0].height, votes[0].round, votes[0].vote_type, votes[0].voter, votes[0].proposal, added)]
            cache_add_rel(
                c0,
                cm,
                votes[0].height,
                votes[0].round,
                votes[0].vote_type,
                votes[0].voter,
                votes[0].proposal,
                added,
            ) && cache_adds(
                cm,
                c1,
                counts_after(pc0, votes[0].vote_type, votes[0].round, added),
                pc1,
                votes.subrange(1, votes.len() as int),
            )
    }
}

/// Recording one more vote extends a recorded list by one.
pub(crate) proof fn lemma_cache_adds_snoc(
    c0: Map<u64, Map<u64, StepModel>>,
    cm: Map<u64, Map<u64, StepModel>>,
    c1: Map<u64, Map<u64, StepModel>>,
    pc0: Map<u64, usize>,
    pcm: Map<u64, usize>,
    pc1: Map<u64, usize>,
    votes: Seq<crate::whitebox::VoteModel>,
    vm: crate::whitebox::VoteModel,
    added: bool,
)
    requires
        cache_adds(c0, cm, pc0, pcm, votes),
        cache_add_rel(cm, c1, vm.height, vm.round, vm.vote_type, vm.voter, vm.proposal, added),
        pc1 == counts_after(pcm, vm.vote_type, vm.round, added),
    ensures
        cache_adds(c0, c1, pc0, pc1, votes.push(vm)),
    decreases votes.len(),
{
    let snoc = votes.push(vm);
    if votes.len() == 0 {
        assert(snoc[0] == vm);
        assert(snoc.subrange(1, snoc.len() as int) =~= Seq::empty());
        assert(cm == c0 && pcm == pc0);
        assert(cache_adds(c1, c1, pc1, pc1, snoc.subrange(1, snoc.len() as int)));
    } else {
        let head = votes[0];
        let c_step = choose|c_step: Map<u64, Map<u64, StepModel>>, a0: bool|
            #![trigger cache_add_rel(c0, c_step, head.height, head.round, head.vote_type, head.voter, head.proposal, a0)]
            cache_add_rel(
                c0,
                c_step,
                head.height,
                head.round,
                head.vote_type,
                head.voter,
                head.proposal,
                a0,
            ) && cache_adds(
                c_step,
                cm,
                counts_after(pc0, head.vote_type, head.round, a0),
                pcm,
                votes.subrange(1, votes.len() as int),
            );
        lemma_cache_adds_snoc(
            c_step.0,
            cm,
            c1,
            counts_after(pc0, head.vote_type, head.round, c_step.1),
            pcm,
            pc1,
            votes.subrange(1, votes.len() as int),
            vm,
            added,
        );
        assert(snoc.subrange(1, snoc.len() as int) =~= votes.subrange(
            1,
            votes.len() as int,
        ).push(vm));
        assert(snoc[0] == head);
    }
}

/// The vote set recorded at one (height, round, step) slot of a cache
/// model, where the whole path is present.
pub open spec fn cache_slot(
    c: Map<u64, Map<u64, StepModel>>,
    h: u64,
    rd: u64,
    vt: VoteType,
) -> Option<VoteSetModel> {
    if c.dom().contains(h) && c[h].dom().contains(rd) {
        step_slot(c[h][rd], vt)
    } else {
        None
    }
}

/// Everything of the actuator one script step may read or change: the round
/// state, the cached votes and the prevote counters.
pub ghost struct ActConfig {
    /// The mutable round state.
    pub state: ActState,
    /// The cached votes, by height, round and step.
    pub cache: Map<u64, Map<u64, StepModel>>,
    /// The running prevote count per round.
    pub counts: Map<u64, usize>,
}

/// How a should-commit sentinel changes the configuration: a polled commit
/// matching the working proposal advances the height and forgets the
/// prevote counters, an absent commit changes nothing, and a mismatching
/// commit is incorrect and halts with everything unchanged.
pub open spec fn should_commit_rel(c0: ActConfig, c1: ActConfig, r: BftResult<()>) -> bool {
    &&& c1.cache == c0.cache
    &&& match r {
        Result::Ok(u) => (c1.state == c0.state && c1.counts == c0.counts) || (c1.state
            == height_advanced(c0.state) && c1.counts == Map::<u64, usize>::empty()),
        Result::Err(e) => e == BftError::CommitIncorrect(c0.state.height) && c1 == c0,
    }
}

/// How a null-round sentinel changes the configuration: the round advances
/// with the working proposal restored from the lock, and nothing else moves.
pub open spec fn null_round_rel(c0: ActConfig, c1: ActConfig, r: BftResult<()>) -> bool {
    &&& r is Ok
    &&& c1.state == round_advanced(c0.state)
    &&& c1.cache == c0.cache
    &&& c1.counts == c0.counts
}

/// How a no-commit-but-lock sentinel changes the configuration: the lock is
/// forced to the current working proposal; a pending commit is invalid and
/// halts there, else the round advances.
pub open spec fn no_commit_but_lock_rel(c0: ActConfig, c1: ActConfig, r: BftResult<()>) -> bool {
    &&& c1.cache == c0.cache
    &&& c1.counts == c0.counts
    &&& match r {
        Result::Ok(u) => c1.state == round_advanced(lock_forced(c0.state)),
        Result::Err(e) => e == BftError::CommitInvalid(c0.state.height) && c1.state == lock_forced(
            c0.state,
        ),
    }
}

/// How a no-commit-no-lock sentinel changes the configuration: a pending
/// commit is invalid and halts with everything unchanged, else the round
/// advances.
pub open spec fn no_commit_no_lock_rel(c0: ActConfig, c1: ActConfig, r: BftResult<()>) -> bool {
    &&& c1.cache == c0.cache
    &&& c1.counts == c0.counts
    &&& match r {
        Result::Ok(u) => c1.state == round_advanced(c0.state),
        Result::Err(e) => e == BftError::CommitInvalid(c0.state.height) && c1.state == c0.state,
    }
}

/// The propose phase of a ballot that went through: the harness fed its own
/// fresh denylist-avoiding value, or synthesized the designated authority's
/// proposal — carrying a held lock's value as the content, else a fresh
/// denylist-avoiding draw. Either way the content became the working
/// proposal and nothing else moved.
pub open spec fn propose_ok_rel(c0: ActConfig, c1: ActConfig) -> bool {
    &&& c1.cache == c0.cache
    &&& c1.counts == c0.counts
    &&& ((exists|v: Seq<u8>|
        v.len() == 6 && !#[trigger] byz_spec().contains(v) && c1.state == (ActState {
            proposal: v,
            ..c0.state
        })) || (c0.state.lock_proposal matches Some(lv) && c1.state == (ActState {
        proposal: lv,
        ..c0.state
    })))
}

/// How receiving the node's prevote and evaluating the prevote quorum
/// changes the configuration: on success the state follows the last quorum
/// entry of the cached prevote tallies; a failure is an abnormal proposal
/// or an illegal vote.
pub open spec fn prevote_check_rel(c0: ActConfig, c1: ActConfig, r: BftResult<()>, n: nat) -> bool {
    &&& c1.state.height == c0.state.height
    &&& c1.state.round == c0.state.round
    &&& match r {
        Result::Ok(u) => cache_slot(c1.cache, c0.state.height, c0.state.round, VoteType::Prevote)
            matches Some(m) && (match last_quorum(m.tallies, n) {
            None => c1.state == (ActState { proposal: Seq::empty(), ..c0.state }),
            Some(v) => if v.len() > 0 {
                c1.state == polc_set(c0.state, v)
            } else {
                c1.state == polc_cleared(c0.state)
            },
        }),
        Result::Err(e) => e matches BftError::AbnormalProposal(_) || e
            matches BftError::IllegalVote(_),
    }
}

/// How receiving the node's precommit and checking it against the prevote
/// quorum changes the configuration: the state never moves; success
/// guarantees a quorum-gated prevote set whose scan finds no fault, and a
/// failure names the violated gate.
pub open spec fn precommit_check_rel(c0: ActConfig, c1: ActConfig, r: BftResult<()>, n: nat) -> bool {
    &&& c1.state == c0.state
    &&& match r {
        Result::Ok(u) => cache_slot(c1.cache, c0.state.height, c0.state.round, VoteType::Prevote)
            matches Some(m) && 3 * m.senders.len() > 2 * n && exists|v: Seq<u8>|
            !byz_spec().contains(v) && #[trigger] precommit_scan(
                m.tallies,
                n,
                v,
                count_for(m.senders, v),
            ) is None,
        Result::Err(e) => (e matches BftError::ShouldNotPrecommit(hh, rr) ==> hh == c0.state.height
            && rr == c0.state.round && (cache_slot(
            c1.cache,
            c0.state.height,
            c0.state.round,
            VoteType::Prevote,
        ) matches Some(m) && !(3 * m.senders.len() > 2 * n))) && (e
            matches BftError::AbnormalProposal(_) || e matches BftError::IllegalVote(_) || e
            matches BftError::ShouldNotPrecommit(_, _) || e matches BftError::PrecommitErr(_, _)
            || e matches BftError::PrecommitDiffPoLC(_)),
    }
}

/// How one ballot unit changes the configuration: an out-of-list proposer
/// halts unchanged; otherwise the propose phase runs, the prevote half's
/// scripted votes (slots 0 to 2) land in the cache, the prevote quorum
/// check either fails and halts or applies its outcome, and then the
/// precommit half's scripted votes (slots 3 to 5) land in the cache and the
/// precommit check decides the result.
pub open spec fn ballot_rel(
    c0: ActConfig,
    c1: ActConfig,
    unit: Seq<u8>,
    auths: Seq<Seq<u8>>,
    r: BftResult<()>,
) -> bool {
    ||| (r == BftResult::<()>::Err(
        BftError::ProposerBeyondList(c0.state.height, c0.state.round),
    ) && c1 == c0)
    ||| (exists|cp: ActConfig, ca: ActConfig|
        #![trigger propose_ok_rel(c0, cp), prevote_half_rel(cp, ca, unit, auths)]
        propose_ok_rel(c0, cp) && prevote_half_rel(cp, ca, unit, auths) && r is Err
            && prevote_check_rel(ca, c1, r, auths.len()))
    ||| (exists|cp: ActConfig, ca: ActConfig, cb: ActConfig, cd: ActConfig|
        #![trigger propose_ok_rel(c0, cp), prevote_half_rel(cp, ca, unit, auths), prevote_check_rel(ca, cb, BftResult::<()>::Ok(()), auths.len()), precommit_half_rel(cb, cd, unit, auths)]
        propose_ok_rel(c0, cp) && prevote_half_rel(cp, ca, unit, auths) && prevote_check_rel(
            ca,
            cb,
            BftResult::<()>::Ok(()),
            auths.len(),
        ) && precommit_half_rel(cb, cd, unit, auths) && precommit_check_rel(
            cd,
            c1,
            r,
            auths.len(),
        ))
}

/// The prevote half of a ballot: the state holds still while exactly the
/// scripted votes of slots 0 to 2 land in the cache.
pub open spec fn prevote_half_rel(
    c0: ActConfig,
    c1: ActConfig,
    unit: Seq<u8>,
    auths: Seq<Seq<u8>>,
) -> bool {
    &&& c1.state == c0.state
    &&& cache_adds(
        c0.cache,
        c1.cache,
        c0.counts,
        c1.counts,
        half_votes(
            unit,
            0,
            0,
            c0.state.height,
            c0.state.round,
            VoteType::Prevote,
            half_value(c0.state),
            auths,
        ),
    )
}

/// The precommit half of a ballot: the state holds still while exactly the
/// scripted votes of slots 3 to 5 land in the cache.
pub open spec fn precommit_half_rel(
    c0: ActConfig,
    c1: ActConfig,
    unit: Seq<u8>,
    auths: Seq<Seq<u8>>,
) -> bool {
    &&& c1.state == c0.state
    &&& cache_adds(
        c0.cache,
        c1.cache,
        c0.counts,
        c1.counts,
        half_votes(
            unit,
            3,
            0,
            c0.state.height,
            c0.state.round,
            VoteType::Precommit,
            half_value(c0.state),
            auths,
        ),
    )
}

/// How one scripted unit changes the configuration, by the unit's kind.
pub open spec fn unit_rel(
    c0: ActConfig,
    c1: ActConfig,
    unit: Seq<u8>,
    auths: Seq<Seq<u8>>,
    r: BftResult<()>,
) -> bool {
    if unit == unit_filled(8) {
        should_commit_rel(c0, c1, r)
    } else if unit == unit_filled(7) {
        null_round_rel(c0, c1, r)
    } else if unit == NO_COMMIT_BUT_LOCK@ {
        no_commit_but_lock_rel(c0, c1, r)
    } else if unit == unit_filled(9) {
        no_commit_no_lock_rel(c0, c1, r)
    } else {
        ballot_rel(c0, c1, unit, auths, r)
    }
}

/// How a whole script changes the configuration: the units are consumed in
/// order, each step related by its unit's kind; the first failing unit
/// halts the script with its error and the configuration it left, and no
/// later unit is processed.
pub open spec fn script_rel(
    c0: ActConfig,
    c1: ActConfig,
    units: Seq<Seq<u8>>,
    auths: Seq<Seq<u8>>,
    r: BftResult<()>,
) -> bool
    decreases units.len(),
{
    if units.len() == 0 {
        r is Ok && c1 == c0
    } else {
        exists|cm: ActConfig, ru: BftResult<()>|
            #![trigger unit_rel(c0, cm, units[0], auths, ru)]
            unit_rel(c0, cm, units[0], auths, ru) && match ru {
                Result::Ok(u) => script_rel(cm, c1, units.subrange(1, units.len() as int), auths, r),
                Result::Err(e) => r == BftResult::<()>::Err(e) && c1 == cm,
            }
    }
}

/// One more successfully processed unit extends a processed script.
proof fn lemma_script_snoc_ok(
    c0: ActConfig,
    cm: ActConfig,
    c1: ActConfig,
    units: Seq<Seq<u8>>,
    u: Seq<u8>,
    auths: Seq<Seq<u8>>,
)
    requires
        script_rel(c0, cm, units, auths, BftResult::<()>::Ok(())),
        unit_rel(cm, c1, u, auths, BftResult::<()>::Ok(())),
    ensures
        script_rel(c0, c1, units.push(u), auths, BftResult::<()>::Ok(())),
    decreases units.len(),
{
    let snoc = units.push(u);
    if units.len() == 0 {
        assert(cm == c0);
        assert(snoc[0] == u);
        assert(snoc.subrange(1, snoc.len() as int) =~= Seq::empty());
        assert(unit_rel(c0, c1, snoc[0], auths, BftResult::<()>::Ok(())));
        assert(script_rel(
            c1,
            c1,
            snoc.subrange(1, snoc.len() as int),
            auths,
            BftResult::<()>::Ok(()),
        ));
    } else {
        let head = units[0];
        let w = choose|cmid: ActConfig, ru: BftResult<()>|
            #![trigger unit_rel(c0, cmid, units[0], auths, ru)]
            unit_rel(c0, cmid, units[0], auths, ru) && match ru {
                Result::Ok(uu) => script_rel(
                    cmid,
                    cm,
                    units.subrange(1, units.len() as int),
                    auths,
                    BftResult::<()>::Ok(()),
                ),
                Result::Err(e) => BftResult::<()>::Ok(()) == BftResult::<()>::Err(e) && cm == cmid,
            };
        assert(w.1 is Ok);
        lemma_script_snoc_ok(w.0, cm, c1, units.subrange(1, units.len() as int), u, auths);
        assert(snoc.subrange(1, snoc.len() as int) =~= units.subrange(
            1,
            units.len() as int,
        ).push(u));
        assert(snoc[0] == head);
        assert(unit_rel(c0, w.0, snoc[0], auths, w.1));
        assert(script_rel(
            w.0,
            c1,
            snoc.subrange(1, snoc.len() as int),
            auths,
            BftResult::<()>::Ok(()),
        ));
    }
}

/// A failing unit after a processed prefix halts the whole script with that
/// failure and the configuration it left, whatever units follow.
proof fn lemma_script_fail(
    c0: ActConfig,
    cm: ActConfig,
    c1: ActConfig,
    prefix: Seq<Seq<u8>>,
    u: Seq<u8>,
    rest: Seq<Seq<u8>>,
    auths: Seq<Seq<u8>>,
    e: BftError,
)
    requires
        script_rel(c0, cm, prefix, auths, BftResult::<()>::Ok(())),
        unit_rel(cm, c1, u, auths, BftResult::<()>::Err(e)),
    ensures
        script_rel(c0, c1, prefix + seq![u] + rest, auths, BftResult::<()>::Err(e)),
    decreases prefix.len(),
{
    let full = prefix + seq![u] + rest;
    if prefix.len() == 0 {
        assert(cm == c0);
        assert(full[0] == u);
        assert(unit_rel(c0, c1, full[0], auths, BftResult::<()>::Err(e)));
    } else {
        let head = prefix[0];
        let w = choose|cmid: ActConfig, ru: BftResult<()>|
            #![trigger unit_rel(c0, cmid, prefix[0], auths, ru)]
            unit_rel(c0, cmid, prefix[0], auths, ru) && match ru {
                Result::Ok(uu) => script_rel(
                    cmid,
                    cm,
                    prefix.subrange(1, prefix.len() as int),
                    auths,
                    BftResult::<()>::Ok(()),
                ),
                Result::Err(e2) => BftResult::<()>::Ok(()) == BftResult::<()>::Err(e2) && cm
                    == cmid,
            };
        assert(w.1 is Ok);
        lemma_script_fail(
            w.0,
            cm,
            c1,
            prefix.subrange(1, prefix.len() as int),
            u,
            rest,
            auths,
            e,
        );
        assert(full.subrange(1, full.len() as int) =~= prefix.subrange(1, prefix.len() as int)
            + seq![u] + rest);
        assert(full[0] == head);
        assert(unit_rel(c0, w.0, full[0], auths, w.1));
        assert(script_rel(
            w.0,
            c1,
            full.subrange(1, full.len() as int),
            auths,
            BftResult::<()>::Err(e),
        ));
    }
}

/// A whitebox testing actuator, generic over the capability contract of the
/// node under test.
pub struct Actuator<T> {
    function: T,
    height: u64,
    round: u64,
    lock_round: Option<u64>,
    lock_proposal: Option<Vec<u8>>,
    authority_list: Vec<Address>,
    proposal: Vec<u8>,
    byzantine: Vec<Vec<u8>>,
    vote_cache: VoteCache,
}

impl<T: Support> Actuator<T> {
    /// The current height.
    pub closed spec fn spec_height(&self) -> u64 {
        self.height
    }

    /// The current round.
    pub closed spec fn spec_round(&self) -> u64 {
        self.round
    }

    /// The round of the held lock, if any.
    pub closed spec fn spec_lock_round(&self) -> Option<u64> {
        self.lock_round
    }

    /// The value of the held lock, if any.
    pub closed spec fn spec_lock_proposal(&self) -> Option<Seq<u8>> {
        match self.lock_proposal {
            Some(v) => Some(v@),
            None => None,
        }
    }

    /// The working proposal value.
    pub closed spec fn spec_proposal(&self) -> Seq<u8> {
        self.proposal@
    }

    /// The ordered authority list.
    pub closed spec fn spec_authorities(&self) -> Seq<Seq<u8>> {
        Seq::new(self.authority_list@.len(), |i: int| self.authority_list@[i]@)
    }

    /// The denylist of disallowed values.
    pub closed spec fn spec_byzantine(&self) -> Seq<Seq<u8>> {
        Seq::new(self.byzantine@.len(), |i: int| self.byzantine@[i]@)
    }

    /// The cached votes, by height, round and step.
    pub closed spec fn cache(&self) -> Map<u64, Map<u64, StepModel>> {
        self.vote_cache.model()
    }

    /// The running prevote count per round.
    pub closed spec fn prevote_counts(&self) -> Map<u64, usize> {
        self.vote_cache.counts()
    }

    /// The whole mutable round state.
    pub open spec fn state(&self) -> ActState {
        ActState {
            height: self.spec_height(),
            round: self.spec_round(),
            lock_round: self.spec_lock_round(),
            lock_proposal: self.spec_lock_proposal(),
            proposal: self.spec_proposal(),
        }
    }

    /// Everything one script step may read or change.
    pub open spec fn config(&self) -> ActConfig {
        ActConfig { state: self.state(), cache: self.cache(), counts: self.prevote_counts() }
    }

    /// Internal consistency: the vote cache is well-formed, lock round and
    /// lock value are held together, and the denylist is the fixed one.
    pub closed spec fn wf(&self) -> bool {
        &&& self.vote_cache.wf()
        &&& (self.lock_round is Some <==> self.lock_proposal is Some)
        &&& self.spec_byzantine() == byz_spec()
    }

    /// A fresh actuator at the given height and round, with no lock, no
    /// working proposal, an empty vote cache and the fixed denylist.
    pub fn new(function: T, height: u64, round: u64, authority_list: Vec<Address>) -> (r: Actuator<
        T,
    >)
        ensures
            r.wf(),
            r.state() == (ActState {
                height,
                round,
                lock_round: None,
                lock_proposal: None,
                proposal: Seq::empty(),
            }),
            r.spec_authorities() == Seq::new(
                authority_list@.len(),
                |i: int| authority_list@[i]@,
            ),
            r.cache() =~= Map::empty(),
            r.prevote_counts() =~= Map::empty(),
    {
        let r = Actuator {
            function,
            height,
            round,
            lock_round: None,
            lock_proposal: None,
            authority_list,
            proposal: Vec::new(),
            byzantine: byzantine_proposal(),
            vote_cache: VoteCache::new(),
        };
        proof {
            assert(r.spec_byzantine() =~= byz_spec());
        }
        r
    }

    /// Replaces the authority list; everything else stays.
    pub fn set_authority_list(&mut self, authority_list: Vec<Address>)
        requires
            old(self).wf(),
        ensures
            final(self).wf(),
            final(self).state() == old(self).state(),
            final(self).spec_authorities() == Seq::new(
                authority_list@.len(),
                |i: int| authority_list@[i]@,
            ),
            final(self).cache() == old(self).cache(),
            final(self).prevote_counts() == old(self).prevote_counts(),
    {
        self.authority_list = authority_list;
    }

    /// The current height.
    pub fn get_height(&self) -> (r: u64)
        ensures
            r == self.spec_height(),
    {
        self.height
    }

    /// The current round.
    pub fn get_round(&self) -> (r: u64)
        ensures
            r == self.spec_round(),
    {
        self.round
    }

    /// Whether `num` votes are a strict supermajority of the authority
    /// list: exactly when three times the count exceeds twice the list
    /// size.
    pub fn is_above_threshold(&self, num: usize) -> (r: BftResult<()>)
        ensures
            r is Ok <==> 3 * num > 2 * self.spec_authorities().len(),
            r is Err ==> r == BftResult::<()>::Err(
                BftError::ShouldNotPrecommit(self.spec_height(), self.spec_round()),
            ),
    {
        if (num as u128) * 3 <= (self.authority_list.len() as u128) * 2 {
            return Result::Err(BftError::ShouldNotPrecommit(self.height, self.round));
        }
        Result::Ok(())
    }

    /// Sets the lock to (current round, value) and adopts the value as the
    /// working proposal.
    fn set_polc(&mut self, proposal: Vec<u8>)
        requires
            old(self).wf(),
        ensures
            final(self).wf(),
            final(self).state() == polc_set(old(self).state(), proposal@),
            final(self).spec_authorities() == old(self).spec_authorities(),
            final(self).cache() == old(self).cache(),
            final(self).prevote_counts() == old(self).prevote_counts(),
    {
        let kept = copy_bytes(&proposal);
        self.proposal = kept;
        self.lock_round = Some(self.round);
        self.lock_proposal = Some(proposal);
    }

    /// Clears the lock and the working proposal.
    fn clean_polc(&mut self)
        requires
            old(self).wf(),
        ensures
            final(self).wf(),
            final(self).state() == polc_cleared(old(self).state()),
            final(self).spec_authorities() == old(self).spec_authorities(),
            final(self).cache() == old(self).cache(),
            final(self).prevote_counts() == old(self).prevote_counts(),
    {
        self.proposal = Vec::new();
        self.lock_round = None;
        self.lock_proposal = None;
    }

    /// Advances to the next height: round zero, no lock, no working
    /// proposal, prevote counters forgotten.
    fn goto_next_height(&mut self)
        requires
            old(self).wf(),
            old(self).spec_height() < u64::MAX,
        ensures
            final(self).wf(),
            final(self).state() == height_advanced(old(self).state()),
            final(self).spec_authorities() == old(self).spec_authorities(),
            final(self).cache() == old(self).cache(),
            final(self).prevote_counts() =~= Map::empty(),
    {
        self.vote_cache.clear_prevote_count();
        self.lock_round = None;
        self.lock_proposal = None;
        self.proposal = Vec::new();
        self.round = 0;
        self.height = self.height + 1;
    }

    /// Advances to the next round: the working proposal is restored from
    /// the lock, or cleared where none is held.
    fn goto_next_round(&mut self)
        requires
            old(self).wf(),
            old(self).spec_round() < u64::MAX,
        ensures
            final(self).wf(),
            final(self).state() == round_advanced(old(self).state()),
            final(self).spec_authorities() == old(self).spec_authorities(),
            final(self).cache() == old(self).cache(),
            final(self).prevote_counts() == old(self).prevote_counts(),
    {
        match &self.lock_proposal {
            None => {
                self.proposal = Vec::new();
            },
            Some(locked) => {
                let restored = copy_bytes(locked);
                self.proposal = restored;
            },
        }
        self.round = self.round + 1;
    }

    /// A candidate value that avoids the denylist: a bounded number of
    /// six-byte draws, with a fixed fallback outside the denylist.
    fn draw_value(byzantine: &Vec<Vec<u8>>) -> (r: Vec<u8>)
        requires
            Seq::new(byzantine@.len(), |i: int| byzantine@[i]@) == byz_spec(),
        ensures
            r@.len() == 6,
            !byz_spec().contains(r@),
    {
        let mut attempts: usize = 0;
        while attempts < 16
            invariant
                Seq::new(byzantine@.len(), |i: int| byzantine@[i]@) == byz_spec(),
            decreases 16 - attempts,
        {
            let mut candidate: Vec<u8> = Vec::new();
            let mut i: usize = 0;
            while i < 6
                invariant
                    candidate@.len() == i,
                    i <= 6,
                decreases 6 - i,
            {
                candidate.push(random_u8());
                i = i + 1;
            }
            if !contains_bytes(byzantine, &candidate) {
                proof {
                    assert(byzantine@.len() == byz_spec().len());
                    if byz_spec().contains(candidate@) {
                        let j = choose|j: int|
                            0 <= j < byz_spec().len() && byz_spec()[j] == candidate@;
                        assert(byzantine@[j]@ == byz_spec()[j]);
                        assert(spec_contains_bytes(byzantine@, candidate@));
                    }
                }
                return candidate;
            }
            attempts = attempts + 1;
        }
        let mut fallback: Vec<u8> = Vec::new();
        let mut i: usize = 0;
        while i < 6
            invariant
                fallback@.len() == i,
                i <= 6,
                forall|j: int| 0 <= j < i ==> fallback@[j] == 3u8,
            decreases 6 - i,
        {
            fallback.push(3);
            i = i + 1;
        }
        proof {
            assert(fallback@ =~= unit_filled(3));
            assert(byz_spec()[0][0] == 0u8);
            assert(byz_spec()[1][0] == 1u8);
            assert(byz_spec()[2][0] == 2u8);
            assert(unit_filled(3)[0] == 3u8);
            assert(!byz_spec().contains(fallback@));
        }
        fallback
    }

    /// Synthesizes the harness's own candidate value for this height,
    /// avoiding the denylist.
    fn generate_feed(&self) -> (r: Feed)
        requires
            self.wf(),
        ensures
            r.height == self.spec_height(),
            r.proposal@.len() == 6,
            !byz_spec().contains(r.proposal@),
    {
        proof {
            assert(Seq::new(self.byzantine@.len(), |i: int| self.byzantine@[i]@) == byz_spec());
        }
        let proposal = Self::draw_value(&self.byzantine);
        Feed { height: self.height, proposal }
    }

    /// Synthesizes a height announcement carrying the authority list.
    fn generate_status(&self) -> (r: Status)
        ensures
            r.height == self.spec_height(),
            Seq::new(r.authority_list@.len(), |i: int| r.authority_list@[i]@) == self
                .spec_authorities(),
    {
        let mut list: Vec<Address> = Vec::new();
        let mut i: usize = 0;
        let n = self.authority_list.len();
        while i < n
            invariant
                i <= n,
                n == self.authority_list@.len(),
                list@.len() == i,
                forall|j: int| 0 <= j < i ==> (#[trigger] list@[j])@ == self.authority_list@[j]@,
            decreases n - i,
        {
            list.push(copy_bytes(&self.authority_list[i]));
            i = i + 1;
        }
        let r = Status { height: self.height, authority_list: list };
        proof {
            assert(Seq::new(r.authority_list@.len(), |i: int| r.authority_list@[i]@) =~= self
                .spec_authorities());
        }
        r
    }

    /// Synthesizes a proposal from the designated authority. A held lock's
    /// value is carried as the content; otherwise a fresh value is drawn
    /// outside the denylist. Either way the content becomes the working
    /// proposal.
    fn generate_proposal(
        &mut self,
        auth_index: usize,
        lock_round: Option<u64>,
        lock_votes: Vec<Vote>,
    ) -> (r: Proposal)
        requires
            old(self).wf(),
            auth_index < old(self).spec_authorities().len(),
        ensures
            final(self).wf(),
            r.height == old(self).spec_height(),
            r.round == old(self).spec_round(),
            r.proposer@ == old(self).spec_authorities()[auth_index as int],
            r.lock_round == lock_round,
            r.lock_votes == lock_votes,
            match old(self).spec_lock_proposal() {
                Some(v) => r.content@ == v && final(self).spec_proposal() == v,
                None => r.content@.len() == 6 && !byz_spec().contains(r.content@) && final(self).spec_proposal() == r.content@,
            },
            final(self).spec_height() == old(self).spec_height(),
            final(self).spec_round() == old(self).spec_round(),
            final(self).spec_lock_round() == old(self).spec_lock_round(),
            final(self).spec_lock_proposal() == old(self).spec_lock_proposal(),
            final(self).spec_authorities() == old(self).spec_authorities(),
            final(self).cache() == old(self).cache(),
            final(self).prevote_counts() == old(self).prevote_counts(),
    {
        let content = match &self.lock_proposal {
            Some(locked) => copy_bytes(locked),
            None => {
                proof {
                    assert(Seq::new(self.byzantine@.len(), |i: int| self.byzantine@[i]@)
                        == byz_spec());
                }
                Self::draw_value(&self.byzantine)
            },
        };
        let adopted = copy_bytes(&content);
        self.proposal = adopted;
        Proposal {
            height: self.height,
            round: self.round,
            content,
            proposer: copy_bytes(&self.authority_list[auth_index]),
            lock_round,
            lock_votes,
        }
    }

    /// Emits the scripted prevotes of the three non-proposer participants:
    /// a normal slot votes for the locked value or the working proposal, a
    /// byzantine slot votes for its denylisted value, and an offline slot
    /// silences the rest of the half.
    fn generate_prevote(&mut self, unit: &BftTestUnit)
        requires
            old(self).wf(),
            unit_ok(unit@),
            old(self).spec_authorities().len() >= 4,
        ensures
            final(self).wf(),
            final(self).state() == old(self).state(),
            final(self).spec_authorities() == old(self).spec_authorities(),
            cache_adds(
                old(self).cache(),
                final(self).cache(),
                old(self).prevote_counts(),
                final(self).prevote_counts(),
                half_votes(
                    unit@,
                    0,
                    0,
                    old(self).spec_height(),
                    old(self).spec_round(),
                    VoteType::Prevote,
                    half_value(old(self).state()),
                    old(self).spec_authorities(),
                ),
            ),
    {
        self.generate_half(unit, VoteType::Prevote, 0);
    }

    /// Emits the scripted precommits of the three non-proposer
    /// participants, with the same slot semantics as the prevote half.
    fn generate_precommit(&mut self, unit: &BftTestUnit)
        requires
            old(self).wf(),
            unit_ok(unit@),
            old(self).spec_authorities().len() >= 4,
        ensures
            final(self).wf(),
            final(self).state() == old(self).state(),
            final(self).spec_authorities() == old(self).spec_authorities(),
            cache_adds(
                old(self).cache(),
                final(self).cache(),
                old(self).prevote_counts(),
                final(self).prevote_counts(),
                half_votes(
                    unit@,
                    3,
                    0,
                    old(self).spec_height(),
                    old(self).spec_round(),
                    VoteType::Precommit,
                    half_value(old(self).state()),
                    old(self).spec_authorities(),
                ),
            ),
    {
        self.generate_half(unit, VoteType::Precommit, 3);
    }

    /// Emits one scripted ballot half, reading the three slots at `base`:
    /// exactly the synthesized votes of the half land in the cache, in slot
    /// order.
    fn generate_half(&mut self, unit: &BftTestUnit, vote_type: VoteType, base: usize)
        requires
            old(self).wf(),
            unit_ok(unit@),
            base == 0 || base == 3,
            old(self).spec_authorities().len() >= 4,
        ensures
            final(self).wf(),
            final(self).state() == old(self).state(),
            final(self).spec_authorities() == old(self).spec_authorities(),
            cache_adds(
                old(self).cache(),
                final(self).cache(),
                old(self).prevote_counts(),
                final(self).prevote_counts(),
                half_votes(
                    unit@,
                    base as int,
                    0,
                    old(self).spec_height(),
                    old(self).spec_round(),
                    vote_type,
                    half_value(old(self).state()),
                    old(self).spec_authorities(),
                ),
            ),
    {
        let ghost c0 = self.cache();
        let ghost pc0 = self.prevote_counts();
        let ghost auths = self.spec_authorities();
        let value = match &self.lock_proposal {
            Some(locked) => copy_bytes(locked),
            None => copy_bytes(&self.proposal),
        };
        let ghost hv = half_votes(
            unit@,
            base as int,
            0,
            self.spec_height(),
            self.spec_round(),
            vote_type,
            value@,
            auths,
        );
        proof {
            assert(value@ == half_value(old(self).state()));
        }
        let ghost mut emitted: Seq<crate::whitebox::VoteModel> = Seq::empty();
        let mut i: usize = 0;
        while i < 3
            invariant
                i <= 3,
                base == 0 || base == 3,
                unit_ok(unit@),
                self.wf(),
                self.state() == old(self).state(),
                self.spec_authorities() == old(self).spec_authorities(),
                self.spec_authorities().len() >= 4,
                auths == self.spec_authorities(),
                c0 == old(self).cache(),
                pc0 == old(self).prevote_counts(),
                value@ == half_value(old(self).state()),
                hv == half_votes(
                    unit@,
                    base as int,
                    0,
                    old(self).spec_height(),
                    old(self).spec_round(),
                    vote_type,
                    value@,
                    auths,
                ),
                cache_adds(c0, self.cache(), pc0, self.prevote_counts(), emitted),
                emitted + half_votes(
                    unit@,
                    base as int,
                    i as int,
                    old(self).spec_height(),
                    old(self).spec_round(),
                    vote_type,
                    value@,
                    auths,
                ) == hv,
            decreases 3 - i,
        {
            let ghost suffix = half_votes(
                unit@,
                base as int,
                i as int,
                old(self).spec_height(),
                old(self).spec_round(),
                vote_type,
                value@,
                auths,
            );
            let slot = *vstd::array::array_index_get(unit, base + i);
            if slot == NORMAL {
                let vote = Vote {
                    height: self.height,
                    round: self.round,
                    vote_type,
                    proposal: copy_bytes(&value),
                    voter: copy_bytes(&self.authority_list[i + 1]),
                };
                let ghost vm = vote.model();
                let ghost cm = self.cache();
                let ghost pcm = self.prevote_counts();
                self.function.send(FrameSend::Vote(vote.duplicate()));
                let added = self.vote_cache.add(vote);
                proof {
                    lemma_cache_adds_snoc(
                        c0,
                        cm,
                        self.cache(),
                        pc0,
                        pcm,
                        self.prevote_counts(),
                        emitted,
                        vm,
                        added,
                    );
                    assert(suffix =~= seq![vm] + half_votes(
                        unit@,
                        base as int,
                        i + 1,
                        old(self).spec_height(),
                        old(self).spec_round(),
                        vote_type,
                        value@,
                        auths,
                    ));
                    emitted = emitted.push(vm);
                    assert(emitted + half_votes(
                        unit@,
                        base as int,
                        i + 1,
                        old(self).spec_height(),
                        old(self).spec_round(),
                        vote_type,
                        value@,
                        auths,
                    ) =~= hv);
                }
            } else if slot == BYZANTINE {
                proof {
                    assert(self.byzantine@.len() == self.spec_byzantine().len());
                    assert(self.spec_byzantine().len() == byz_spec().len());
                    assert(self.byzantine@[i as int]@ == byz_spec()[i as int]);
                }
                let vote = Vote {
                    height: self.height,
                    round: self.round,
                    vote_type,
                    proposal: copy_bytes(&self.byzantine[i]),
                    voter: copy_bytes(&self.authority_list[i + 1]),
                };
                let ghost vm = vote.model();
                let ghost cm = self.cache();
                let ghost pcm = self.prevote_counts();
                self.function.send(FrameSend::Vote(vote.duplicate()));
                let added = self.vote_cache.add(vote);
                proof {
                    lemma_cache_adds_snoc(
                        c0,
                        cm,
                        self.cache(),
                        pc0,
                        pcm,
                        self.prevote_counts(),
                        emitted,
                        vm,
                        added,
                    );
                    assert(suffix =~= seq![vm] + half_votes(
                        unit@,
                        base as int,
                        i + 1,
                        old(self).spec_height(),
                        old(self).spec_round(),
                        vote_type,
                        value@,
                        auths,
                    ));
                    emitted = emitted.push(vm);
                    assert(emitted + half_votes(
                        unit@,
                        base as int,
                        i + 1,
                        old(self).spec_height(),
                        old(self).spec_round(),
                        vote_type,
                        value@,
                        auths,
                    ) =~= hv);
                }
            } else {
                proof {
                    assert(suffix =~= Seq::empty());
                    assert(emitted =~= hv);
                }
                return ;
            }
            i = i + 1;
        }
        proof {
            assert(half_votes(
                unit@,
                base as int,
                3,
                old(self).spec_height(),
                old(self).spec_round(),
                vote_type,
                value@,
                auths,
            ) =~= Seq::empty());
            assert(emitted =~= hv);
        }
    }

    /// Blocks on one message from the node and screens it: a proposal where
    /// a vote was awaited is abnormal, and a vote is illegal unless its
    /// step matches the expected one and its value avoids the denylist. A
    /// screened vote is recorded in the cache.
    fn handle_vote(&mut self, vote_type: VoteType) -> (r: BftResult<Vote>)
        requires
            old(self).wf(),
        ensures
            final(self).wf(),
            final(self).state() == old(self).state(),
            final(self).spec_authorities() == old(self).spec_authorities(),
            match r {
                Result::Ok(v) => v.vote_type == vote_type && !byz_spec().contains(v.proposal@)
                    && exists|added: bool|
                    #[trigger] cache_add_rel(
                        old(self).cache(),
                        final(self).cache(),
                        v.height,
                        v.round,
                        v.vote_type,
                        v.voter@,
                        v.proposal@,
                        added,
                    ) && final(self).prevote_counts() == counts_after(
                        old(self).prevote_counts(),
                        v.vote_type,
                        v.round,
                        added,
                    ),
                Result::Err(e) => final(self).cache() == old(self).cache() && final(self).prevote_counts() == old(self).prevote_counts() && match e {
                    BftError::AbnormalProposal(p) => true,
                    BftError::IllegalVote(v) => v.vote_type != vote_type || byz_spec().contains(
                        v.proposal@,
                    ),
                    _ => false,
                },
            },
    {
        let vote = match self.function.recv() {
            FrameRecv::Proposal(p) => {
                return Result::Err(BftError::AbnormalProposal(p));
            },
            FrameRecv::Vote(v) => v,
        };
        let type_matches = match (vote.vote_type, vote_type) {
            (VoteType::Prevote, VoteType::Prevote) => true,
            (VoteType::Precommit, VoteType::Precommit) => true,
            _ => false,
        };
        let denylisted = contains_bytes(&self.byzantine, &vote.proposal);
        proof {
            assert(Seq::new(self.byzantine@.len(), |i: int| self.byzantine@[i]@) == byz_spec());
            if spec_contains_bytes(self.byzantine@, vote.proposal@) {
                let j = choose|j: int|
                    0 <= j < self.byzantine@.len() && self.byzantine@[j]@ == vote.proposal@;
                assert(byz_spec()[j] == vote.proposal@);
            }
            if byz_spec().contains(vote.proposal@) {
                let j = choose|j: int| 0 <= j < byz_spec().len() && byz_spec()[j] == vote.proposal@;
                assert(self.byzantine@[j]@ == vote.proposal@);
                assert(spec_contains_bytes(self.byzantine@, vote.proposal@));
            }
        }
        if !type_matches || denylisted {
            return Result::Err(BftError::IllegalVote(vote));
        }
        let kept = vote.duplicate();
        let added_flag = self.vote_cache.add(kept);
        proof {
            assert(cache_add_rel(
                old(self).cache(),
                self.cache(),
                vote.height,
                vote.round,
                vote.vote_type,
                vote.voter@,
                vote.proposal@,
                added_flag,
            ));
            assert(self.prevote_counts() == counts_after(
                old(self).prevote_counts(),
                vote.vote_type,
                vote.round,
                added_flag,
            ));
        }
        Result::Ok(vote)
    }

    /// Applies the prevote quorum outcome of one vote set: every tally
    /// above the supermajority threshold sets the lock to its value, or
    /// clears the lock where the value is nil; the last one wins. Returns
    /// whether any tally reached quorum.
    fn apply_prevote_quorum(&mut self, prevote_set: &VoteSet) -> (any: bool)
        requires
            old(self).wf(),
            prevote_set.wf(),
        ensures
            final(self).wf(),
            final(self).spec_authorities() == old(self).spec_authorities(),
            final(self).cache() == old(self).cache(),
            final(self).prevote_counts() == old(self).prevote_counts(),
            final(self).spec_height() == old(self).spec_height(),
            final(self).spec_round() == old(self).spec_round(),
            ({
                let n = old(self).spec_authorities().len();
                let t = prevote_set.model().tallies;
                &&& any == (last_quorum(t, n) is Some)
                &&& match last_quorum(t, n) {
                    None => final(self).state() == old(self).state(),
                    Some(v) => if v.len() > 0 {
                        final(self).state() == polc_set(old(self).state(), v)
                    } else {
                        final(self).state() == polc_cleared(old(self).state())
                    },
                }
            }),
    {
        let ghost t = prevote_set.model().tallies;
        let ghost n = old(self).spec_authorities().len();
        let mut any = false;
        let mut k: usize = 0;
        let len = prevote_set.tally_len();
        while k < len
            invariant
                k <= len,
                len == t.len(),
                t == prevote_set.model().tallies,
                prevote_set.wf(),
                n == old(self).spec_authorities().len(),
                self.wf(),
                self.spec_authorities() == old(self).spec_authorities(),
                self.cache() == old(self).cache(),
                self.prevote_counts() == old(self).prevote_counts(),
                self.spec_height() == old(self).spec_height(),
                self.spec_round() == old(self).spec_round(),
                any == (last_quorum(t.take(k as int), n) is Some),
                match last_quorum(t.take(k as int), n) {
                    None => self.state() == old(self).state(),
                    Some(v) => if v.len() > 0 {
                        self.state() == polc_set(old(self).state(), v)
                    } else {
                        self.state() == polc_cleared(old(self).state())
                    },
                },
            decreases len - k,
        {
            proof {
                assert(t.take(k + 1).drop_last() =~= t.take(k as int));
                assert(t.take(k + 1).last() == t[k as int]);
            }
            let count = prevote_set.tally_count(k);
            if self.is_above_threshold(count).is_ok() {
                any = true;
                let value = prevote_set.tally_value(k);
                if value.len() > 0 {
                    let v = copy_bytes(value);
                    self.set_polc(v);
                } else {
                    proof {
                        assert(t[k as int].0 =~= Seq::<u8>::empty());
                    }
                    self.clean_polc();
                }
            }
            k = k + 1;
        }
        proof {
            assert(t.take(len as int) =~= t);
        }
        any
    }

    /// Receives the node's prevote and evaluates the prevote quorum for the
    /// current (height, round): a quorum value is adopted and locked, a nil
    /// quorum clears the lock, an absent vote set is an illegal vote, and
    /// without any quorum the working proposal is cleared.
    fn check_prevote(&mut self) -> (r: BftResult<()>)
        requires
            old(self).wf(),
        ensures
            final(self).wf(),
            final(self).spec_authorities() == old(self).spec_authorities(),
            final(self).spec_height() == old(self).spec_height(),
            final(self).spec_round() == old(self).spec_round(),
            match r {
                Result::Ok(u) => cache_slot(
                    final(self).cache(),
                    old(self).spec_height(),
                    old(self).spec_round(),
                    VoteType::Prevote,
                ) matches Some(m) && (match last_quorum(
                    m.tallies,
                    old(self).spec_authorities().len(),
                ) {
                    None => final(self).state() == (ActState {
                        proposal: Seq::empty(),
                        ..old(self).state()
                    }),
                    Some(v) => if v.len() > 0 {
                        final(self).state() == polc_set(old(self).state(), v)
                    } else {
                        final(self).state() == polc_cleared(old(self).state())
                    },
                }),
                Result::Err(e) => e matches BftError::AbnormalProposal(_) || e
                    matches BftError::IllegalVote(_),
            },
    {
        let vote = match self.handle_vote(VoteType::Prevote) {
            Result::Ok(v) => v,
            Result::Err(e) => {
                return Result::Err(e);
            },
        };
        let set = self.vote_cache.get_voteset(self.height, self.round, VoteType::Prevote);
        match set {
            Some(prevote_set) => {
                let any = self.apply_prevote_quorum(&prevote_set);
                proof {
                    assert(cache_slot(
                        self.cache(),
                        self.spec_height(),
                        self.spec_round(),
                        VoteType::Prevote,
                    ) == Some(prevote_set.model()));
                }
                if !any {
                    self.proposal = Vec::new();
                }
                Result::Ok(())
            },
            None => Result::Err(BftError::IllegalVote(vote)),
        }
    }

    /// Receives the node's precommit and checks it against the prevote
    /// quorum of the current (height, round): the prevote step must itself
    /// satisfy quorum, every quorum value must equal the precommit's value,
    /// and at least three corroborating prevotes must back it.
    fn check_precommit(&mut self) -> (r: BftResult<()>)
        requires
            old(self).wf(),
        ensures
            final(self).wf(),
            final(self).state() == old(self).state(),
            final(self).spec_authorities() == old(self).spec_authorities(),
            match r {
                Result::Ok(u) => cache_slot(
                    final(self).cache(),
                    old(self).spec_height(),
                    old(self).spec_round(),
                    VoteType::Prevote,
                ) matches Some(m) && 3 * m.senders.len() > 2 * old(self).spec_authorities().len()
                    && exists|v: Seq<u8>|
                    !byz_spec().contains(v) && #[trigger] precommit_scan(
                        m.tallies,
                        old(self).spec_authorities().len(),
                        v,
                        count_for(m.senders, v),
                    ) is None,
                Result::Err(e) => (e matches BftError::ShouldNotPrecommit(hh, rr) ==> hh == old(
                    self,
                ).spec_height() && rr == old(self).spec_round() && (cache_slot(
                    final(self).cache(),
                    old(self).spec_height(),
                    old(self).spec_round(),
                    VoteType::Prevote,
                ) matches Some(m) && !(3 * m.senders.len() > 2 * old(
                    self,
                ).spec_authorities().len()))) && (e matches BftError::AbnormalProposal(_) || e
                    matches BftError::IllegalVote(_) || e matches BftError::ShouldNotPrecommit(_, _)
                    || e matches BftError::PrecommitErr(_, _) || e
                    matches BftError::PrecommitDiffPoLC(_)),
            },
    {
        let vote = match self.handle_vote(VoteType::Precommit) {
            Result::Ok(v) => v,
            Result::Err(e) => {
                return Result::Err(e);
            },
        };
        let set = self.vote_cache.get_voteset(self.height, self.round, VoteType::Prevote);
        match set {
            Some(prevote_set) => {
                proof {
                    assert(cache_slot(
                        self.cache(),
                        self.spec_height(),
                        self.spec_round(),
                        VoteType::Prevote,
                    ) == Some(prevote_set.model()));
                }
                let total = prevote_set.get_count();
                match self.is_above_threshold(total) {
                    Result::Err(e) => {
                        return Result::Err(e);
                    },
                    Result::Ok(u) => {},
                }
                let polc = prevote_set.extract_polc(
                    self.height,
                    self.round,
                    VoteType::Prevote,
                    &vote.proposal,
                );
                let polc_len = polc.len();
                proof {
                    crate::collection::vote_cache::lemma_voters_count(
                        prevote_set.model().senders,
                        vote.proposal@,
                    );
                }
                let ghost t = prevote_set.model().tallies;
                let ghost n = self.spec_authorities().len();
                let mut k: usize = 0;
                let len = prevote_set.tally_len();
                while k < len
                    invariant
                        k <= len,
                        len == t.len(),
                        t == prevote_set.model().tallies,
                        prevote_set.wf(),
                        self.wf(),
                        self.state() == old(self).state(),
                        self.spec_authorities() == old(self).spec_authorities(),
                        n == self.spec_authorities().len(),
                        3 * prevote_set.model().senders.len() > 2 * n,
                        polc_len == count_for(prevote_set.model().senders, vote.proposal@),
                        !byz_spec().contains(vote.proposal@),
                        cache_slot(
                            self.cache(),
                            self.spec_height(),
                            self.spec_round(),
                            VoteType::Prevote,
                        ) == Some(prevote_set.model()),
                        forall|j: int| 0 <= j < k ==> !(3 * t[j].1 > 2 * n) || (t[j].0
                            == vote.proposal@ && polc_len >= 3),
                    decreases len - k,
                {
                    let count = prevote_set.tally_count(k);
                    if self.is_above_threshold(count).is_ok() {
                        let value = prevote_set.tally_value(k);
                        if !bytes_eq(value, &vote.proposal) {
                            return Result::Err(
                                BftError::PrecommitErr(self.height, self.round),
                            );
                        }
                        if polc_len < 3 {
                            return Result::Err(BftError::PrecommitDiffPoLC(vote));
                        }
                    }
                    k = k + 1;
                }
                proof {
                    lemma_scan_clear(t, n, vote.proposal@, polc_len as nat);
                    let m = prevote_set.model();
                    let n0 = old(self).spec_authorities().len();
                    assert(precommit_scan(m.tallies, n0, vote.proposal@, count_for(
                        m.senders,
                        vote.proposal@,
                    )) is None);
                    assert(exists|v: Seq<u8>|
                        !byz_spec().contains(v) && #[trigger] precommit_scan(
                            m.tallies,
                            n0,
                            v,
                            count_for(m.senders, v),
                        ) is None);
                }
                Result::Ok(())
            },
            None => Result::Err(BftError::IllegalVote(vote)),
        }
    }

    /// Checks a polled commit against the working proposal.
    fn check_commit(&self, commit: &Commit) -> (r: BftResult<()>)
        ensures
            r is Ok <==> commit.result@ == self.spec_proposal(),
            r is Err ==> r == BftResult::<()>::Err(BftError::CommitIncorrect(self.spec_height())),
    {
        if !bytes_eq(&commit.result, &self.proposal) {
            return Result::Err(BftError::CommitIncorrect(self.height));
        }
        Result::Ok(())
    }

    /// Broadcasts the initial height announcement to the node.
    fn init(&mut self)
        requires
            old(self).wf(),
        ensures
            final(self).wf(),
            final(self).state() == old(self).state(),
            final(self).spec_authorities() == old(self).spec_authorities(),
            final(self).cache() == old(self).cache(),
            final(self).prevote_counts() == old(self).prevote_counts(),
    {
        let status = self.generate_status();
        self.function.send(FrameSend::Status(status));
    }

    /// Polls the node for a commit; a present commit must equal the working
    /// proposal, and on success the height advances after a fresh status
    /// broadcast. Absence means "not yet committed" and changes nothing.
    fn handle_should_commit(&mut self) -> (r: BftResult<()>)
        requires
            old(self).wf(),
            old(self).spec_height() < u64::MAX,
        ensures
            final(self).wf(),
            final(self).spec_authorities() == old(self).spec_authorities(),
            final(self).cache() == old(self).cache(),
            match r {
                Result::Ok(u) => (final(self).state() == old(self).state() && final(self).prevote_counts() == old(self).prevote_counts()) || (final(self).state()
                    == height_advanced(old(self).state()) && final(self).prevote_counts()
                    =~= Map::empty()),
                Result::Err(e) => e == BftError::CommitIncorrect(old(self).spec_height()) && final(self).state() == old(self).state() && final(self).prevote_counts() == old(self).prevote_counts(),
            },
    {
        match self.function.try_get_commit() {
            Some(commit) => {
                match self.check_commit(&commit) {
                    Result::Err(e) => {
                        return Result::Err(e);
                    },
                    Result::Ok(u) => {},
                }
                let status = self.generate_status();
                self.function.send(FrameSend::Status(status));
                self.goto_next_height();
                Result::Ok(())
            },
            None => Result::Ok(()),
        }
    }

    /// Forces the lock to the current working proposal; a commit observed
    /// here is invalid, and otherwise the round advances.
    fn handle_no_commit_but_lock(&mut self) -> (r: BftResult<()>)
        requires
            old(self).wf(),
            old(self).spec_round() < u64::MAX,
        ensures
            final(self).wf(),
            final(self).spec_authorities() == old(self).spec_authorities(),
            final(self).cache() == old(self).cache(),
            final(self).prevote_counts() == old(self).prevote_counts(),
            match r {
                Result::Ok(u) => final(self).state() == round_advanced(
                    lock_forced(old(self).state()),
                ),
                Result::Err(e) => e == BftError::CommitInvalid(old(self).spec_height()) && final(self).state() == lock_forced(old(self).state()),
            },
    {
        let held = copy_bytes(&self.proposal);
        self.lock_proposal = Some(held);
        self.lock_round = Some(self.round);
        if self.function.try_get_commit().is_some() {
            let held_again = copy_bytes(&self.proposal);
            self.lock_proposal = Some(held_again);
            return Result::Err(BftError::CommitInvalid(self.height));
        }
        self.goto_next_round();
        Result::Ok(())
    }

    /// A commit observed here is invalid; otherwise the round advances.
    fn handle_no_commit_no_lock(&mut self) -> (r: BftResult<()>)
        requires
            old(self).wf(),
            old(self).spec_round() < u64::MAX,
        ensures
            final(self).wf(),
            final(self).spec_authorities() == old(self).spec_authorities(),
            final(self).cache() == old(self).cache(),
            final(self).prevote_counts() == old(self).prevote_counts(),
            match r {
                Result::Ok(u) => final(self).state() == round_advanced(old(self).state()),
                Result::Err(e) => e == BftError::CommitInvalid(old(self).spec_height()) && final(self).state() == old(self).state(),
            },
    {
        if self.function.try_get_commit().is_some() {
            return Result::Err(BftError::CommitInvalid(self.height));
        }
        self.goto_next_round();
        Result::Ok(())
    }

    /// Runs one ballot unit: the proposer's feed or proposal is
    /// synthesized and sent, then the scripted prevotes and the quorum
    /// check, then the scripted precommits and the precommit check.
    fn proc_ballot(&mut self, unit: &BftTestUnit) -> (r: BftResult<()>)
        requires
            old(self).wf(),
            unit_ok(unit@),
            old(self).spec_authorities().len() >= 4,
        ensures
            final(self).wf(),
            final(self).spec_authorities() == old(self).spec_authorities(),
            final(self).spec_height() == old(self).spec_height(),
            final(self).spec_round() == old(self).spec_round(),
            ballot_rel(
                old(self).config(),
                final(self).config(),
                unit@,
                old(self).spec_authorities(),
                r,
            ),
    {
        let ghost c0 = self.config();
        let ghost auths = self.spec_authorities();
        let proposer = self.function.cal_proposer(self.height, self.round);
        if proposer == 0 {
            let feed = self.generate_feed();
            let adopted = copy_bytes(&feed.proposal);
            self.proposal = adopted;
            proof {
                assert(feed.proposal@.len() == 6 && !byz_spec().contains(feed.proposal@)
                    && self.config().state == (ActState { proposal: feed.proposal@, ..c0.state }));
                assert(propose_ok_rel(c0, self.config()));
            }
            self.function.send(FrameSend::Feed(feed));
        } else if proposer < self.authority_list.len() {
            let lock_round = self.lock_round;
            let proposal = self.generate_proposal(proposer, lock_round, Vec::new());
            proof {
                if c0.state.lock_proposal is Some {
                    assert(self.config().state == (ActState {
                        proposal: c0.state.lock_proposal.unwrap(),
                        ..c0.state
                    }));
                } else {
                    assert(proposal.content@.len() == 6 && !byz_spec().contains(proposal.content@)
                        && self.config().state == (ActState {
                        proposal: proposal.content@,
                        ..c0.state
                    }));
                }
                assert(propose_ok_rel(c0, self.config()));
            }
            self.function.send(FrameSend::Proposal(proposal));
        } else {
            proof {
                assert(ballot_rel(c0, self.config(), unit@, auths, BftResult::<()>::Err(
                    BftError::ProposerBeyondList(c0.state.height, c0.state.round),
                )));
            }
            return Result::Err(BftError::ProposerBeyondList(self.height, self.round));
        }
        let ghost cp = self.config();
        self.generate_prevote(unit);
        let ghost ca = self.config();
        proof {
            assert(prevote_half_rel(cp, ca, unit@, auths));
        }
        match self.check_prevote() {
            Result::Err(e) => {
                proof {
                    assert(prevote_check_rel(ca, self.config(), BftResult::<()>::Err(e), auths.len()));
                    assert(ballot_rel(c0, self.config(), unit@, auths, BftResult::<()>::Err(e)));
                }
                return Result::Err(e);
            },
            Result::Ok(u) => {},
        }
        let ghost cb = self.config();
        proof {
            assert(prevote_check_rel(ca, cb, BftResult::<()>::Ok(()), auths.len()));
        }
        self.generate_precommit(unit);
        let ghost cd = self.config();
        proof {
            assert(precommit_half_rel(cb, cd, unit@, auths));
        }
        match self.check_precommit() {
            Result::Err(e) => {
                proof {
                    assert(precommit_check_rel(cd, self.config(), BftResult::<()>::Err(e), auths.len()));
                    assert(ballot_rel(c0, self.config(), unit@, auths, BftResult::<()>::Err(e)));
                }
                return Result::Err(e);
            },
            Result::Ok(u) => {},
        }
        proof {
            assert(precommit_check_rel(cd, self.config(), BftResult::<()>::Ok(()), auths.len()));
            assert(ballot_rel(c0, self.config(), unit@, auths, BftResult::<()>::Ok(())));
        }
        Result::Ok(())
    }

    /// Consumes one scripted unit at a time: the whole run is related to
    /// the starting configuration by one script step per unit, each step
    /// shaped by its unit's kind, and the first protocol violation halts
    /// the script, surfaces that error and freezes the configuration the
    /// failing unit left. An empty script succeeds and changes nothing, and
    /// the height never moves backwards.
    pub fn proc_test(&mut self, cases: BftTest) -> (r: BftResult<()>)
        requires
            old(self).wf(),
            old(self).spec_authorities().len() >= 4,
            old(self).spec_height() + old(self).spec_round() + cases@.len() < u64::MAX,
            forall|i: int|
                0 <= i < cases@.len() ==> unit_ok(#[trigger] cases@[i]@) || cases@[i]@
                    == unit_filled(7) || cases@[i]@ == unit_filled(8) || cases@[i]@ == unit_filled(
                    9,
                ) || cases@[i]@ == NO_COMMIT_BUT_LOCK@,
        ensures
            final(self).wf(),
            final(self).spec_authorities() == old(self).spec_authorities(),
            final(self).spec_height() >= old(self).spec_height(),
            script_rel(
                old(self).config(),
                final(self).config(),
                Seq::new(cases@.len(), |i: int| cases@[i]@),
                old(self).spec_authorities(),
                r,
            ),
            cases@.len() == 0 ==> r is Ok && final(self).config() == old(self).config(),
    {
        let ghost c0 = self.config();
        let ghost auths = self.spec_authorities();
        let ghost units = Seq::new(cases@.len(), |i: int| cases@[i]@);
        self.init();
        let mut idx: usize = 0;
        let n = cases.len();
        while idx < n
            invariant
                idx <= n,
                n == cases@.len(),
                self.wf(),
                self.spec_authorities() == old(self).spec_authorities(),
                self.spec_authorities().len() >= 4,
                self.spec_height() >= old(self).spec_height(),
                self.spec_height() + self.spec_round() <= old(self).spec_height() + old(self).spec_round() + idx,
                old(self).spec_height() + old(self).spec_round() + n < u64::MAX,
                c0 == old(self).config(),
                auths == old(self).spec_authorities(),
                units == Seq::new(cases@.len(), |i: int| cases@[i]@),
                script_rel(
                    c0,
                    self.config(),
                    units.subrange(0, idx as int),
                    auths,
                    BftResult::<()>::Ok(()),
                ),
                forall|i: int|
                    0 <= i < cases@.len() ==> unit_ok(#[trigger] cases@[i]@) || cases@[i]@
                        == unit_filled(7) || cases@[i]@ == unit_filled(8) || cases@[i]@
                        == unit_filled(9) || cases@[i]@ == NO_COMMIT_BUT_LOCK@,
            decreases n - idx,
        {
            let ghost cm = self.config();
            let ghost u = units[idx as int];
            let ghost prefix = units.subrange(0, idx as int);
            let ghost rest = units.subrange(idx + 1, n as int);
            proof {
                assert(SHOULD_COMMIT@ =~= unit_filled(8));
                assert(NULL_ROUND@ =~= unit_filled(7));
                assert(NO_COMMIT_NO_LOCK@ =~= unit_filled(9));
            }
            let case: BftTestUnit = cases[idx];
            if unit_eq(&case, &SHOULD_COMMIT) {
                match self.handle_should_commit() {
                    Result::Err(e) => {
                        proof {
                            assert(unit_rel(cm, self.config(), u, auths, BftResult::<()>::Err(e)));
                            lemma_script_fail(c0, cm, self.config(), prefix, u, rest, auths, e);
                            assert(units =~= prefix + seq![u] + rest);
                        }
                        return Result::Err(e);
                    },
                    Result::Ok(uu) => {
                        proof {
                            assert(unit_rel(cm, self.config(), u, auths, BftResult::<()>::Ok(())));
                        }
                    },
                }
            } else if unit_eq(&case, &NULL_ROUND) {
                self.goto_next_round();
                proof {
                    assert(unit_rel(cm, self.config(), u, auths, BftResult::<()>::Ok(())));
                }
            } else if unit_eq(&case, &NO_COMMIT_BUT_LOCK) {
                match self.handle_no_commit_but_lock() {
                    Result::Err(e) => {
                        proof {
                            assert(unit_rel(cm, self.config(), u, auths, BftResult::<()>::Err(e)));
                            lemma_script_fail(c0, cm, self.config(), prefix, u, rest, auths, e);
                            assert(units =~= prefix + seq![u] + rest);
                        }
                        return Result::Err(e);
                    },
                    Result::Ok(uu) => {
                        proof {
                            assert(unit_rel(cm, self.config(), u, auths, BftResult::<()>::Ok(())));
                        }
                    },
                }
            } else if unit_eq(&case, &NO_COMMIT_NO_LOCK) {
                match self.handle_no_commit_no_lock() {
                    Result::Err(e) => {
                        proof {
                            assert(unit_rel(cm, self.config(), u, auths, BftResult::<()>::Err(e)));
                            lemma_script_fail(c0, cm, self.config(), prefix, u, rest, auths, e);
                            assert(units =~= prefix + seq![u] + rest);
                        }
                        return Result::Err(e);
                    },
                    Result::Ok(uu) => {
                        proof {
                            assert(unit_rel(cm, self.config(), u, auths, BftResult::<()>::Ok(())));
                        }
                    },
                }
            } else {
                proof {
                    assert(unit_ok(cases@[idx as int]@));
                }
                match self.proc_ballot(&case) {
                    Result::Err(e) => {
                        proof {
                            assert(unit_rel(cm, self.config(), u, auths, BftResult::<()>::Err(e)));
                            lemma_script_fail(c0, cm, self.config(), prefix, u, rest, auths, e);
                            assert(units =~= prefix + seq![u] + rest);
                        }
                        return Result::Err(e);
                    },
                    Result::Ok(uu) => {
                        proof {
                            assert(unit_rel(cm, self.config(), u, auths, BftResult::<()>::Ok(())));
                        }
                    },
                }
            }
            proof {
                lemma_script_snoc_ok(c0, cm, self.config(), prefix, u, auths);
                assert(units.subrange(0, idx + 1) =~= prefix.push(u));
            }
            idx = idx + 1;
        }
        proof {
            assert(units.subrange(0, n as int) =~= units);
        }
        Result::Ok(())
    }

    /// Signals the node to terminate.
    pub fn stop(&self) {
        self.function.stop()
    }
}

/// Tallies without a faulting quorum entry pass the precommit scan.
proof fn lemma_scan_clear(t: Seq<(Seq<u8>, usize)>, n: nat, val: Seq<u8>, polc: nat)
    requires
        forall|j: int| 0 <= j < t.len() ==> !(3 * t[j].1 > 2 * n) || (t[j].0 == val && polc >= 3),
    ensures
        precommit_scan(t, n, val, polc) is None,
    decreases t.len(),
{
    if t.len() > 0 {
        let rest = t.subrange(1, t.len() as int);
        assert(forall|j: int| 0 <= j < rest.len() ==> rest[j] == t[j + 1]);
        lemma_scan_clear(rest, n, val, polc);
    }
}

/// A script of only null-round units always goes through: every unit only
/// advances the round, so the script ends without error, the height, the
/// lock, the cached votes and the prevote counters are exactly what they
/// were, the round advanced once per unit, and after at least one unit the
/// working proposal is the locked value, or cleared where no lock is held.
pub proof fn lemma_null_rounds_only(
    c0: ActConfig,
    c1: ActConfig,
    units: Seq<Seq<u8>>,
    auths: Seq<Seq<u8>>,
    r: BftResult<()>,
)
    requires
        script_rel(c0, c1, units, auths, r),
        forall|i: int| 0 <= i < units.len() ==> units[i] == unit_filled(7),
        c0.state.round + units.len() <= u64::MAX,
    ensures
        r is Ok,
        c1.cache == c0.cache,
        c1.counts == c0.counts,
        c1.state.height == c0.state.height,
        c1.state.lock_round == c0.state.lock_round,
        c1.state.lock_proposal == c0.state.lock_proposal,
        c1.state.round == c0.state.round + units.len(),
        units.len() > 0 ==> c1.state.proposal == (if c0.state.lock_round is Some {
            c0.state.lock_proposal.unwrap()
        } else {
            Seq::<u8>::empty()
        }),
    decreases units.len(),
{
    if units.len() > 0 {
        let w = choose|cm: ActConfig, ru: BftResult<()>|
            #![trigger unit_rel(c0, cm, units[0], auths, ru)]
            unit_rel(c0, cm, units[0], auths, ru) && match ru {
                Result::Ok(u) => script_rel(cm, c1, units.subrange(1, units.len() as int), auths, r),
                Result::Err(e) => r == BftResult::<()>::Err(e) && c1 == cm,
            };
        assert(units[0] == unit_filled(7));
        assert(null_round_rel(c0, w.0, w.1));
        let rest = units.subrange(1, units.len() as int);
        assert(forall|i: int| 0 <= i < rest.len() ==> rest[i] == unit_filled(7));
        lemma_null_rounds_only(w.0, c1, rest, auths, r);
        if rest.len() == 0 {
            assert(c1 == w.0);
        }
    }
}

/// The lock forced by a no-commit-but-lock sentinel carries the working
/// proposal into the next round: after the sentinel the lock holds exactly
/// the value that was the working proposal, the next round's working
/// proposal is that same value, and so is the value every normal slot votes
/// for. Together with the proposal-synthesis contract, whose held-lock case
/// pins the synthesized content to the locked value, the next round's
/// proposal carries the previously locked value rather than a freshly
/// drawn one.
pub proof fn lemma_lock_carried(s0: ActState, s1: ActState)
    requires
        s1 == round_advanced(lock_forced(s0)),
    ensures
        s1.lock_round == Some(s0.round),
        s1.lock_proposal == Some(s0.proposal),
        s1.proposal == s0.proposal,
        half_value(s1) == s0.proposal,
{
}

} // verus!
