//! Vote collection: per (height, round, step) each voter's chosen value,
//! with a tally per distinct value, nested in bounded windows of rounds and
//! heights.

use vstd::prelude::*;

verus! {

use crate::bytes::{bytes_eq, copy_bytes};
use crate::lru::{
    bounded_insert, lru_capacity, lru_consistent, lru_contents, lru_get, lru_insert, lru_len,
    lru_new, lru_order, lru_pop_lru, promoted,
};
use vstd::pervasive::VecAdditionalExecFns;
use crate::whitebox::{Address, Vote, VoteType};
use lru_cache::LruCache;
use std::collections::HashMap;

broadcast use vstd::std_specs::hash::group_hash_axioms;

/// Mathematical content of a [`VoteSet`]: the voters in insertion order with
/// their chosen values, and the per-value tallies in first-vote order.
pub ghost struct VoteSetModel {
    /// Each voter with the value it chose, in insertion order.
    pub senders: Seq<(Seq<u8>, Seq<u8>)>,
    /// Each distinct value with its count, in first-vote order.
    pub tallies: Seq<(Seq<u8>, usize)>,
}

/// How many recorded votes chose `val`.
pub open spec fn count_for(s: Seq<(Seq<u8>, Seq<u8>)>, val: Seq<u8>) -> nat
    decreases s.len(),
{
    if s.len() == 0 {
        0
    } else {
        count_for(s.drop_last(), val) + (if s.last().1 == val {
            1nat
        } else {
            0nat
        })
    }
}

/// True exactly when `sender` already voted in `s`.
pub open spec fn has_sender(s: Seq<(Seq<u8>, Seq<u8>)>, sender: Seq<u8>) -> bool {
    exists|i: int| 0 <= i < s.len() && s[i].0 == sender
}

/// True exactly when the tally list holds an entry for `val`.
pub open spec fn has_tally(t: Seq<(Seq<u8>, usize)>, val: Seq<u8>) -> bool {
    exists|k: int| 0 <= k < t.len() && t[k].0 == val
}

/// The tally list after one more vote for `val`: the first entry for `val` is
/// bumped, or a fresh entry is appended.
pub open spec fn bump_tally(t: Seq<(Seq<u8>, usize)>, val: Seq<u8>) -> Seq<(Seq<u8>, usize)>
    decreases t.len(),
{
    if t.len() == 0 {
        seq![(val, 1usize)]
    } else if t[0].0 == val {
        t.update(0, (val, (t[0].1 + 1) as usize))
    } else {
        seq![t[0]] + bump_tally(t.subrange(1, t.len() as int), val)
    }
}

/// The model after recording a fresh vote.
pub open spec fn vs_add_spec(m: VoteSetModel, sender: Seq<u8>, vote: Seq<u8>) -> VoteSetModel {
    VoteSetModel { senders: m.senders.push((sender, vote)), tallies: bump_tally(m.tallies, vote) }
}

/// Per (height, round, step): each voter's chosen value plus a tally per
/// distinct value and the running total. The first vote of a voter wins;
/// later votes from the same voter in the same slot are rejected.
pub struct VoteSet {
    votes_by_sender: Vec<(Vec<u8>, Vec<u8>)>,
    votes_by_proposal: Vec<(Vec<u8>, usize)>,
    count: usize,
}

impl VoteSet {
    /// The voters in insertion order with their chosen values.
    pub closed spec fn senders(&self) -> Seq<(Seq<u8>, Seq<u8>)> {
        Seq::new(self.votes_by_sender@.len(), |i: int| (self.votes_by_sender@[i].0@, self.votes_by_sender@[i].1@))
    }

    /// The per-value tallies in first-vote order.
    pub closed spec fn tallies(&self) -> Seq<(Seq<u8>, usize)> {
        Seq::new(self.votes_by_proposal@.len(), |i: int| (self.votes_by_proposal@[i].0@, self.votes_by_proposal@[i].1))
    }

    /// The whole mathematical content.
    pub open spec fn model(&self) -> VoteSetModel {
        VoteSetModel { senders: self.senders(), tallies: self.tallies() }
    }

    /// The running total.
    pub closed spec fn spec_count(&self) -> usize {
        self.count
    }

    /// Internal consistency: no voter is counted twice, every tally equals
    /// the number of votes for its value, tallies cover exactly the voted
    /// values, and the total equals the number of voters.
    pub open spec fn wf(&self) -> bool {
        let s = self.senders();
        let t = self.tallies();
        &&& self.spec_count() == s.len()
        &&& forall|i: int, j: int| 0 <= i < j < s.len() ==> s[i].0 != s[j].0
        &&& forall|k: int| 0 <= k < t.len() ==> t[k].1 == count_for(s, #[trigger] t[k].0)
        &&& forall|k: int, l: int| 0 <= k < l < t.len() ==> t[k].0 != t[l].0
        &&& forall|k: int| 0 <= k < t.len() ==> count_for(s, #[trigger] t[k].0) > 0
        &&& forall|i: int| 0 <= i < s.len() ==> has_tally(t, #[trigger] s[i].1)
    }

    /// An empty vote set.
    pub fn new() -> (r: VoteSet)
        ensures
            r.wf(),
            r.model().senders =~= Seq::empty(),
            r.model().tallies =~= Seq::empty(),
    {
        let r = VoteSet { votes_by_sender: Vec::new(), votes_by_proposal: Vec::new(), count: 0 };
        proof {
            assert(r.senders() =~= Seq::<(Seq<u8>, Seq<u8>)>::empty());
            assert(r.tallies() =~= Seq::<(Seq<u8>, usize)>::empty());
        }
        r
    }

    /// Records one vote, keyed by voter; returns false and changes nothing
    /// when the voter already voted in this slot.
    pub fn add(&mut self, sender: Address, vote: Vec<u8>) -> (r: bool)
        requires
            old(self).wf(),
        ensures
            final(self).wf(),
            r == !has_sender(old(self).model().senders, sender@),
            r ==> final(self).model() == vs_add_spec(old(self).model(), sender@, vote@),
            !r ==> final(self).model() == old(self).model(),
    {
        let ghost s0 = self.senders();
        let ghost t0 = self.tallies();
        let mut i: usize = 0;
        let n = self.votes_by_sender.len();
        while i < n
            invariant
                i <= n,
                n == self.votes_by_sender@.len(),
                forall|j: int| 0 <= j < i ==> self.senders()[j].0 != sender@,
                self.wf(),
                self.senders() == s0,
                self.tallies() == t0,
            decreases n - i,
        {
            if bytes_eq(&self.votes_by_sender[i].0, &sender) {
                proof {
                    assert(self.senders()[i as int].0 == sender@);
                    assert(has_sender(s0, sender@));
                    assert(self.model() == old(self).model());
                }
                return false;
            }
            i = i + 1;
        }
        proof {
            assert(!has_sender(s0, sender@));
        }
        let vote_copy = copy_bytes(&vote);
        self.votes_by_sender.push((sender, vote));
        self.count = self.votes_by_sender.len();
        let ghost s1 = self.senders();
        proof {
            assert(s1 =~= s0.push((sender@, vote_copy@)));
            lemma_count_push(s0, sender@, vote_copy@);
            lemma_count_le_len(s0);
        }
        let m = self.votes_by_proposal.len();
        let mut k: usize = 0;
        while k < m
            invariant
                k <= m,
                m == self.votes_by_proposal@.len(),
                forall|j: int| 0 <= j < k ==> self.tallies()[j].0 != vote_copy@,
                self.tallies() == t0,
                self.senders() == s1,
                self.count == self.votes_by_sender@.len(),
                vote_copy@ == s1.last().1,
                old(self).wf(),
                old(self).senders() == s0,
                old(self).tallies() == t0,
                !has_sender(s0, sender@),
                sender@ == s1.last().0,
                vote_copy@ == vote@,
                s1 == s0.push((sender@, vote_copy@)),
            decreases m - k,
        {
            if bytes_eq(&self.votes_by_proposal[k].0, &vote_copy) {
                proof {
                    assert(t0.len() == m);
                    assert(t0[k as int].0 == vote_copy@);
                    assert(t0[k as int].1 == count_for(s0, vote_copy@));
                    lemma_count_le_len(s0);
                    assert(count_for(s0, vote_copy@) <= s0.len());
                }
                let pair = self.votes_by_proposal.remove(k);
                let c = pair.1;
                self.votes_by_proposal.insert(k, (pair.0, c + 1));
                proof {
                    let t1 = self.tallies();
                    assert(t1 =~= t0.update(k as int, (vote_copy@, (c + 1) as usize)));
                    lemma_bump_found(t0, vote_copy@, k as int);
                    assert(t1 =~= bump_tally(t0, vote_copy@));
                    lemma_wf_after_add(s0, t0, sender@, vote_copy@);
                    assert(old(self).model() == VoteSetModel { senders: s0, tallies: t0 });
                    assert(self.senders() == s1);
                    assert(s1 == s0.push((sender@, vote@)));
                    assert(self.tallies() == bump_tally(t0, vote@));
                    assert(self.model() == vs_add_spec(old(self).model(), sender@, vote@));
                }
                return true;
            }
            k = k + 1;
        }
        self.votes_by_proposal.push((vote_copy, 1));
        proof {
            let t1 = self.tallies();
            assert(t1 =~= t0.push((s1.last().1, 1usize)));
            lemma_bump_missing(t0, s1.last().1);
            assert(t1 =~= bump_tally(t0, s1.last().1));
            lemma_wf_after_add(s0, t0, sender@, s1.last().1);
            assert(self.model() == vs_add_spec(old(self).model(), sender@, vote@));
        }
        true
    }

    /// The running total of recorded votes.
    pub fn get_count(&self) -> (r: usize)
        requires
            self.wf(),
        ensures
            r == self.model().senders.len(),
    {
        self.count
    }

    /// How many distinct values were voted.
    pub fn tally_len(&self) -> (r: usize)
        ensures
            r == self.model().tallies.len(),
    {
        self.votes_by_proposal.len()
    }

    /// The value of the tally entry at `k`.
    pub fn tally_value(&self, k: usize) -> (r: &Vec<u8>)
        requires
            k < self.model().tallies.len(),
        ensures
            r@ == self.model().tallies[k as int].0,
    {
        &self.votes_by_proposal[k].0
    }

    /// The count of the tally entry at `k`.
    pub fn tally_count(&self, k: usize) -> (r: usize)
        requires
            k < self.model().tallies.len(),
        ensures
            r == self.model().tallies[k as int].1,
    {
        self.votes_by_proposal[k].1
    }

    /// Returns every recorded (voter, vote) pair whose value equals
    /// `proposal`, rebuilt as votes for the given slot: the evidence set
    /// justifying adoption of that value.
    pub fn extract_polc(
        &self,
        height: u64,
        round: u64,
        vote_type: VoteType,
        proposal: &Vec<u8>,
    ) -> (r: Vec<Vote>)
        ensures
            r@.len() == voters_for(self.model().senders, proposal@).len(),
            forall|i: int|
                0 <= i < r@.len() ==> (#[trigger] r@[i]).height == height && r@[i].round == round
                    && r@[i].vote_type == vote_type && r@[i].proposal@ == proposal@
                    && r@[i].voter@ == voters_for(self.model().senders, proposal@)[i],
    {
        let ghost s = self.senders();
        let mut polc: Vec<Vote> = Vec::new();
        let mut i: usize = 0;
        let n = self.votes_by_sender.len();
        while i < n
            invariant
                i <= n,
                n == self.votes_by_sender@.len(),
                s == self.senders(),
                polc@.len() == voters_for(s.take(i as int), proposal@).len(),
                forall|j: int|
                    0 <= j < polc@.len() ==> (#[trigger] polc@[j]).height == height
                        && polc@[j].round == round && polc@[j].vote_type == vote_type
                        && polc@[j].proposal@ == proposal@ && polc@[j].voter@ == voters_for(
                        s.take(i as int),
                        proposal@,
                    )[j],
            decreases n - i,
        {
            proof {
                assert(s.take(i + 1).drop_last() =~= s.take(i as int));
                assert(s.take(i + 1).last() == s[i as int]);
            }
            if bytes_eq(&self.votes_by_sender[i].1, proposal) {
                let voter = copy_bytes(&self.votes_by_sender[i].0);
                let value = copy_bytes(proposal);
                polc.push(Vote { height, round, vote_type, proposal: value, voter });
            }
            i = i + 1;
        }
        proof {
            assert(s.take(n as int) =~= s);
        }
        polc
    }

    /// Rebuilds an equal vote set, element by element.
    pub fn duplicate(&self) -> (r: VoteSet)
        requires
            self.wf(),
        ensures
            r.wf(),
            r.model() == self.model(),
    {
        let mut senders: Vec<(Vec<u8>, Vec<u8>)> = Vec::new();
        let mut i: usize = 0;
        let n = self.votes_by_sender.len();
        while i < n
            invariant
                i <= n,
                n == self.votes_by_sender@.len(),
                senders@.len() == i,
                forall|j: int|
                    0 <= j < i ==> (#[trigger] senders@[j]).0@ == self.senders()[j].0
                        && senders@[j].1@ == self.senders()[j].1,
            decreases n - i,
        {
            let voter = copy_bytes(&self.votes_by_sender[i].0);
            let value = copy_bytes(&self.votes_by_sender[i].1);
            senders.push((voter, value));
            i = i + 1;
        }
        let mut tallies: Vec<(Vec<u8>, usize)> = Vec::new();
        let mut k: usize = 0;
        let m = self.votes_by_proposal.len();
        while k < m
            invariant
                k <= m,
                m == self.votes_by_proposal@.len(),
                tallies@.len() == k,
                forall|j: int|
                    0 <= j < k ==> (#[trigger] tallies@[j]).0@ == self.tallies()[j].0
                        && tallies@[j].1 == self.tallies()[j].1,
            decreases m - k,
        {
            let value = copy_bytes(&self.votes_by_proposal[k].0);
            tallies.push((value, self.votes_by_proposal[k].1));
            k = k + 1;
        }
        let r = VoteSet { votes_by_sender: senders, votes_by_proposal: tallies, count: self.count };
        proof {
            assert(r.senders() =~= self.senders());
            assert(r.tallies() =~= self.tallies());
        }
        r
    }
}

/// The voters that chose `val`, in insertion order.
pub open spec fn voters_for(s: Seq<(Seq<u8>, Seq<u8>)>, val: Seq<u8>) -> Seq<Seq<u8>>
    decreases s.len(),
{
    if s.len() == 0 {
        Seq::empty()
    } else if s.last().1 == val {
        voters_for(s.drop_last(), val).push(s.last().0)
    } else {
        voters_for(s.drop_last(), val)
    }
}

/// As many voters chose a value as its count says.
pub proof fn lemma_voters_count(s: Seq<(Seq<u8>, Seq<u8>)>, val: Seq<u8>)
    ensures
        voters_for(s, val).len() == count_for(s, val),
    decreases s.len(),
{
    if s.len() > 0 {
        lemma_voters_count(s.drop_last(), val);
    }
}

/// The model of an empty vote set.
pub open spec fn empty_vote_set() -> VoteSetModel {
    VoteSetModel { senders: Seq::empty(), tallies: Seq::empty() }
}

/// Mathematical content of a [`StepCollector`]: one optional vote set per
/// step.
pub ghost struct StepModel {
    /// The prevote slot, absent until the first prevote.
    pub prevote: Option<VoteSetModel>,
    /// The precommit slot, absent until the first precommit.
    pub precommit: Option<VoteSetModel>,
}

/// The slot of a step model for one step.
pub open spec fn step_slot(m: StepModel, vt: VoteType) -> Option<VoteSetModel> {
    match vt {
        VoteType::Prevote => m.prevote,
        VoteType::Precommit => m.precommit,
    }
}

/// The model of a step collector with both slots absent.
pub open spec fn empty_step() -> StepModel {
    StepModel { prevote: None, precommit: None }
}

/// One slot after recording a vote, with whether it was fresh.
pub open spec fn slot_add(m: Option<VoteSetModel>, sender: Seq<u8>, vote: Seq<u8>) -> (
    Option<VoteSetModel>,
    bool,
) {
    match m {
        None => (Some(vs_add_spec(empty_vote_set(), sender, vote)), true),
        Some(vm) => if has_sender(vm.senders, sender) {
            (Some(vm), false)
        } else {
            (Some(vs_add_spec(vm, sender, vote)), true)
        },
    }
}

/// A step model after recording a vote in one of its slots, with whether the
/// vote was fresh.
pub open spec fn step_add(m: StepModel, vt: VoteType, sender: Seq<u8>, vote: Seq<u8>) -> (
    StepModel,
    bool,
) {
    let p = slot_add(step_slot(m, vt), sender, vote);
    match vt {
        VoteType::Prevote => (StepModel { prevote: p.0, precommit: m.precommit }, p.1),
        VoteType::Precommit => (StepModel { prevote: m.prevote, precommit: p.0 }, p.1),
    }
}

/// Per round: the vote sets of the prevote and the precommit step.
pub struct StepCollector {
    prevote: Option<VoteSet>,
    precommit: Option<VoteSet>,
}

impl StepCollector {
    /// The mathematical content of both slots.
    pub closed spec fn model(&self) -> StepModel {
        StepModel {
            prevote: match self.prevote {
                Some(vs) => Some(vs.model()),
                None => None,
            },
            precommit: match self.precommit {
                Some(vs) => Some(vs.model()),
                None => None,
            },
        }
    }

    /// Both slots, where present, are internally consistent.
    pub closed spec fn wf(&self) -> bool {
        &&& match self.prevote {
            Some(vs) => vs.wf(),
            None => true,
        }
        &&& match self.precommit {
            Some(vs) => vs.wf(),
            None => true,
        }
    }

    /// A collector with both slots absent.
    pub fn new() -> (r: StepCollector)
        ensures
            r.wf(),
            r.model() == empty_step(),
    {
        StepCollector { prevote: None, precommit: None }
    }

    /// Records one vote in the slot of its step; returns false and changes
    /// nothing when the voter already voted there.
    pub fn add(&mut self, vote_type: VoteType, sender: Address, vote: Vec<u8>) -> (r: bool)
        requires
            old(self).wf(),
        ensures
            final(self).wf(),
            r == step_add(old(self).model(), vote_type, sender@, vote@).1,
            final(self).model() == step_add(old(self).model(), vote_type, sender@, vote@).0,
    {
        match vote_type {
            VoteType::Prevote => {
                match &mut self.prevote {
                    Some(vs) => vs.add(sender, vote),
                    None => {
                        let mut vs = VoteSet::new();
                        let r = vs.add(sender, vote);
                        self.prevote = Some(vs);
                        r
                    },
                }
            },
            VoteType::Precommit => {
                match &mut self.precommit {
                    Some(vs) => vs.add(sender, vote),
                    None => {
                        let mut vs = VoteSet::new();
                        let r = vs.add(sender, vote);
                        self.precommit = Some(vs);
                        r
                    },
                }
            },
        }
    }

    /// A copy of the vote set recorded for one step, or absence where no
    /// vote of that step arrived yet.
    pub fn get_voteset(&self, vote_type: VoteType) -> (r: Option<VoteSet>)
        requires
            self.wf(),
        ensures
            match r {
                Some(vs) => vs.wf() && step_slot(self.model(), vote_type) == Some(vs.model()),
                None => step_slot(self.model(), vote_type) is None,
            },
    {
        match vote_type {
            VoteType::Prevote => {
                match &self.prevote {
                    Some(vs) => Some(vs.duplicate()),
                    None => None,
                }
            },
            VoteType::Precommit => {
                match &self.precommit {
                    Some(vs) => Some(vs.duplicate()),
                    None => None,
                }
            },
        }
    }
}

/// One more vote for `val` raises its count by one and no other.
proof fn lemma_count_push(s: Seq<(Seq<u8>, Seq<u8>)>, sender: Seq<u8>, val: Seq<u8>)
    ensures
        count_for(s.push((sender, val)), val) == count_for(s, val) + 1,
        forall|other: Seq<u8>| other != val ==> #[trigger] count_for(s.push((sender, val)), other)
            == count_for(s, other),
{
    assert(s.push((sender, val)).drop_last() =~= s);
    assert forall|other: Seq<u8>| other != val implies #[trigger] count_for(
        s.push((sender, val)),
        other,
    ) == count_for(s, other) by {
        assert(s.push((sender, val)).drop_last() =~= s);
    }
}

/// A value's count never exceeds the number of voters.
proof fn lemma_count_le_len(s: Seq<(Seq<u8>, Seq<u8>)>)
    ensures
        forall|val: Seq<u8>| #[trigger] count_for(s, val) <= s.len(),
    decreases s.len(),
{
    if s.len() > 0 {
        lemma_count_le_len(s.drop_last());
        assert forall|val: Seq<u8>| #[trigger] count_for(s, val) <= s.len() by {
            assert(count_for(s.drop_last(), val) <= s.drop_last().len());
        }
    }
}

/// Where the first entry for `val` stands at `k`, the bump updates `k`.
proof fn lemma_bump_found(t: Seq<(Seq<u8>, usize)>, val: Seq<u8>, k: int)
    requires
        0 <= k < t.len(),
        t[k].0 == val,
        forall|j: int| 0 <= j < k ==> t[j].0 != val,
    ensures
        bump_tally(t, val) =~= t.update(k, (val, (t[k].1 + 1) as usize)),
    decreases t.len(),
{
    if k == 0 {
    } else {
        let rest = t.subrange(1, t.len() as int);
        lemma_bump_found(rest, val, k - 1);
        assert(bump_tally(t, val) =~= seq![t[0]] + bump_tally(rest, val));
        assert(seq![t[0]] + rest.update(k - 1, (val, (t[k].1 + 1) as usize)) =~= t.update(
            k,
            (val, (t[k].1 + 1) as usize),
        ));
    }
}

/// Where no entry for `val` exists, the bump appends a fresh one.
proof fn lemma_bump_missing(t: Seq<(Seq<u8>, usize)>, val: Seq<u8>)
    requires
        forall|j: int| 0 <= j < t.len() ==> t[j].0 != val,
    ensures
        bump_tally(t, val) =~= t.push((val, 1usize)),
    decreases t.len(),
{
    if t.len() > 0 {
        let rest = t.subrange(1, t.len() as int);
        lemma_bump_missing(rest, val);
        assert(seq![t[0]] + rest.push((val, 1usize)) =~= t.push((val, 1usize)));
    }
}

/// Recording a fresh vote keeps a vote set internally consistent.
proof fn lemma_wf_after_add(
    s0: Seq<(Seq<u8>, Seq<u8>)>,
    t0: Seq<(Seq<u8>, usize)>,
    sender: Seq<u8>,
    val: Seq<u8>,
)
    requires
        !has_sender(s0, sender),
        forall|k: int| 0 <= k < t0.len() ==> t0[k].1 == count_for(s0, #[trigger] t0[k].0),
        forall|k: int, l: int| 0 <= k < l < t0.len() ==> t0[k].0 != t0[l].0,
        forall|k: int| 0 <= k < t0.len() ==> count_for(s0, #[trigger] t0[k].0) > 0,
        forall|i: int| 0 <= i < s0.len() ==> has_tally(t0, #[trigger] s0[i].1),
        forall|i: int, j: int| 0 <= i < j < s0.len() ==> s0[i].0 != s0[j].0,
        count_for(s0, val) < usize::MAX,
    ensures
        ({
            let s1 = s0.push((sender, val));
            let t1 = bump_tally(t0, val);
            &&& s1.len() == s0.len() + 1
            &&& forall|i: int, j: int| 0 <= i < j < s1.len() ==> s1[i].0 != s1[j].0
            &&& forall|k: int| 0 <= k < t1.len() ==> t1[k].1 == count_for(s1, #[trigger] t1[k].0)
            &&& forall|k: int, l: int| 0 <= k < l < t1.len() ==> t1[k].0 != t1[l].0
            &&& forall|k: int| 0 <= k < t1.len() ==> count_for(s1, #[trigger] t1[k].0) > 0
            &&& forall|i: int| 0 <= i < s1.len() ==> has_tally(t1, #[trigger] s1[i].1)
        }),
{
    let s1 = s0.push((sender, val));
    let t1 = bump_tally(t0, val);
    lemma_count_push(s0, sender, val);
    if has_tally(t0, val) {
        let kf = first_tally_index(t0, val);
        lemma_first_tally_index_props(t0, val);
        lemma_bump_found(t0, val, kf);
        assert(t1 =~= t0.update(kf, (val, (t0[kf].1 + 1) as usize)));
        assert forall|k2: int| 0 <= k2 < t1.len() implies t1[k2].1 == count_for(
            s1,
            #[trigger] t1[k2].0,
        ) by {
            if k2 == kf {
            } else {
                assert(t1[k2] == t0[k2]);
                assert(t0[k2].0 != val);
            }
        }
        assert forall|i: int| 0 <= i < s1.len() implies has_tally(t1, #[trigger] s1[i].1) by {
            if i < s0.len() {
                let k2 = choose|k2: int| 0 <= k2 < t0.len() && t0[k2].0 == s0[i].1;
                assert(t1[k2].0 == s0[i].1);
            } else {
                assert(t1[kf].0 == val);
            }
        }
    } else {
        lemma_bump_missing(t0, val);
        assert(t1 =~= t0.push((val, 1usize)));
        assert forall|k2: int| 0 <= k2 < t1.len() implies t1[k2].1 == count_for(
            s1,
            #[trigger] t1[k2].0,
        ) by {
            if k2 < t0.len() {
                assert(t0[k2].0 != val);
            } else {
                assert(t1[k2] == (val, 1usize));
                assert(count_for(s0, val) == 0) by {
                    lemma_no_tally_no_count(s0, t0, val);
                }
            }
        }
        assert forall|i: int| 0 <= i < s1.len() implies has_tally(t1, #[trigger] s1[i].1) by {
            if i < s0.len() {
                let k2 = choose|k2: int| 0 <= k2 < t0.len() && t0[k2].0 == s0[i].1;
                assert(t1[k2].0 == s0[i].1);
            } else {
                assert(t1[t0.len() as int].0 == val);
            }
        }
    }
}

/// The position of the first tally entry for `val`.
spec fn first_tally_index(t: Seq<(Seq<u8>, usize)>, val: Seq<u8>) -> int
    decreases t.len(),
{
    if t.len() == 0 {
        0
    } else if t[0].0 == val {
        0
    } else {
        1 + first_tally_index(t.subrange(1, t.len() as int), val)
    }
}

/// The first tally entry for a present value is a match, and nothing before
/// it matches.
proof fn lemma_first_tally_index_props(t: Seq<(Seq<u8>, usize)>, val: Seq<u8>)
    requires
        has_tally(t, val),
    ensures
        0 <= first_tally_index(t, val) < t.len(),
        t[first_tally_index(t, val)].0 == val,
        forall|j: int| 0 <= j < first_tally_index(t, val) ==> t[j].0 != val,
    decreases t.len(),
{
    if t[0].0 == val {
    } else {
        let rest = t.subrange(1, t.len() as int);
        let w = choose|k: int| 0 <= k < t.len() && t[k].0 == val;
        assert(rest[w - 1].0 == val);
        lemma_first_tally_index_props(rest, val);
        let f = first_tally_index(t, val);
        assert(f == 1 + first_tally_index(rest, val));
        assert(t[f].0 == rest[f - 1].0);
        assert forall|j: int| 0 <= j < f implies t[j].0 != val by {
            if j > 0 {
                assert(t[j].0 == rest[j - 1].0);
            }
        }
    }
}

/// A value with no tally entry was never voted.
proof fn lemma_no_tally_no_count(
    s: Seq<(Seq<u8>, Seq<u8>)>,
    t: Seq<(Seq<u8>, usize)>,
    val: Seq<u8>,
)
    requires
        forall|i: int| 0 <= i < s.len() ==> has_tally(t, #[trigger] s[i].1),
        forall|j: int| 0 <= j < t.len() ==> t[j].0 != val,
    ensures
        count_for(s, val) == 0,
    decreases s.len(),
{
    if s.len() > 0 {
        assert(forall|i: int| 0 <= i < s.drop_last().len() ==> s.drop_last()[i] == s[i]);
        lemma_no_tally_no_count(s.drop_last(), t, val);
        assert(s.last().1 != val);
    }
}

/// How a bounded round window changes when one vote is recorded: the round's
/// step collector takes the vote, a missing round enters fresh, and a full
/// window lets one other round go.
pub open spec fn round_add_rel(
    m0: Map<u64, StepModel>,
    m1: Map<u64, StepModel>,
    round: u64,
    vt: VoteType,
    sender: Seq<u8>,
    vote: Seq<u8>,
    added: bool,
) -> bool {
    if m0.dom().contains(round) {
        &&& added == step_add(m0[round], vt, sender, vote).1
        &&& m1 == m0.insert(round, step_add(m0[round], vt, sender, vote).0)
    } else {
        &&& added
        &&& bounded_insert(m0, m1, round, step_add(empty_step(), vt, sender, vote).0, 16)
    }
}

/// Per height: the step collectors of the last 16 rounds, least-recently
/// used round evicted first.
pub struct RoundCollector {
    round_votes: LruCache<u64, usize>,
    store: Vec<StepCollector>,
}

impl RoundCollector {
    /// The step collectors currently held, by round.
    pub closed spec fn model(&self) -> Map<u64, StepModel> {
        Map::new(
            |r: u64| lru_contents(self.round_votes).dom().contains(r),
            |r: u64| self.store@[lru_contents(self.round_votes)[r] as int].model(),
        )
    }

    /// The window keeps 16 rounds, every cached round points at a
    /// well-formed step collector, and no two rounds share one.
    pub closed spec fn wf(&self) -> bool {
        let c = lru_contents(self.round_votes);
        &&& lru_capacity(self.round_votes) == 16
        &&& lru_consistent(self.round_votes)
        &&& forall|r: u64| c.dom().contains(r) ==> (#[trigger] c[r]) < self.store@.len()
        &&& forall|r1: u64, r2: u64|
            #![trigger c[r1], c[r2]]
            c.dom().contains(r1) && c.dom().contains(r2) && r1 != r2 ==> c[r1] != c[r2]
        &&& forall|r: u64| c.dom().contains(r) ==> self.store@[#[trigger] c[r] as int].wf()
    }

    /// An empty round window.
    pub fn new() -> (r: RoundCollector)
        ensures
            r.wf(),
            r.model() =~= Map::empty(),
    {
        let r = RoundCollector { round_votes: lru_new(16), store: Vec::new() };
        proof {
            assert(r.model() =~= Map::empty());
        }
        r
    }

    /// Records one vote under its round; returns false and changes nothing
    /// when the voter already voted in that slot.
    pub fn add(&mut self, round: u64, vote_type: VoteType, sender: Address, vote: Vec<u8>) -> (added:
        bool)
        requires
            old(self).wf(),
        ensures
            final(self).wf(),
            round_add_rel(
                old(self).model(),
                final(self).model(),
                round,
                vote_type,
                sender@,
                vote@,
                added,
            ),
    {
        let ghost m0 = self.model();
        let ghost c0 = lru_contents(self.round_votes);
        let ghost sv = sender@;
        let ghost vv = vote@;
        match lru_get(&mut self.round_votes, round) {
            Some(idx) => {
                let mut sc = self.store.remove(idx);
                let added = sc.add(vote_type, sender, vote);
                let ghost scm = sc.model();
                self.store.insert(idx, sc);
                proof {
                    assert(self.store@ =~= old(self).store@.update(
                        idx as int,
                        self.store@[idx as int],
                    ));
                    assert(self.store@[idx as int].model() == scm);
                    assert(scm == step_add(m0[round], vote_type, sv, vv).0);
                    assert(self.model() =~= m0.insert(round, scm));
                }
                added
            },
            None => {
                let mut sc = StepCollector::new();
                let added = sc.add(vote_type, sender, vote);
                let ghost scm = sc.model();
                proof {
                    assert(!lru_order(old(self).round_votes).contains(round));
                }
                let idx: usize;
                if lru_len(&self.round_votes) >= 16 {
                    let victim = lru_pop_lru(&mut self.round_votes);
                    idx = victim.1;
                    proof {
                        assert(c0.dom().contains(victim.0));
                        assert(idx < self.store@.len());
                    }
                    self.store.set(idx, sc);
                } else {
                    idx = self.store.len();
                    self.store.push(sc);
                }
                lru_insert(&mut self.round_votes, round, idx);
                proof {
                    let c1 = lru_contents(self.round_votes);
                    assert(scm == step_add(empty_step(), vote_type, sv, vv).0);
                    assert(m0.dom() =~= c0.dom());
                    if c0.dom().len() < 16 {
                        assert(c1 == c0.insert(round, idx));
                        assert(self.model() =~= m0.insert(round, scm));
                    } else {
                        let e = lru_order(old(self).round_votes).first();
                        assert(lru_order(old(self).round_votes).contains(e));
                        assert(c0.dom().contains(e) && e != round);
                        assert(c1 == c0.remove(e).insert(round, idx));
                        assert(self.model() =~= m0.remove(e).insert(round, scm));
                        assert(m0.dom().contains(e) && e != round && self.model() == m0.remove(
                            e,
                        ).insert(round, scm));
                    }
                }
                added
            },
        }
    }

    /// A copy of the vote set at (round, step), or absence where the round
    /// left the window or the step saw no vote; looking a round up
    /// refreshes its recency but changes no contents.
    pub fn get_voteset(&mut self, round: u64, vote_type: VoteType) -> (r: Option<VoteSet>)
        requires
            old(self).wf(),
        ensures
            final(self).wf(),
            final(self).model() == old(self).model(),
            match r {
                Some(vs) => vs.wf() && old(self).model().dom().contains(round) && step_slot(
                    old(self).model()[round],
                    vote_type,
                ) == Some(vs.model()),
                None => !old(self).model().dom().contains(round) || step_slot(
                    old(self).model()[round],
                    vote_type,
                ) is None,
            },
    {
        let ghost m0 = self.model();
        let r = match lru_get(&mut self.round_votes, round) {
            Some(idx) => self.store[idx].get_voteset(vote_type),
            None => None,
        };
        proof {
            assert(self.model() =~= m0);
        }
        r
    }
}

/// How the whole vote cache changes when one vote is recorded: the vote's
/// height takes it into its round window, a missing height enters fresh, and
/// a full cache lets one other height go.
pub open spec fn cache_add_rel(
    m0: Map<u64, Map<u64, StepModel>>,
    m1: Map<u64, Map<u64, StepModel>>,
    height: u64,
    round: u64,
    vt: VoteType,
    sender: Seq<u8>,
    vote: Seq<u8>,
    added: bool,
) -> bool {
    if m0.dom().contains(height) {
        exists|rv: Map<u64, StepModel>|
            #[trigger] round_add_rel(m0[height], rv, round, vt, sender, vote, added) && m1
                == m0.insert(height, rv)
    } else {
        &&& added
        &&& exists|rv: Map<u64, StepModel>|
            #[trigger] round_add_rel(Map::empty(), rv, round, vt, sender, vote, true)
                && bounded_insert(m0, m1, height, rv, 16)
    }
}

/// The prevote counter for a round after one more fresh prevote: one more,
/// saturating at the machine bound.
pub open spec fn bumped_count(pc: Map<u64, usize>, round: u64) -> usize {
    if pc.dom().contains(round) {
        if pc[round] < usize::MAX {
            (pc[round] + 1) as usize
        } else {
            pc[round]
        }
    } else {
        1usize
    }
}

/// The prevote counters after recording a vote: only a fresh prevote bumps
/// the counter of its round.
pub open spec fn counts_after(
    pc: Map<u64, usize>,
    vt: VoteType,
    round: u64,
    added: bool,
) -> Map<u64, usize> {
    if added && vt == VoteType::Prevote {
        pc.insert(round, bumped_count(pc, round))
    } else {
        pc
    }
}

/// All votes observed by the harness, nested by height, round and step, the
/// last 16 heights kept, with a running prevote count per round.
pub struct VoteCache {
    votes: LruCache<u64, usize>,
    store: Vec<RoundCollector>,
    prevote_count: HashMap<u64, usize>,
}

impl VoteCache {
    /// The step collectors currently held, by height and round.
    pub closed spec fn model(&self) -> Map<u64, Map<u64, StepModel>> {
        Map::new(
            |h: u64| lru_contents(self.votes).dom().contains(h),
            |h: u64| self.store@[lru_contents(self.votes)[h] as int].model(),
        )
    }

    /// The cached heights in recency order, the least-recently used first;
    /// recording or looking up a height moves it to the most-recent end,
    /// and a full cache evicts the first height of this order.
    pub closed spec fn order(&self) -> Seq<u64> {
        lru_order(self.votes)
    }

    /// The recency order lists exactly the cached heights, each once, and
    /// never more than the window holds.
    pub proof fn lemma_order_consistent(&self)
        requires
            self.wf(),
        ensures
            self.order().no_duplicates(),
            self.order().to_set() == self.model().dom(),
            self.order().len() == self.model().dom().len(),
            self.model().dom().len() <= 16,
    {
        assert(self.order().to_set() =~= self.model().dom());
    }

    /// The running prevote count per round.
    pub closed spec fn counts(&self) -> Map<u64, usize> {
        self.prevote_count@
    }

    /// The cache keeps 16 heights, every cached height points at a
    /// well-formed round window, and no two heights share one.
    pub closed spec fn wf(&self) -> bool {
        let c = lru_contents(self.votes);
        &&& lru_capacity(self.votes) == 16
        &&& lru_consistent(self.votes)
        &&& forall|h: u64| c.dom().contains(h) ==> (#[trigger] c[h]) < self.store@.len()
        &&& forall|h1: u64, h2: u64|
            #![trigger c[h1], c[h2]]
            c.dom().contains(h1) && c.dom().contains(h2) && h1 != h2 ==> c[h1] != c[h2]
        &&& forall|h: u64| c.dom().contains(h) ==> self.store@[#[trigger] c[h] as int].wf()
    }

    /// An empty cache.
    pub fn new() -> (r: VoteCache)
        ensures
            r.wf(),
            r.model() =~= Map::empty(),
            r.counts() =~= Map::empty(),
            r.order() =~= Seq::empty(),
    {
        let r = VoteCache {
            votes: lru_new(16),
            store: Vec::new(),
            prevote_count: HashMap::new(),
        };
        proof {
            assert(r.model() =~= Map::empty());
        }
        r
    }

    /// Records one vote, keyed by its (height, round, step) slot and voter;
    /// returns false and changes nothing in the cache when the voter already
    /// voted in that slot. A fresh prevote also bumps the prevote counter of
    /// its round.
    pub fn add(&mut self, vote: Vote) -> (added: bool)
        requires
            old(self).wf(),
        ensures
            final(self).wf(),
            cache_add_rel(
                old(self).model(),
                final(self).model(),
                vote.height,
                vote.round,
                vote.vote_type,
                vote.voter@,
                vote.proposal@,
                added,
            ),
            final(self).counts() == counts_after(
                old(self).counts(),
                vote.vote_type,
                vote.round,
                added,
            ),
            final(self).order() == (if old(self).model().dom().contains(vote.height) {
                promoted(old(self).order(), vote.height)
            } else if old(self).model().dom().len() < 16 {
                old(self).order().push(vote.height)
            } else {
                old(self).order().drop_first().push(vote.height)
            }),
            !old(self).model().dom().contains(vote.height) && old(self).model().dom().len() >= 16
                ==> old(self).model().dom().contains(old(self).order().first()),
            final(self).model().dom() =~= (if old(self).model().dom().contains(vote.height) {
                old(self).model().dom()
            } else if old(self).model().dom().len() < 16 {
                old(self).model().dom().insert(vote.height)
            } else {
                old(self).model().dom().remove(old(self).order().first()).insert(vote.height)
            }),
    {
        let Vote { height, round, vote_type, proposal, voter } = vote;
        let ghost m0 = self.model();
        let ghost c0 = lru_contents(self.votes);
        let ghost sv = voter@;
        let ghost vv = proposal@;
        let added = match lru_get(&mut self.votes, height) {
            Some(idx) => {
                let mut rc = self.store.remove(idx);
                let ghost rcm0 = rc.model();
                proof {
                    assert(rcm0 == m0[height]);
                }
                let added = rc.add(round, vote_type, voter, proposal);
                let ghost rcm = rc.model();
                self.store.insert(idx, rc);
                proof {
                    assert(self.store@ =~= old(self).store@.update(
                        idx as int,
                        self.store@[idx as int],
                    ));
                    assert(self.store@[idx as int].model() == rcm);
                    assert(self.model() =~= m0.insert(height, rcm));
                    assert(round_add_rel(m0[height], rcm, round, vote_type, sv, vv, added));
                    assert(cache_add_rel(m0, self.model(), height, round, vote_type, sv, vv, added));
                }
                added
            },
            None => {
                let mut rc = RoundCollector::new();
                let ghost rcm0 = rc.model();
                let added = rc.add(round, vote_type, voter, proposal);
                let ghost rcm = rc.model();
                proof {
                    assert(!lru_order(old(self).votes).contains(height));
                }
                let idx: usize;
                if lru_len(&self.votes) >= 16 {
                    let victim = lru_pop_lru(&mut self.votes);
                    idx = victim.1;
                    proof {
                        assert(c0.dom().contains(victim.0));
                        assert(idx < self.store@.len());
                    }
                    self.store.set(idx, rc);
                } else {
                    idx = self.store.len();
                    self.store.push(rc);
                }
                lru_insert(&mut self.votes, height, idx);
                proof {
                    let c1 = lru_contents(self.votes);
                    assert(m0.dom() =~= c0.dom());
                    assert(rcm0 =~= Map::empty());
                    assert(round_add_rel(Map::empty(), rcm, round, vote_type, sv, vv, added));
                    if c0.dom().len() < 16 {
                        assert(c1 == c0.insert(height, idx));
                        assert(self.model() =~= m0.insert(height, rcm));
                    } else {
                        let e = lru_order(old(self).votes).first();
                        assert(lru_order(old(self).votes).contains(e));
                        assert(c0.dom().contains(e) && e != height);
                        assert(c1 == c0.remove(e).insert(height, idx));
                        assert(self.model() =~= m0.remove(e).insert(height, rcm));
                        assert(m0.dom().contains(e) && e != height && self.model() == m0.remove(
                            e,
                        ).insert(height, rcm));
                    }
                    assert(bounded_insert(m0, self.model(), height, rcm, 16));
                    assert(added);
                    assert(cache_add_rel(m0, self.model(), height, round, vote_type, sv, vv, added));
                }
                added
            },
        };
        if added && vote_type == VoteType::Prevote {
            let current: usize = match self.prevote_count.get(&round) {
                Some(c) => *c,
                None => 0,
            };
            let bumped: usize = if current < usize::MAX {
                current + 1
            } else {
                current
            };
            self.prevote_count.insert(round, bumped);
        }
        added
    }

    /// A copy of the vote set at (height, round, step), or absence where the
    /// height or round left its window or the step saw no vote; a lookup
    /// refreshes recency but changes no contents.
    pub fn get_voteset(&mut self, height: u64, round: u64, vote_type: VoteType) -> (r: Option<
        VoteSet,
    >)
        requires
            old(self).wf(),
        ensures
            final(self).wf(),
            final(self).model() == old(self).model(),
            final(self).counts() == old(self).counts(),
            final(self).order() == promoted(old(self).order(), height),
            match r {
                Some(vs) => vs.wf() && old(self).model().dom().contains(height) && old(
                    self,
                ).model()[height].dom().contains(round) && step_slot(
                    old(self).model()[height][round],
                    vote_type,
                ) == Some(vs.model()),
                None => !old(self).model().dom().contains(height) || !old(
                    self,
                ).model()[height].dom().contains(round) || step_slot(
                    old(self).model()[height][round],
                    vote_type,
                ) is None,
            },
    {
        let ghost m0 = self.model();
        match lru_get(&mut self.votes, height) {
            Some(idx) => {
                let mut rc = self.store.remove(idx);
                let r = rc.get_voteset(round, vote_type);
                self.store.insert(idx, rc);
                proof {
                    assert(self.store@ =~= old(self).store@.update(
                        idx as int,
                        self.store@[idx as int],
                    ));
                    assert(self.model() =~= m0);
                }
                r
            },
            None => None,
        }
    }

    /// Forgets the running prevote counts; the cached votes stay.
    pub fn clear_prevote_count(&mut self)
        requires
            old(self).wf(),
        ensures
            final(self).wf(),
            final(self).model() == old(self).model(),
            final(self).order() == old(self).order(),
            final(self).counts() =~= Map::empty(),
    {
        self.prevote_count.clear();
    }
}

} // verus!
