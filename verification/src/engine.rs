//! The per-turn decision engine: a zone-dispatch state machine over one
//! turn's snapshot. Each zone handler is a self-contained heuristic over
//! the task list and the player's inventory, and the whole engine is a
//! pure function of the snapshot.

use vstd::prelude::*;

use crate::model::Carrier;
use crate::model::MAX_MOLECULES;
use crate::model::Module;
use crate::model::Molecule;
use crate::model::PlayerOp;
use crate::model::SampleInfo;
use crate::model::TurnInput;
use crate::model::cost_ok;
use crate::model::cost_total;
use crate::model::held_diagnosed;
use crate::model::molecule_of;
use crate::model::self_held;
use crate::model::storage_total;

verus! {

/// The player holds some task of the given rank.
pub open spec fn holds_rank(t: TurnInput, r: int) -> bool {
    exists|i: int|
        0 <= i < t.samples@.len() && self_held(#[trigger] t.samples@[i]) && t.samples@[i].rank == r
}

/// What the engine does at the sample depot: acquire a rank-2 task first,
/// then a rank-1 task, then move on to diagnosis.
pub open spec fn samples_decision(t: TurnInput, op: PlayerOp) -> bool {
    if !holds_rank(t, 2) {
        op == PlayerOp::ConnectRank(2u8)
    } else if !holds_rank(t, 1) {
        op == PlayerOp::ConnectRank(1u8)
    } else {
        op == PlayerOp::GoTo(Module::Diagnosis)
    }
}

/// Acquisition step at the sample depot.
pub fn work_samples(t: &TurnInput) -> (op: PlayerOp)
    requires
        t.wf(),
    ensures
        samples_decision(*t, op),
{
    let mut has_rank1 = false;
    let mut has_rank2 = false;
    let n: usize = t.samples.len();
    let mut i: usize = 0;
    while i < n
        invariant
            i <= n,
            n == t.samples@.len(),
            has_rank1 == exists|j: int|
                0 <= j < i && self_held(#[trigger] t.samples@[j]) && t.samples@[j].rank == 1,
            has_rank2 == exists|j: int|
                0 <= j < i && self_held(#[trigger] t.samples@[j]) && t.samples@[j].rank == 2,
        decreases n - i,
    {
        let s = &t.samples[i];
        if s.carried_by == Carrier::P1 {
            if s.rank == 1 {
                has_rank1 = true;
            } else if s.rank == 2 {
                has_rank2 = true;
            }
        }
        i += 1;
    }
    if !has_rank2 {
        PlayerOp::ConnectRank(2)
    } else if !has_rank1 {
        PlayerOp::ConnectRank(1)
    } else {
        PlayerOp::GoTo(Module::Diagnosis)
    }
}

/// The task at position `i` is held by the player and still undiagnosed.
pub open spec fn undiagnosed_at(t: TurnInput, i: int) -> bool {
    0 <= i < t.samples@.len() && self_held(t.samples@[i]) && !t.samples@[i].diagnosed
}

/// What the engine does at the diagnosis machine: diagnose the first
/// undiagnosed self-held task in feed order, one per turn; once all are
/// diagnosed, move on to the molecule depot.
pub open spec fn diagnosis_decision(t: TurnInput, op: PlayerOp) -> bool {
    if exists|i: int| undiagnosed_at(t, i) {
        exists|i: int|
            undiagnosed_at(t, i) && (forall|j: int| 0 <= j < i ==> !undiagnosed_at(t, j)) && op
                == PlayerOp::ConnectSample(t.samples@[i].id)
    } else {
        op == PlayerOp::GoTo(Module::Molecules)
    }
}

/// Diagnosis step: clear undiagnosed tasks before any capacity reasoning.
pub fn work_diagnosis(t: &TurnInput) -> (op: PlayerOp)
    requires
        t.wf(),
    ensures
        diagnosis_decision(*t, op),
{
    let n: usize = t.samples.len();
    let mut i: usize = 0;
    while i < n
        invariant
            i <= n,
            n == t.samples@.len(),
            forall|j: int| 0 <= j < i ==> !undiagnosed_at(*t, j),
        decreases n - i,
    {
        let s = &t.samples[i];
        if s.carried_by == Carrier::P1 && !s.diagnosed {
            assert(undiagnosed_at(*t, i as int));
            return PlayerOp::ConnectSample(s.id);
        }
        i += 1;
    }
    PlayerOp::GoTo(Module::Molecules)
}

/// Molecules of type `k` needed to complete every self-held diagnosed
/// task in `s`, summed component-wise.
pub open spec fn req_sum(s: Seq<SampleInfo>, k: int) -> int
    decreases s.len(),
{
    if s.len() == 0 {
        0
    } else {
        req_sum(s.drop_last(), k) + if held_diagnosed(s.last()) {
            s.last().cost@[k] as int
        } else {
            0
        }
    }
}

/// Molecules of all types needed to complete every self-held diagnosed
/// task in `s`.
pub open spec fn req_total(s: Seq<SampleInfo>) -> int {
    req_sum(s, 0) + req_sum(s, 1) + req_sum(s, 2) + req_sum(s, 3) + req_sum(s, 4)
}

/// Extending the prefix by one task adds that task's cost when it is
/// self-held and diagnosed, and nothing otherwise.
proof fn lemma_req_sum_step(s: Seq<SampleInfo>, i: int, k: int)
    requires
        0 <= i < s.len(),
    ensures
        req_sum(s.take(i + 1), k) == req_sum(s.take(i), k) + if held_diagnosed(s[i]) {
            s[i].cost@[k] as int
        } else {
            0
        },
{
    assert(s.take(i + 1).drop_last() =~= s.take(i));
    assert(s.take(i + 1).last() == s[i]);
}

/// A task list with no self-held diagnosed task requires no molecules.
proof fn lemma_req_sum_zero(s: Seq<SampleInfo>, k: int)
    requires
        forall|i: int| 0 <= i < s.len() ==> !held_diagnosed(#[trigger] s[i]),
    ensures
        req_sum(s, k) == 0,
    decreases s.len(),
{
    if s.len() > 0 {
        assert(s.last() == s[s.len() - 1]);
        assert(forall|i: int| 0 <= i < s.drop_last().len() ==> s.drop_last()[i] == s[i]);
        lemma_req_sum_zero(s.drop_last(), k);
    }
}

/// The task at position `i` is the narrowing target: the first self-held
/// diagnosed task of maximal rank in feed order.
pub open spec fn best_at(s: Seq<SampleInfo>, i: int) -> bool {
    &&& 0 <= i < s.len()
    &&& held_diagnosed(s[i])
    &&& forall|j: int|
        0 <= j < s.len() && held_diagnosed(#[trigger] s[j]) ==> s[j].rank <= s[i].rank
    &&& forall|j: int| 0 <= j < i && held_diagnosed(#[trigger] s[j]) ==> s[j].rank < s[i].rank
}

/// The position of the narrowing target.
pub open spec fn best_idx(s: Seq<SampleInfo>) -> int {
    choose|i: int| best_at(s, i)
}

/// At most one position is the narrowing target.
proof fn lemma_best_unique(s: Seq<SampleInfo>, i1: int, i2: int)
    requires
        best_at(s, i1),
        best_at(s, i2),
    ensures
        i1 == i2,
{
    if i1 < i2 {
        assert(s[i1].rank < s[i2].rank);
        assert(s[i2].rank <= s[i1].rank);
    }
    if i2 < i1 {
        assert(s[i2].rank < s[i1].rank);
        assert(s[i1].rank <= s[i2].rank);
    }
}

/// The requirement the whole sum would overrun the player's capacity, so
/// it is narrowed to the best single task's own cost.
pub open spec fn narrowed(t: TurnInput) -> bool {
    req_total(t.samples@) > MAX_MOLECULES
}

/// Molecules of type `k` the engine wants in storage this turn: the sum
/// over self-held diagnosed tasks, narrowed to the best single task when
/// the sum would overrun the capacity.
pub open spec fn required(t: TurnInput, k: int) -> int {
    if narrowed(t) {
        t.samples@[best_idx(t.samples@)].cost@[k] as int
    } else {
        req_sum(t.samples@, k)
    }
}

/// Storage of type `k` falls short of the requirement.
pub open spec fn deficient(t: TurnInput, k: int) -> bool {
    0 <= k < 5 && (t.p1.storage@[k] as int) < required(t, k)
}

/// What the engine does at the molecule depot: request a molecule of the
/// first deficient type in the fixed scan order; once storage meets the
/// requirement in every type, move on to the laboratory.
pub open spec fn molecules_decision(t: TurnInput, op: PlayerOp) -> bool {
    if exists|k: int| deficient(t, k) {
        exists|k: int|
            deficient(t, k) && (forall|j: int| 0 <= j < k ==> !deficient(t, j)) && op
                == PlayerOp::ConnectMolecule(molecule_of(k))
    } else {
        op == PlayerOp::GoTo(Module::Laboratory)
    }
}

/// Requisition step at the molecule depot.
pub fn work_molecules(t: &TurnInput) -> (op: PlayerOp)
    requires
        t.wf(),
    ensures
        molecules_decision(*t, op),
{
    let n: usize = t.samples.len();
    let mut req: [u32; 5] = [0, 0, 0, 0, 0];
    let mut i: usize = 0;
    while i < n
        invariant
            i <= n,
            n == t.samples@.len(),
            t.wf(),
            forall|k: int|
                0 <= k < 5 ==> #[trigger] req@[k] == req_sum(t.samples@.take(i as int), k),
            forall|k: int| 0 <= k < 5 ==> #[trigger] req@[k] <= 127 * i,
        decreases n - i,
    {
        let s = &t.samples[i];
        if s.carried_by == Carrier::P1 && s.diagnosed {
            proof {
                assert(cost_ok(t.samples@[i as int]));
            }
            req[0] = req[0] + (s.cost[0] as u32);
            req[1] = req[1] + (s.cost[1] as u32);
            req[2] = req[2] + (s.cost[2] as u32);
            req[3] = req[3] + (s.cost[3] as u32);
            req[4] = req[4] + (s.cost[4] as u32);
        }
        proof {
            lemma_req_sum_step(t.samples@, i as int, 0);
            lemma_req_sum_step(t.samples@, i as int, 1);
            lemma_req_sum_step(t.samples@, i as int, 2);
            lemma_req_sum_step(t.samples@, i as int, 3);
            lemma_req_sum_step(t.samples@, i as int, 4);
        }
        i += 1;
    }
    proof {
        assert(t.samples@.take(n as int) =~= t.samples@);
    }
    let total: u32 = req[0] + req[1] + req[2] + req[3] + req[4];
    assert(total == req_total(t.samples@));
    if total > MAX_MOLECULES as u32 {
        proof {
            if !(exists|m: int|
                0 <= m < t.samples@.len() && held_diagnosed(#[trigger] t.samples@[m])) {
                assert(forall|m: int|
                    0 <= m < t.samples@.len() ==> !held_diagnosed(#[trigger] t.samples@[m]));
                lemma_req_sum_zero(t.samples@, 0);
                lemma_req_sum_zero(t.samples@, 1);
                lemma_req_sum_zero(t.samples@, 2);
                lemma_req_sum_zero(t.samples@, 3);
                lemma_req_sum_zero(t.samples@, 4);
                assert(false);
            }
        }
        let mut best: usize = 0;
        let mut best_rank: u8 = 0;
        let mut found = false;
        let mut j: usize = 0;
        while j < n
            invariant
                j <= n,
                n == t.samples@.len(),
                found == exists|m: int|
                    0 <= m < j && held_diagnosed(#[trigger] t.samples@[m]),
                found ==> best < j && held_diagnosed(t.samples@[best as int]),
                found ==> best_rank == t.samples@[best as int].rank,
                found ==> forall|m: int|
                    0 <= m < j && held_diagnosed(#[trigger] t.samples@[m])
                        ==> t.samples@[m].rank <= t.samples@[best as int].rank,
                found ==> forall|m: int|
                    0 <= m < best && held_diagnosed(#[trigger] t.samples@[m])
                        ==> t.samples@[m].rank < t.samples@[best as int].rank,
            decreases n - j,
        {
            let s = &t.samples[j];
            if s.carried_by == Carrier::P1 && s.diagnosed && (!found || s.rank > best_rank) {
                best = j;
                best_rank = s.rank;
                found = true;
            }
            j += 1;
        }
        assert(found);
        proof {
            assert(best_at(t.samples@, best as int));
            assert(best_at(t.samples@, best_idx(t.samples@)));
            lemma_best_unique(t.samples@, best_idx(t.samples@), best as int);
        }
        let s = &t.samples[best];
        proof {
            assert(cost_ok(t.samples@[best as int]));
        }
        req[0] = s.cost[0] as u32;
        req[1] = s.cost[1] as u32;
        req[2] = s.cost[2] as u32;
        req[3] = s.cost[3] as u32;
        req[4] = s.cost[4] as u32;
    }
    let mut k: usize = 0;
    while k < 5
        invariant
            k <= 5,
            forall|j: int| 0 <= j < 5 ==> #[trigger] req@[j] == required(*t, j),
            forall|j: int| 0 <= j < k ==> !deficient(*t, j),
        decreases 5 - k,
    {
        if (t.p1.storage[k] as u32) < req[k] {
            assert(deficient(*t, k as int));
            return PlayerOp::ConnectMolecule(Molecule::from(k as u8));
        }
        k += 1;
    }
    PlayerOp::GoTo(Module::Laboratory)
}

/// The task at position `i` is self-held, diagnosed, and worth cashing in
/// now: it is rank 2, or its total cost exactly equals the player's total
/// inventory.
pub open spec fn lab_ready(t: TurnInput, i: int) -> bool {
    &&& 0 <= i < t.samples@.len()
    &&& held_diagnosed(t.samples@[i])
    &&& (t.samples@[i].rank == 2 || cost_total(t.samples@[i]) == storage_total(t.p1))
}

/// What the engine does at the laboratory: hand in the first qualifying
/// task in feed order; with none, start a new acquisition cycle at the
/// sample depot.
pub open spec fn laboratory_decision(t: TurnInput, op: PlayerOp) -> bool {
    if exists|i: int| lab_ready(t, i) {
        exists|i: int|
            lab_ready(t, i) && (forall|j: int| 0 <= j < i ==> !lab_ready(t, j)) && op
                == PlayerOp::ConnectSample(t.samples@[i].id)
    } else {
        op == PlayerOp::GoTo(Module::Samples)
    }
}

/// Completion step at the laboratory.
pub fn work_laboratory(t: &TurnInput) -> (op: PlayerOp)
    requires
        t.wf(),
    ensures
        laboratory_decision(*t, op),
{
    let storage_sum: u32 = (t.p1.storage[0] as u32) + (t.p1.storage[1] as u32) + (
    t.p1.storage[2] as u32) + (t.p1.storage[3] as u32) + (t.p1.storage[4] as u32);
    assert(storage_sum == storage_total(t.p1));
    let n: usize = t.samples.len();
    let mut i: usize = 0;
    while i < n
        invariant
            i <= n,
            n == t.samples@.len(),
            t.wf(),
            storage_sum == storage_total(t.p1),
            forall|j: int| 0 <= j < i ==> !lab_ready(*t, j),
        decreases n - i,
    {
        let s = &t.samples[i];
        if s.carried_by == Carrier::P1 && s.diagnosed {
            proof {
                assert(cost_ok(t.samples@[i as int]));
            }
            let cost_sum: u32 = (s.cost[0] as u32) + (s.cost[1] as u32) + (s.cost[2] as u32) + (
            s.cost[3] as u32) + (s.cost[4] as u32);
            assert(cost_sum == cost_total(t.samples@[i as int]));
            if s.rank == 2 || cost_sum == storage_sum {
                assert(lab_ready(*t, i as int));
                return PlayerOp::ConnectSample(s.id);
            }
        }
        i += 1;
    }
    PlayerOp::GoTo(Module::Samples)
}

/// What the engine does for a whole turn: the zone the player targets
/// selects the handler; from the start position it bootstraps the cycle
/// by heading for the sample depot.
pub open spec fn decision(t: TurnInput, op: PlayerOp) -> bool {
    match t.p1.target {
        Module::StartPosition => op == PlayerOp::GoTo(Module::Samples),
        Module::Samples => samples_decision(t, op),
        Module::Diagnosis => diagnosis_decision(t, op),
        Module::Molecules => molecules_decision(t, op),
        Module::Laboratory => laboratory_decision(t, op),
    }
}

/// The one action of the turn, re-derived from the fresh snapshot alone.
pub fn next_move(t: &TurnInput) -> (op: PlayerOp)
    requires
        t.wf(),
    ensures
        decision(*t, op),
{
    match t.p1.target {
        Module::StartPosition => PlayerOp::GoTo(Module::Samples),
        Module::Samples => work_samples(t),
        Module::Diagnosis => work_diagnosis(t),
        Module::Molecules => work_molecules(t),
        Module::Laboratory => work_laboratory(t),
    }
}

/// Two qualifying positions that are both first in feed order for the
/// diagnosis scan coincide.
proof fn lemma_first_undiagnosed_unique(t: TurnInput, i1: int, i2: int)
    requires
        undiagnosed_at(t, i1),
        forall|j: int| 0 <= j < i1 ==> !undiagnosed_at(t, j),
        undiagnosed_at(t, i2),
        forall|j: int| 0 <= j < i2 ==> !undiagnosed_at(t, j),
    ensures
        i1 == i2,
{
}

/// Two deficient types that are both first in scan order coincide.
proof fn lemma_first_deficient_unique(t: TurnInput, k1: int, k2: int)
    requires
        deficient(t, k1),
        forall|j: int| 0 <= j < k1 ==> !deficient(t, j),
        deficient(t, k2),
        forall|j: int| 0 <= j < k2 ==> !deficient(t, j),
    ensures
        k1 == k2,
{
}

/// Two qualifying positions that are both first in feed order for the
/// laboratory scan coincide.
proof fn lemma_first_lab_ready_unique(t: TurnInput, i1: int, i2: int)
    requires
        lab_ready(t, i1),
        forall|j: int| 0 <= j < i1 ==> !lab_ready(t, j),
        lab_ready(t, i2),
        forall|j: int| 0 <= j < i2 ==> !lab_ready(t, j),
    ensures
        i1 == i2,
{
}

/// The engine is a pure function of the snapshot: the decision relation
/// admits at most one action, so re-running it on the identical snapshot
/// yields the identical action.
pub proof fn lemma_decision_deterministic(t: TurnInput, op1: PlayerOp, op2: PlayerOp)
    requires
        decision(t, op1),
        decision(t, op2),
    ensures
        op1 == op2,
{
    match t.p1.target {
        Module::StartPosition => {},
        Module::Samples => {},
        Module::Diagnosis => {
            if exists|i: int| undiagnosed_at(t, i) {
                let i1 = choose|i: int|
                    undiagnosed_at(t, i) && (forall|j: int| 0 <= j < i ==> !undiagnosed_at(t, j))
                        && op1 == PlayerOp::ConnectSample(t.samples@[i].id);
                let i2 = choose|i: int|
                    undiagnosed_at(t, i) && (forall|j: int| 0 <= j < i ==> !undiagnosed_at(t, j))
                        && op2 == PlayerOp::ConnectSample(t.samples@[i].id);
                lemma_first_undiagnosed_unique(t, i1, i2);
            }
        },
        Module::Molecules => {
            if exists|k: int| deficient(t, k) {
                let k1 = choose|k: int|
                    deficient(t, k) && (forall|j: int| 0 <= j < k ==> !deficient(t, j)) && op1
                        == PlayerOp::ConnectMolecule(molecule_of(k));
                let k2 = choose|k: int|
                    deficient(t, k) && (forall|j: int| 0 <= j < k ==> !deficient(t, j)) && op2
                        == PlayerOp::ConnectMolecule(molecule_of(k));
                lemma_first_deficient_unique(t, k1, k2);
            }
        },
        Module::Laboratory => {
            if exists|i: int| lab_ready(t, i) {
                let i1 = choose|i: int|
                    lab_ready(t, i) && (forall|j: int| 0 <= j < i ==> !lab_ready(t, j)) && op1
                        == PlayerOp::ConnectSample(t.samples@[i].id);
                let i2 = choose|i: int|
                    lab_ready(t, i) && (forall|j: int| 0 <= j < i ==> !lab_ready(t, j)) && op2
                        == PlayerOp::ConnectSample(t.samples@[i].id);
                lemma_first_lab_ready_unique(t, i1, i2);
            }
        },
    }
}

} // verus!

