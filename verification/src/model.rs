//! One turn's snapshot of the game: both players, the shared molecule pool,
//! and the active sample tasks. The snapshot is immutable; the engine only
//! reads it.

use vstd::prelude::*;

verus! {

/// Combined storage capacity of the player across all five molecule types.
pub const MAX_MOLECULES: u8 = 10;

/// A zone of the game board. The player occupies or travels toward exactly
/// one zone each turn.
#[derive(Clone, Copy, PartialEq, Eq, Structural, Debug)]
pub enum Module {
    StartPosition,
    Samples,
    Diagnosis,
    Molecules,
    Laboratory,
}

/// Who currently holds a sample task: the player, the opponent, or the
/// shared cloud pool.
#[derive(Clone, Copy, PartialEq, Eq, Structural, Debug)]
pub enum Carrier {
    P1,
    P2,
    Cloud,
}

/// One of the five molecule types, in the fixed scan order.
#[derive(Clone, Copy, PartialEq, Eq, Structural, Debug)]
pub enum Molecule {
    A,
    B,
    C,
    D,
    E,
}

/// The molecule type at position `k` of the fixed scan order.
pub open spec fn molecule_of(k: int) -> Molecule {
    if k == 0 {
        Molecule::A
    } else if k == 1 {
        Molecule::B
    } else if k == 2 {
        Molecule::C
    } else if k == 3 {
        Molecule::D
    } else {
        Molecule::E
    }
}

impl Molecule {
    /// The molecule type with the given index, 0 through 4.
    pub fn from(id: u8) -> (m: Molecule)
        requires
            id < 5,
        ensures
            m == molecule_of(id as int),
    {
        match id {
            0 => Molecule::A,
            1 => Molecule::B,
            2 => Molecule::C,
            3 => Molecule::D,
            _ => Molecule::E,
        }
    }
}

/// One player's status for the turn: the zone it targets, the remaining
/// travel time, its score, and its per-type molecule storage and expertise.
pub struct PlayerInfo {
    pub target: Module,
    pub eta: u32,
    pub score: u32,
    pub storage: [u8; 5],
    pub expertise: [u8; 5],
}

/// One sample task: its identifier, its carrier, its difficulty rank,
/// whether it has been diagnosed, the medicine it produces, its reward,
/// and the molecules it costs. Health and cost hold sentinel values until
/// the task is diagnosed.
pub struct SampleInfo {
    pub id: u32,
    pub carried_by: Carrier,
    pub rank: u8,
    pub diagnosed: bool,
    pub gain: String,
    pub health: i8,
    pub cost: [i8; 5],
}

/// The full snapshot the engine receives each turn.
pub struct TurnInput {
    pub p1: PlayerInfo,
    pub p2: PlayerInfo,
    pub available: [u32; 5],
    pub samples: Vec<SampleInfo>,
}

/// The single action the engine emits each turn.
#[derive(Clone, Copy, PartialEq, Eq, Structural, Debug)]
pub enum PlayerOp {
    GoTo(Module),
    ConnectRank(u8),
    ConnectSample(u32),
    ConnectMolecule(Molecule),
    Wait,
}

/// The task is held by the player.
pub open spec fn self_held(s: SampleInfo) -> bool {
    s.carried_by == Carrier::P1
}

/// The task is held by the player and has been diagnosed, so its cost
/// vector is meaningful.
pub open spec fn held_diagnosed(s: SampleInfo) -> bool {
    self_held(s) && s.diagnosed
}

/// A diagnosed task's cost entries are plain counts: non-negative, no
/// sentinel left.
pub open spec fn cost_ok(s: SampleInfo) -> bool {
    forall|k: int| 0 <= k < 5 ==> s.cost@[k] >= 0
}

/// Total molecules of all types in a player's storage.
pub open spec fn storage_total(p: PlayerInfo) -> int {
    p.storage@[0] + p.storage@[1] + p.storage@[2] + p.storage@[3] + p.storage@[4]
}

/// Total molecules of all types that one task costs.
pub open spec fn cost_total(s: SampleInfo) -> int {
    s.cost@[0] + s.cost@[1] + s.cost@[2] + s.cost@[3] + s.cost@[4]
}

impl TurnInput {
    /// A snapshot the feed has validated: a bounded task list, no sentinel
    /// cost on a diagnosed task, and storage within the fixed capacity.
    pub open spec fn wf(self) -> bool {
        &&& self.samples@.len() <= 100
        &&& forall|i: int|
            0 <= i < self.samples@.len() && (#[trigger] self.samples@[i]).diagnosed
                ==> cost_ok(self.samples@[i])
        &&& storage_total(self.p1) <= MAX_MOLECULES
    }
}

} // verus!
