use medlab::engine::next_move;
use medlab::model::Carrier;
use medlab::model::Module;
use medlab::model::Molecule;
use medlab::model::PlayerInfo;
use medlab::model::PlayerOp;
use medlab::model::SampleInfo;
use medlab::model::TurnInput;

fn player(target: Module, storage: [u8; 5]) -> PlayerInfo {
    PlayerInfo { target, eta: 0, score: 0, storage, expertise: [0; 5] }
}

fn task(id: u32, carried_by: Carrier, rank: u8, diagnosed: bool, health: i8, cost: [i8; 5]) -> SampleInfo {
    SampleInfo { id, carried_by, rank, diagnosed, gain: String::from("A"), health, cost }
}

fn snapshot(target: Module, storage: [u8; 5], samples: Vec<SampleInfo>) -> TurnInput {
    TurnInput {
        p1: player(target, storage),
        p2: player(Module::StartPosition, [0; 5]),
        available: [5; 5],
        samples,
    }
}

#[test]
fn start_position_moves_to_samples() {
    let t = snapshot(
        Module::StartPosition,
        [1, 2, 3, 0, 0],
        vec![task(4, Carrier::P1, 2, false, -1, [-1; 5])],
    );
    assert_eq!(next_move(&t), PlayerOp::GoTo(Module::Samples));
}

#[test]
fn samples_requests_rank_two_first() {
    let t = snapshot(Module::Samples, [0; 5], vec![]);
    assert_eq!(next_move(&t), PlayerOp::ConnectRank(2));
}

#[test]
fn samples_requests_rank_one_next() {
    let t = snapshot(
        Module::Samples,
        [0; 5],
        vec![task(1, Carrier::P1, 2, false, -1, [-1; 5])],
    );
    assert_eq!(next_move(&t), PlayerOp::ConnectRank(1));
}

#[test]
fn samples_done_moves_to_diagnosis() {
    let t = snapshot(
        Module::Samples,
        [0; 5],
        vec![
            task(1, Carrier::P1, 2, false, -1, [-1; 5]),
            task(2, Carrier::P1, 1, false, -1, [-1; 5]),
        ],
    );
    assert_eq!(next_move(&t), PlayerOp::GoTo(Module::Diagnosis));
}

#[test]
fn samples_ignores_other_carriers() {
    let t = snapshot(
        Module::Samples,
        [0; 5],
        vec![
            task(1, Carrier::P2, 2, true, 10, [1, 0, 0, 0, 0]),
            task(2, Carrier::Cloud, 1, true, 1, [0, 1, 0, 0, 0]),
        ],
    );
    assert_eq!(next_move(&t), PlayerOp::ConnectRank(2));
}

#[test]
fn diagnosis_requests_first_undiagnosed() {
    let t = snapshot(
        Module::Diagnosis,
        [0; 5],
        vec![
            task(7, Carrier::P1, 1, false, -1, [-1; 5]),
            task(9, Carrier::P1, 1, true, 10, [2, 0, 1, 0, 0]),
        ],
    );
    assert_eq!(next_move(&t), PlayerOp::ConnectSample(7));
}

#[test]
fn diagnosis_skips_diagnosed_before_undiagnosed() {
    let t = snapshot(
        Module::Diagnosis,
        [0; 5],
        vec![
            task(9, Carrier::P1, 1, true, 10, [2, 0, 1, 0, 0]),
            task(7, Carrier::P1, 1, false, -1, [-1; 5]),
        ],
    );
    assert_eq!(next_move(&t), PlayerOp::ConnectSample(7));
}

#[test]
fn diagnosis_all_diagnosed_moves_on() {
    let t = snapshot(
        Module::Diagnosis,
        [0; 5],
        vec![
            task(9, Carrier::P1, 1, true, 10, [2, 0, 1, 0, 0]),
            task(3, Carrier::Cloud, 1, false, -1, [-1; 5]),
        ],
    );
    assert_eq!(next_move(&t), PlayerOp::GoTo(Module::Molecules));
}

#[test]
fn diagnosis_empty_moves_on() {
    let t = snapshot(Module::Diagnosis, [0; 5], vec![]);
    assert_eq!(next_move(&t), PlayerOp::GoTo(Module::Molecules));
}

#[test]
fn decide_is_idempotent_on_identical_snapshot() {
    let t = snapshot(
        Module::Diagnosis,
        [1, 1, 0, 0, 0],
        vec![
            task(7, Carrier::P1, 1, false, -1, [-1; 5]),
            task(9, Carrier::P1, 2, true, 10, [2, 0, 1, 0, 0]),
        ],
    );
    assert_eq!(next_move(&t), next_move(&t));
}

#[test]
fn molecules_narrows_to_rank_two_task() {
    let t = snapshot(
        Module::Molecules,
        [2, 2, 2, 2, 2],
        vec![
            task(1, Carrier::P1, 2, true, 20, [3, 0, 0, 0, 0]),
            task(2, Carrier::P1, 1, true, 1, [0, 2, 2, 2, 2]),
        ],
    );
    assert_eq!(next_move(&t), PlayerOp::ConnectMolecule(Molecule::A));
}

#[test]
fn molecules_requests_first_deficient_type() {
    let t = snapshot(
        Module::Molecules,
        [1, 0, 1, 0, 0],
        vec![task(1, Carrier::P1, 1, true, 1, [1, 0, 2, 0, 0])],
    );
    assert_eq!(next_move(&t), PlayerOp::ConnectMolecule(Molecule::C));
}

#[test]
fn molecules_satisfied_moves_to_laboratory() {
    let t = snapshot(
        Module::Molecules,
        [1, 0, 2, 0, 0],
        vec![task(1, Carrier::P1, 1, true, 1, [1, 0, 2, 0, 0])],
    );
    assert_eq!(next_move(&t), PlayerOp::GoTo(Module::Laboratory));
}

#[test]
fn molecules_ignores_undiagnosed_costs() {
    let t = snapshot(
        Module::Molecules,
        [0; 5],
        vec![task(1, Carrier::P1, 1, false, -1, [-1; 5])],
    );
    assert_eq!(next_move(&t), PlayerOp::GoTo(Module::Laboratory));
}

#[test]
fn laboratory_cashes_exact_cost_match() {
    let t = snapshot(
        Module::Laboratory,
        [2, 2, 2, 0, 0],
        vec![task(5, Carrier::P1, 1, true, 1, [3, 2, 1, 0, 0])],
    );
    assert_eq!(next_move(&t), PlayerOp::ConnectSample(5));
}

#[test]
fn laboratory_moves_on_when_nothing_ready() {
    let t = snapshot(
        Module::Laboratory,
        [2, 2, 2, 1, 0],
        vec![task(5, Carrier::P1, 1, true, 1, [3, 2, 1, 0, 0])],
    );
    assert_eq!(next_move(&t), PlayerOp::GoTo(Module::Samples));
}

#[test]
fn laboratory_takes_rank_two_regardless_of_sums() {
    let t = snapshot(
        Module::Laboratory,
        [0, 0, 0, 0, 1],
        vec![task(8, Carrier::P1, 2, true, 20, [3, 2, 1, 0, 0])],
    );
    assert_eq!(next_move(&t), PlayerOp::ConnectSample(8));
}

#[test]
fn molecule_from_maps_each_index() {
    assert_eq!(Molecule::from(0), Molecule::A);
    assert_eq!(Molecule::from(1), Molecule::B);
    assert_eq!(Molecule::from(2), Molecule::C);
    assert_eq!(Molecule::from(3), Molecule::D);
    assert_eq!(Molecule::from(4), Molecule::E);
}
