use lay_simulator_blueqat::{
    BinaryGate, BlueqatOperations, Error, Operation, RawScriptGate, UnaryGate,
};

#[test]
fn a_new_buffer_is_empty() {
    let mut ops = BlueqatOperations::new();
    assert_eq!(ops.len(), 0);
    assert!(ops.as_slice().is_empty());
    assert_eq!(ops.pending_slot(0), None);
    let batch = ops.flush();
    assert_eq!(batch.len(), 0);
    assert!(batch.slots().is_empty());
}

#[test]
fn operations_stay_in_the_order_they_were_given() {
    let mut ops = BlueqatOperations::new();
    ops.initialize();
    ops.x(0);
    ops.y(1);
    ops.z(2);
    ops.h(3);
    ops.s(4);
    ops.sdg(5);
    ops.t(6);
    ops.tdg(7);
    ops.cx(8, 9);
    ops.unary(UnaryGate::H, 100);
    ops.binary(BinaryGate::Cx, 100, 200);
    ops.raw_pyscript("print(c)".to_owned());
    ops.measure(8, 3).unwrap();
    let expected = vec![
        Operation::Init,
        Operation::Unary(UnaryGate::X, 0),
        Operation::Unary(UnaryGate::Y, 1),
        Operation::Unary(UnaryGate::Z, 2),
        Operation::Unary(UnaryGate::H, 3),
        Operation::Unary(UnaryGate::S, 4),
        Operation::Unary(UnaryGate::Sdg, 5),
        Operation::Unary(UnaryGate::T, 6),
        Operation::Unary(UnaryGate::Tdg, 7),
        Operation::Binary(BinaryGate::Cx, 8, 9),
        Operation::Unary(UnaryGate::H, 100),
        Operation::Binary(BinaryGate::Cx, 100, 200),
        Operation::Raw("print(c)".to_owned()),
        Operation::Measure(8, 3),
    ];
    assert_eq!(ops.len(), expected.len());
    assert_eq!(ops.as_slice(), expected.as_slice());
}

#[test]
fn measure_registers_the_slot() {
    let mut ops = BlueqatOperations::new();
    assert_eq!(ops.measure(5, 9), Ok(()));
    assert_eq!(ops.pending_slot(5), Some(9));
    assert_eq!(ops.pending_slot(9), None);
    assert_eq!(ops.pending_slot(4), None);
    assert_eq!(ops.pending_slot(1000), None);
}

#[test]
fn measuring_a_pending_qubit_again_is_a_slot_conflict() {
    let mut ops = BlueqatOperations::new();
    ops.initialize();
    assert_eq!(ops.measure(3, 0), Ok(()));
    assert_eq!(ops.measure(3, 1), Err(Error::SlotConflict));
    assert_eq!(ops.measure(3, 0), Err(Error::SlotConflict));
}

#[test]
fn a_refused_measurement_changes_nothing() {
    let mut ops = BlueqatOperations::new();
    ops.measure(3, 0).unwrap();
    ops.x(3);
    assert_eq!(ops.measure(3, 7), Err(Error::SlotConflict));
    assert_eq!(ops.len(), 2);
    assert_eq!(ops.pending_slot(3), Some(0));
    assert_eq!(
        ops.as_slice(),
        &[Operation::Measure(3, 0), Operation::Unary(UnaryGate::X, 3)]
    );
}

#[test]
fn the_conflict_lasts_whatever_comes_in_between() {
    let mut ops = BlueqatOperations::new();
    ops.measure(10, 10).unwrap();
    for q in 0..64u32 {
        ops.h(q);
        ops.cx(q, 10);
        ops.raw_pyscript("pass".to_owned());
        if q != 10 {
            ops.measure(q, 63 - q).unwrap();
        }
        assert_eq!(ops.measure(10, q), Err(Error::SlotConflict));
    }
}

#[test]
fn two_qubits_may_share_a_slot() {
    let mut ops = BlueqatOperations::new();
    assert_eq!(ops.measure(1, 5), Ok(()));
    assert_eq!(ops.measure(2, 5), Ok(()));
}

#[test]
fn the_last_qubit_and_slot_are_accepted() {
    let mut ops = BlueqatOperations::new();
    assert_eq!(ops.measure(63, 63), Ok(()));
    assert_eq!(ops.measure(0, 0), Ok(()));
    assert_eq!(ops.pending_slot(63), Some(63));
}

#[test]
fn flush_moves_everything_out() {
    let mut ops = BlueqatOperations::new();
    ops.initialize();
    ops.h(0);
    ops.measure(0, 4).unwrap();
    let batch = ops.flush();
    assert_eq!(
        batch.ops(),
        &[
            Operation::Init,
            Operation::Unary(UnaryGate::H, 0),
            Operation::Measure(0, 4)
        ]
    );
    assert_eq!(batch.len(), 3);
    assert_eq!(batch.slots().get(0), Some(4));
    assert_eq!(batch.slots().get(1), None);
    assert_eq!(ops.len(), 0);
    assert_eq!(ops.pending_slot(0), None);
}

#[test]
fn after_a_flush_the_qubit_can_be_measured_again() {
    let mut ops = BlueqatOperations::new();
    ops.measure(0, 0).unwrap();
    assert_eq!(ops.measure(0, 1), Err(Error::SlotConflict));
    let first = ops.flush();
    assert_eq!(ops.measure(0, 1), Ok(()));
    let second = ops.flush();
    assert_eq!(first.slots().get(0), Some(0));
    assert_eq!(second.slots().get(0), Some(1));
}

#[test]
fn initialize_drops_what_was_buffered() {
    let mut ops = BlueqatOperations::new();
    ops.x(1);
    ops.measure(1, 1).unwrap();
    ops.initialize();
    assert_eq!(ops.as_slice(), &[Operation::Init]);
    assert_eq!(ops.pending_slot(1), None);
    assert_eq!(ops.measure(1, 2), Ok(()));
}
