use lay_simulator_blueqat::steane::{
    RecoveryAction, RecoveryEvent, RecoveryPhase, ERR_TABLE_X, ERR_TABLE_Z, X_CHECKS, Z_CHECKS,
};
use lay_simulator_blueqat::{
    Batch, BinaryGate, BlueqatMeasured, Error, Operation, SteaneLayer, UnaryGate,
};

fn h(q: u32) -> Operation {
    Operation::Unary(UnaryGate::H, q)
}

fn x(q: u32) -> Operation {
    Operation::Unary(UnaryGate::X, q)
}

fn z(q: u32) -> Operation {
    Operation::Unary(UnaryGate::Z, q)
}

fn cx(c: u32, t: u32) -> Operation {
    Operation::Binary(BinaryGate::Cx, c, t)
}

/// The syndrome circuit of the logical qubit at `base`, with the ancillas from `m0` on.
fn circuit(base: u32, m0: u32) -> Vec<Operation> {
    let mut ops = Vec::new();
    for j in 0..7 {
        ops.push(h(base + j));
    }
    ops.push(cx(base, m0));
    ops.push(cx(base + 1, m0 + 1));
    ops.push(cx(base + 2, m0 + 2));
    ops.push(cx(base + 3, m0 + 1));
    ops.push(cx(base + 3, m0 + 2));
    ops.push(cx(base + 4, m0));
    ops.push(cx(base + 4, m0 + 2));
    ops.push(cx(base + 5, m0));
    ops.push(cx(base + 5, m0 + 1));
    ops.push(cx(base + 5, m0 + 2));
    ops.push(cx(base + 6, m0));
    ops.push(cx(base + 6, m0 + 1));
    for j in 0..7 {
        ops.push(h(base + j));
    }
    ops.push(cx(base, m0 + 3));
    ops.push(cx(base, m0 + 5));
    ops.push(cx(base + 1, m0 + 4));
    ops.push(cx(base + 1, m0 + 5));
    ops.push(cx(base + 2, m0 + 3));
    ops.push(cx(base + 2, m0 + 4));
    ops.push(cx(base + 2, m0 + 5));
    ops.push(cx(base + 3, m0 + 3));
    ops.push(cx(base + 4, m0 + 4));
    ops.push(cx(base + 5, m0 + 5));
    ops.push(cx(base + 6, m0 + 3));
    ops.push(cx(base + 6, m0 + 4));
    for j in 0..6 {
        ops.push(Operation::Measure(m0 + j, m0 + j));
    }
    ops
}

/// The slots as they are read back when the six ancillas from `m0` on show `syndrome`.
fn measured(m0: u32, syndrome: u32) -> BlueqatMeasured {
    let mut buf = BlueqatMeasured::new();
    for j in 0..6 {
        buf.set(m0 + j, syndrome & (1 << j) != 0);
    }
    buf
}

fn send_receive(action: RecoveryAction) -> Batch {
    match action {
        RecoveryAction::SendReceive(batch) => batch,
        other => panic!("expected a batch to send and read back, got {:?}", other),
    }
}

fn send(action: RecoveryAction) -> Batch {
    match action {
        RecoveryAction::Send(batch) => batch,
        other => panic!("expected a batch to send, got {:?}", other),
    }
}

#[test]
fn a_layer_counts_seven_qubits_per_logical_qubit_and_six_ancillas() {
    let layer = SteaneLayer::new(1);
    assert_eq!(layer.logical_qubits(), 1);
    assert_eq!(layer.physical_qubits(), 13);
    assert_eq!(layer.measure_ancilla(), 7);
    let layer = SteaneLayer::new(2);
    assert_eq!(layer.physical_qubits(), 20);
    assert_eq!(layer.measure_ancilla(), 14);
    let layer = SteaneLayer::new(8);
    assert_eq!(layer.physical_qubits(), 62);
    assert_eq!(layer.measure_ancilla(), 56);
    let layer = SteaneLayer::new(0);
    assert_eq!(layer.physical_qubits(), 6);
    assert_eq!(layer.measure_ancilla(), 0);
    assert_eq!(layer.phase(), RecoveryPhase::Idle);
}

#[test]
fn logical_gates_go_to_all_seven_physical_qubits() {
    let mut layer = SteaneLayer::new(2);
    layer.x(0);
    layer.y(1);
    layer.z(0);
    layer.h(1);
    layer.s(0);
    layer.sdg(1);
    let mut expected = Vec::new();
    for (gate, base) in [
        (UnaryGate::X, 0),
        (UnaryGate::Y, 7),
        (UnaryGate::Z, 0),
        (UnaryGate::H, 7),
        (UnaryGate::S, 0),
        (UnaryGate::Sdg, 7),
    ] {
        for j in 0..7u32 {
            expected.push(Operation::Unary(gate, base + j));
        }
    }
    assert_eq!(layer.buffered().as_slice(), expected.as_slice());
}

#[test]
fn logical_cx_pairs_equal_offsets() {
    let mut layer = SteaneLayer::new(3);
    layer.cx(2, 0);
    let expected: Vec<Operation> = (0..7u32).map(|j| cx(14 + j, j)).collect();
    assert_eq!(layer.buffered().as_slice(), expected.as_slice());
}

#[test]
fn logical_gates_reach_beyond_the_layer_without_overflow() {
    let mut layer = SteaneLayer::new(1);
    layer.x(255);
    let expected: Vec<Operation> = (0..7u32).map(|j| x(1785 + j)).collect();
    assert_eq!(layer.buffered().as_slice(), expected.as_slice());
}

#[test]
fn initialize_starts_a_fresh_circuit() {
    let mut layer = SteaneLayer::new(1);
    layer.x(0);
    layer.initialize();
    assert_eq!(layer.buffered().as_slice(), &[Operation::Init]);
    assert_eq!(layer.phase(), RecoveryPhase::Idle);
}

#[test]
fn the_syndrome_circuit_follows_what_is_buffered() {
    let mut layer = SteaneLayer::new(1);
    layer.initialize();
    let batch = send_receive(layer.syndrome_measure_and_recover(RecoveryEvent::Start));
    let mut expected = vec![Operation::Init];
    expected.extend(circuit(0, 7));
    assert_eq!(batch.ops(), expected.as_slice());
    assert_eq!(batch.len(), 1 + 7 + 12 + 7 + 12 + 6);
    for j in 0..6u32 {
        assert_eq!(batch.slots().get(7 + j), Some(7 + j));
    }
    assert_eq!(batch.slots().get(6), None);
    assert_eq!(layer.phase(), RecoveryPhase::AwaitingSyndrome);
    assert_eq!(layer.buffered().len(), 0);
}

#[test]
fn no_error_no_correction() {
    let mut layer = SteaneLayer::new(1);
    layer.initialize();
    send_receive(layer.syndrome_measure_and_recover(RecoveryEvent::Start));
    let batch = send(layer.syndrome_measure_and_recover(RecoveryEvent::Measured(measured(7, 0))));
    assert_eq!(batch.len(), 0);
    assert_eq!(layer.phase(), RecoveryPhase::Corrected);
    assert!(matches!(
        layer.syndrome_measure_and_recover(RecoveryEvent::Sent),
        RecoveryAction::Done
    ));
    assert_eq!(layer.phase(), RecoveryPhase::Idle);
}

#[test]
fn the_syndrome_of_offset_three_corrects_qubit_three() {
    let mut layer = SteaneLayer::new(1);
    layer.initialize();
    send_receive(layer.syndrome_measure_and_recover(RecoveryEvent::Start));
    // offset 3 takes part in the checks of ancillas 1 and 2: the X-syndrome reads 0b110
    assert_eq!(X_CHECKS[3], 6);
    assert_eq!(ERR_TABLE_X[6], 3);
    let batch = send(layer.syndrome_measure_and_recover(RecoveryEvent::Measured(measured(7, 6))));
    assert_eq!(batch.ops(), &[x(8), x(9), x(3)]);
    assert!(matches!(
        layer.syndrome_measure_and_recover(RecoveryEvent::Sent),
        RecoveryAction::Done
    ));
    // the next cycle finds nothing left
    let again = send_receive(layer.syndrome_measure_and_recover(RecoveryEvent::Start));
    assert_eq!(again.ops(), circuit(0, 7).as_slice());
    let batch = send(layer.syndrome_measure_and_recover(RecoveryEvent::Measured(measured(7, 0))));
    assert_eq!(batch.len(), 0);
}

#[test]
fn every_x_syndrome_corrects_the_qubit_that_raises_it() {
    for offset in 0..7u32 {
        let syndrome = X_CHECKS[offset as usize] as u32;
        let mut layer = SteaneLayer::new(2);
        send_receive(layer.syndrome_measure_and_recover(RecoveryEvent::Start));
        let batch = send(
            layer.syndrome_measure_and_recover(RecoveryEvent::Measured(measured(14, syndrome))),
        );
        let mut expected: Vec<Operation> =
            (0..3).filter(|j| syndrome & (1 << j) != 0).map(|j| x(14 + j)).collect();
        expected.push(x(offset));
        assert_eq!(batch.ops(), expected.as_slice(), "offset {}", offset);
    }
}

#[test]
fn every_z_syndrome_corrects_the_qubit_that_raises_it() {
    for offset in 0..7u32 {
        let syndrome = Z_CHECKS[offset as usize] as u32;
        let mut layer = SteaneLayer::new(2);
        send_receive(layer.syndrome_measure_and_recover(RecoveryEvent::Start));
        let batch = send(layer.syndrome_measure_and_recover(RecoveryEvent::Measured(measured(
            14,
            syndrome << 3,
        ))));
        let mut expected: Vec<Operation> =
            (0..3).filter(|j| syndrome & (1 << j) != 0).map(|j| x(17 + j)).collect();
        expected.push(z(offset));
        assert_eq!(batch.ops(), expected.as_slice(), "offset {}", offset);
    }
}

#[test]
fn both_halves_are_corrected_in_one_batch() {
    let mut layer = SteaneLayer::new(1);
    send_receive(layer.syndrome_measure_and_recover(RecoveryEvent::Start));
    // X-syndrome 0b011 decodes to offset 6, Z-syndrome 0b101 to offset 0
    let batch = send(
        layer.syndrome_measure_and_recover(RecoveryEvent::Measured(measured(7, 0b101_011))),
    );
    assert_eq!(batch.ops(), &[x(7), x(8), x(10), x(12), x(6), z(0)]);
}

#[test]
fn the_tables_are_the_fixed_ones() {
    assert_eq!(&ERR_TABLE_X[1..], &[0, 1, 6, 2, 4, 3, 5]);
    assert_eq!(&ERR_TABLE_Z[1..], &[3, 4, 6, 5, 0, 1, 2]);
}

#[test]
fn each_table_sends_the_seven_syndromes_to_seven_offsets() {
    for table in [ERR_TABLE_X, ERR_TABLE_Z] {
        let mut seen = [false; 7];
        for syndrome in 1..8usize {
            let offset = table[syndrome] as usize;
            assert!(offset < 7);
            assert!(!seen[offset]);
            seen[offset] = true;
        }
        assert!(seen.iter().all(|s| *s));
    }
}

#[test]
fn the_tables_undo_the_checks() {
    for offset in 0..7usize {
        assert_eq!(ERR_TABLE_X[X_CHECKS[offset] as usize], offset as u32);
        assert_eq!(ERR_TABLE_Z[Z_CHECKS[offset] as usize], offset as u32);
    }
}

#[test]
fn the_cycle_takes_the_logical_qubits_in_order() {
    let mut layer = SteaneLayer::new(3);
    layer.initialize();
    let first = send_receive(layer.syndrome_measure_and_recover(RecoveryEvent::Start));
    let mut expected = vec![Operation::Init];
    expected.extend(circuit(0, 21));
    assert_eq!(first.ops(), expected.as_slice());
    let fix = send(layer.syndrome_measure_and_recover(RecoveryEvent::Measured(measured(21, 1))));
    assert_eq!(fix.ops(), &[x(21), x(0)]);
    let second = send_receive(layer.syndrome_measure_and_recover(RecoveryEvent::Sent));
    assert_eq!(second.ops(), circuit(7, 21).as_slice());
    let fix = send(
        layer.syndrome_measure_and_recover(RecoveryEvent::Measured(measured(21, 0b001_000))),
    );
    assert_eq!(fix.ops(), &[x(24), z(7 + 3)]);
    let third = send_receive(layer.syndrome_measure_and_recover(RecoveryEvent::Sent));
    assert_eq!(third.ops(), circuit(14, 21).as_slice());
    let fix = send(layer.syndrome_measure_and_recover(RecoveryEvent::Measured(measured(21, 0))));
    assert_eq!(fix.len(), 0);
    assert!(matches!(
        layer.syndrome_measure_and_recover(RecoveryEvent::Sent),
        RecoveryAction::Done
    ));
    assert_eq!(layer.phase(), RecoveryPhase::Idle);
}

#[test]
fn a_layer_without_logical_qubits_is_done_at_once() {
    let mut layer = SteaneLayer::new(0);
    assert!(matches!(
        layer.syndrome_measure_and_recover(RecoveryEvent::Start),
        RecoveryAction::Done
    ));
    assert_eq!(layer.phase(), RecoveryPhase::Idle);
}

#[test]
fn an_event_that_does_not_fit_the_phase_changes_nothing() {
    let mut layer = SteaneLayer::new(1);
    layer.x(0);
    for event in [
        RecoveryEvent::Sent,
        RecoveryEvent::Failed,
        RecoveryEvent::Measured(measured(7, 63)),
    ] {
        assert!(matches!(
            layer.syndrome_measure_and_recover(event),
            RecoveryAction::Unexpected
        ));
        assert_eq!(layer.phase(), RecoveryPhase::Idle);
        assert_eq!(layer.buffered().len(), 7);
    }
    send_receive(layer.syndrome_measure_and_recover(RecoveryEvent::Start));
    for event in [RecoveryEvent::Start, RecoveryEvent::Sent] {
        assert!(matches!(
            layer.syndrome_measure_and_recover(event),
            RecoveryAction::Unexpected
        ));
        assert_eq!(layer.phase(), RecoveryPhase::AwaitingSyndrome);
    }
    send(layer.syndrome_measure_and_recover(RecoveryEvent::Measured(measured(7, 0))));
    for event in [RecoveryEvent::Start, RecoveryEvent::Measured(measured(7, 1))] {
        assert!(matches!(
            layer.syndrome_measure_and_recover(event),
            RecoveryAction::Unexpected
        ));
        assert_eq!(layer.phase(), RecoveryPhase::Corrected);
    }
}

#[test]
fn a_failure_of_the_engine_ends_the_cycle() {
    let mut layer = SteaneLayer::new(2);
    send_receive(layer.syndrome_measure_and_recover(RecoveryEvent::Start));
    assert!(matches!(
        layer.syndrome_measure_and_recover(RecoveryEvent::Failed),
        RecoveryAction::Aborted
    ));
    assert_eq!(layer.phase(), RecoveryPhase::Idle);
    assert_eq!(layer.buffered().len(), 0);
    // a new cycle starts with the first logical qubit again
    let batch = send_receive(layer.syndrome_measure_and_recover(RecoveryEvent::Start));
    assert_eq!(batch.ops(), circuit(0, 14).as_slice());
    send(layer.syndrome_measure_and_recover(RecoveryEvent::Measured(measured(14, 0))));
    assert!(matches!(
        layer.syndrome_measure_and_recover(RecoveryEvent::Failed),
        RecoveryAction::Aborted
    ));
    assert_eq!(layer.phase(), RecoveryPhase::Idle);
}

#[test]
fn an_injected_gate_travels_with_the_next_batch() {
    let mut layer = SteaneLayer::new(2);
    layer.physical(UnaryGate::X, 12);
    let batch = send_receive(layer.syndrome_measure_and_recover(RecoveryEvent::Start));
    let mut expected = vec![x(12)];
    expected.extend(circuit(0, 14));
    assert_eq!(batch.ops(), expected.as_slice());
}

#[test]
fn gates_given_while_a_syndrome_is_awaited_precede_the_correction() {
    let mut layer = SteaneLayer::new(1);
    send_receive(layer.syndrome_measure_and_recover(RecoveryEvent::Start));
    layer.physical(UnaryGate::Z, 5);
    let batch = send(layer.syndrome_measure_and_recover(RecoveryEvent::Measured(measured(7, 2))));
    assert_eq!(batch.ops(), &[z(5), x(8), x(1)]);
}

#[test]
fn flush_hands_out_what_is_buffered() {
    let mut layer = SteaneLayer::new(1);
    layer.h(0);
    let batch = layer.flush();
    assert_eq!(batch.len(), 7);
    assert_eq!(layer.buffered().len(), 0);
    assert_eq!(layer.flush().len(), 0);
}

#[test]
fn logical_measure_reads_seven_qubits_into_seven_slots() {
    let mut layer = SteaneLayer::new(3);
    assert_eq!(layer.measure(2, 0), Ok(()));
    let expected: Vec<Operation> = (0..7u32).map(|k| Operation::Measure(14 + k, k)).collect();
    assert_eq!(layer.buffered().as_slice(), expected.as_slice());
    for k in 0..7u32 {
        assert_eq!(layer.buffered().pending_slot(14 + k), Some(k));
    }
}

#[test]
fn measuring_a_logical_qubit_twice_is_a_slot_conflict() {
    let mut layer = SteaneLayer::new(2);
    assert_eq!(layer.measure(1, 1), Ok(()));
    assert_eq!(layer.measure(1, 0), Err(Error::SlotConflict));
    assert_eq!(layer.buffered().len(), 7);
    assert_eq!(layer.measure(0, 0), Ok(()));
    assert_eq!(layer.buffered().len(), 14);
    layer.flush();
    assert_eq!(layer.measure(1, 0), Ok(()));
}

#[test]
fn a_logical_measurement_leaves_with_the_syndrome_circuit() {
    let mut layer = SteaneLayer::new(1);
    layer.measure(0, 0).unwrap();
    let batch = send_receive(layer.syndrome_measure_and_recover(RecoveryEvent::Start));
    assert_eq!(batch.len(), 7 + 44);
    for q in 0..13u32 {
        assert_eq!(batch.slots().get(q), Some(q));
    }
    assert_eq!(layer.measure(0, 0), Ok(()));
}
