use lay::operations::opid;
use lay_simulator_blueqat::{raw_pyscript, BinaryGate, Operation, UnaryGate};

const UNARY: [UnaryGate; 8] = [
    UnaryGate::X,
    UnaryGate::Y,
    UnaryGate::Z,
    UnaryGate::H,
    UnaryGate::S,
    UnaryGate::Sdg,
    UnaryGate::T,
    UnaryGate::Tdg,
];

#[test]
fn unary_gates_carry_the_identifiers_of_lay() {
    assert_eq!(UnaryGate::X.opid(), opid::X);
    assert_eq!(UnaryGate::Y.opid(), opid::Y);
    assert_eq!(UnaryGate::Z.opid(), opid::Z);
    assert_eq!(UnaryGate::H.opid(), opid::H);
    assert_eq!(UnaryGate::S.opid(), opid::S);
    assert_eq!(UnaryGate::Sdg.opid(), opid::SDG);
    assert_eq!(UnaryGate::T.opid(), opid::T);
    assert_eq!(UnaryGate::Tdg.opid(), opid::TDG);
    assert_eq!(BinaryGate::Cx.opid(), opid::CX);
}

#[test]
fn identifiers_have_the_documented_values() {
    let ids: Vec<u16> = UNARY.iter().map(|g| g.opid()).collect();
    assert_eq!(ids, vec![3, 4, 5, 6, 7, 8, 9, 10]);
    assert_eq!(BinaryGate::Cx.opid(), 11);
    assert_eq!(Operation::Init.opid(), 1);
    assert_eq!(Operation::Measure(4, 9).opid(), 2);
    assert_eq!(Operation::Unary(UnaryGate::H, 2).opid(), 6);
    assert_eq!(Operation::Binary(BinaryGate::Cx, 0, 1).opid(), 11);
    assert_eq!(raw_pyscript("pass".to_owned()).opid(), 256);
}

#[test]
fn from_opid_inverts_opid() {
    for gate in UNARY {
        assert_eq!(UnaryGate::from_opid(gate.opid()), Some(gate));
    }
    assert_eq!(BinaryGate::from_opid(BinaryGate::Cx.opid()), Some(BinaryGate::Cx));
}

#[test]
fn from_opid_refuses_other_numbers() {
    for id in [0u16, 1, 2, 11, 12, 255, 256, u16::MAX] {
        assert_eq!(UnaryGate::from_opid(id), None);
    }
    for id in [0u16, 1, 2, 3, 10, 12, 256, u16::MAX] {
        assert_eq!(BinaryGate::from_opid(id), None);
    }
}

#[test]
fn operations_are_read_from_the_shapes_lay_writes() {
    assert_eq!(Operation::from_empty(opid::INIT), Some(Operation::Init));
    assert_eq!(Operation::from_empty(opid::MEAS), None);
    assert_eq!(Operation::from_q(opid::X, 5), Some(Operation::Unary(UnaryGate::X, 5)));
    assert_eq!(Operation::from_q(opid::TDG, 0), Some(Operation::Unary(UnaryGate::Tdg, 0)));
    assert_eq!(Operation::from_q(opid::CX, 5), None);
    assert_eq!(
        Operation::from_qq(opid::CX, 1, 2),
        Some(Operation::Binary(BinaryGate::Cx, 1, 2))
    );
    assert_eq!(Operation::from_qq(opid::X, 1, 2), None);
    assert_eq!(Operation::from_qs(opid::MEAS, 3, 4), Some(Operation::Measure(3, 4)));
    assert_eq!(Operation::from_qs(opid::INIT, 3, 4), None);
    assert_eq!(
        Operation::from_var(opid::USERDEF, "print(1)".to_owned()),
        Some(Operation::Raw("print(1)".to_owned()))
    );
    assert_eq!(Operation::from_var(opid::X, "print(1)".to_owned()), None);
}

#[test]
fn raw_pyscript_keeps_the_text() {
    assert_eq!(
        raw_pyscript("import numpy as np".to_owned()),
        Operation::Raw("import numpy as np".to_owned())
    );
    assert_eq!(raw_pyscript(String::new()), Operation::Raw(String::new()));
}

#[test]
fn a_clone_equals_what_was_cloned() {
    let ops = vec![
        Operation::Init,
        Operation::Unary(UnaryGate::Sdg, 7),
        Operation::Binary(BinaryGate::Cx, 8, 9),
        Operation::Measure(1, 2),
        Operation::Raw("x = 1".to_owned()),
    ];
    for op in &ops {
        assert_eq!(&op.clone(), op);
    }
}
