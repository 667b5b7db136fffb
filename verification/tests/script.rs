use lay_simulator_blueqat::script::{append_decimal, op_to_script, ops_to_script};
use lay_simulator_blueqat::{raw_pyscript, BinaryGate, Operation, UnaryGate};

fn decimal(n: u32) -> String {
    let mut text = String::new();
    append_decimal(&mut text, n);
    text
}

#[test]
fn decimal_notation_of_edge_values() {
    assert_eq!(decimal(0), "0");
    assert_eq!(decimal(9), "9");
    assert_eq!(decimal(10), "10");
    assert_eq!(decimal(63), "63");
    assert_eq!(decimal(100), "100");
    assert_eq!(decimal(1_000_000_007), "1000000007");
    assert_eq!(decimal(u32::MAX), "4294967295");
}

#[test]
fn decimal_notation_agrees_with_the_standard_library() {
    for n in (0..5000u32).chain([65_535, 65_536, 999_999_999, 4_294_967_290]) {
        assert_eq!(decimal(n), n.to_string());
    }
}

#[test]
fn append_decimal_keeps_what_was_there() {
    let mut text = "c.x[".to_owned();
    append_decimal(&mut text, 42);
    assert_eq!(text, "c.x[42");
}

#[test]
fn each_operation_has_its_line() {
    assert_eq!(op_to_script(&Operation::Init), "c = Circuit()");
    assert_eq!(op_to_script(&Operation::Measure(3, 60)), "c.m[3]");
    assert_eq!(op_to_script(&Operation::Binary(BinaryGate::Cx, 0, 12)), "c.cx[0, 12]");
    assert_eq!(op_to_script(&Operation::Unary(UnaryGate::X, 0)), "c.x[0]");
    assert_eq!(op_to_script(&Operation::Unary(UnaryGate::Y, 1)), "c.y[1]");
    assert_eq!(op_to_script(&Operation::Unary(UnaryGate::Z, 2)), "c.z[2]");
    assert_eq!(op_to_script(&Operation::Unary(UnaryGate::H, 3)), "c.h[3]");
    assert_eq!(op_to_script(&Operation::Unary(UnaryGate::S, 4)), "c.s[4]");
    assert_eq!(op_to_script(&Operation::Unary(UnaryGate::Sdg, 5)), "c.sdg[5]");
    assert_eq!(op_to_script(&Operation::Unary(UnaryGate::T, 6)), "c.t[6]");
    assert_eq!(op_to_script(&Operation::Unary(UnaryGate::Tdg, 70)), "c.tdg[70]");
    assert_eq!(
        op_to_script(&raw_pyscript("if True: c.x[0]".to_owned())),
        "if True: c.x[0]"
    );
}

#[test]
fn the_slot_of_a_measurement_is_not_written() {
    assert_eq!(
        op_to_script(&Operation::Measure(5, 0)),
        op_to_script(&Operation::Measure(5, 63))
    );
}

#[test]
fn a_script_joins_the_lines_with_line_feeds() {
    let ops = vec![
        Operation::Init,
        Operation::Unary(UnaryGate::H, 0),
        Operation::Binary(BinaryGate::Cx, 0, 1),
        Operation::Measure(0, 0),
        Operation::Measure(1, 1),
    ];
    assert_eq!(
        ops_to_script(&ops),
        "c = Circuit()\nc.h[0]\nc.cx[0, 1]\nc.m[0]\nc.m[1]"
    );
}

#[test]
fn the_script_of_nothing_is_empty() {
    assert_eq!(ops_to_script(&[]), "");
}

#[test]
fn the_script_of_one_operation_is_its_line() {
    assert_eq!(ops_to_script(&[Operation::Unary(UnaryGate::T, 9)]), "c.t[9]");
}

#[test]
fn raw_lines_pass_through_even_when_empty() {
    let ops = vec![
        raw_pyscript(String::new()),
        raw_pyscript("print(np.eye(2))".to_owned()),
        raw_pyscript(String::new()),
    ];
    assert_eq!(ops_to_script(&ops), "\nprint(np.eye(2))\n");
}

#[test]
fn the_script_of_two_batches_is_their_scripts_in_order() {
    let first = vec![Operation::Init, Operation::Unary(UnaryGate::X, 1)];
    let second = vec![
        Operation::Binary(BinaryGate::Cx, 1, 2),
        raw_pyscript("print(c)".to_owned()),
        Operation::Measure(2, 0),
    ];
    let mut both = first.clone();
    both.extend(second.iter().cloned());
    assert_eq!(
        ops_to_script(&both),
        format!("{}\n{}", ops_to_script(&first), ops_to_script(&second))
    );
}
