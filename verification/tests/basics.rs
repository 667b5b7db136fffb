use lay_simulator_blueqat::{BlueqatMeasured, Error};

#[test]
fn it_works() {
    assert_eq!(2 + 2, 4);
}

#[test]
fn new_measured_reads_false_everywhere() {
    let measured = BlueqatMeasured::new();
    for slot in 0..64u32 {
        assert_eq!(measured.get(slot), false);
    }
}

#[test]
fn set_changes_one_slot_only() {
    let mut measured = BlueqatMeasured::new();
    measured.set(0, true);
    measured.set(63, true);
    measured.set(17, true);
    measured.set(17, false);
    for slot in 0..64u32 {
        assert_eq!(measured.get(slot), slot == 0 || slot == 63);
    }
}

#[test]
fn each_error_has_its_own_message() {
    let busy = Error::ResourceBusy.message();
    let conflict = Error::SlotConflict.message();
    let engine = Error::EngineError.message();
    assert_eq!(busy, "the engine session is in use");
    assert_eq!(conflict, "qubit measured again before its result was read back");
    assert_eq!(engine, "the engine rejected the script or produced no sample");
    assert_ne!(busy, conflict);
    assert_ne!(conflict, engine);
}
