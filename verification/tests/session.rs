use lay_simulator_blueqat::{BlueqatSimulator, Error, SessionLock};

#[test]
fn a_new_lock_has_no_live_session() {
    let lock = SessionLock::new();
    assert!(!lock.is_live());
}

#[test]
fn a_second_session_is_refused_while_the_first_is_live() {
    let mut lock = SessionLock::new();
    let first = lock.acquire();
    assert!(first.is_ok());
    assert!(lock.is_live());
    let second = lock.acquire();
    assert_eq!(second.err(), Some(Error::ResourceBusy));
    assert!(lock.is_live());
    let third = BlueqatSimulator::new(&mut lock);
    assert_eq!(third.err(), Some(Error::ResourceBusy));
}

#[test]
fn after_release_a_session_is_granted_again() {
    let mut lock = SessionLock::new();
    let first = lock.acquire().unwrap();
    assert!(lock.acquire().is_err());
    lock.release(first);
    assert!(!lock.is_live());
    let second = BlueqatSimulator::new(&mut lock);
    assert!(second.is_ok());
    assert!(lock.is_live());
    assert!(lock.acquire().is_err());
    lock.release(second.unwrap());
    assert!(lock.acquire().is_ok());
}

#[test]
fn a_refused_request_leaves_the_live_session_alone() {
    let mut lock = SessionLock::new();
    let mut sim = BlueqatSimulator::new(&mut lock).unwrap();
    for _ in 0..10 {
        assert_eq!(lock.acquire().err(), Some(Error::ResourceBusy));
    }
    let script = sim.send(&[]).unwrap();
    assert_eq!(script, "");
    lock.release(sim);
    assert!(!lock.is_live());
}

#[test]
fn two_locks_guard_two_engines() {
    let mut one = SessionLock::new();
    let mut other = SessionLock::new();
    assert!(one.acquire().is_ok());
    assert!(other.acquire().is_ok());
    assert!(one.acquire().is_err());
    assert!(other.acquire().is_err());
}
