use notevault::credentials::{CredentialStore, Slot};

fn fresh_store() -> CredentialStore {
    CredentialStore { primary: Vec::new(), master: Vec::new() }
}

#[test]
fn empty_primary_signals_first_run() {
    let store = fresh_store();
    assert!(store.is_first_run());
    let full = CredentialStore { primary: vec![b'a'; 64], master: Vec::new() };
    assert!(!full.is_first_run());
}

#[test]
fn bootstrap_makes_password_primary() {
    let mut store = fresh_store();
    let _master = store.bootstrap(b"hunter2");
    // the stored primary digest is exactly the hex digest of the password
    assert_eq!(
        store.primary,
        b"f52fbd32b2b3b86ff88ef6c490628285f482af15ddcb29541f94bcf526a3f6c7".to_vec()
    );
    assert!(store.verify(b"hunter2"));
    assert!(!store.is_first_run());
}

#[test]
fn bootstrap_master_verifies_independently() {
    let mut store = fresh_store();
    let master = store.bootstrap(b"hunter2");
    assert_eq!(master.len(), 32);
    for b in &master {
        assert!(b.is_ascii_alphanumeric());
    }
    assert!(store.verify(&master));
    assert!(store.verify(b"hunter2"));
}

#[test]
fn mismatch_is_rejected_not_an_error() {
    let mut store = fresh_store();
    let _ = store.bootstrap(b"hunter2");
    assert!(!store.verify(b"hunter3"));
    assert!(!store.verify(b""));
}

#[test]
fn write_overwrites_prior_value() {
    let mut store = fresh_store();
    store.write(b"first", Slot::Primary);
    assert!(store.verify(b"first"));
    store.write(b"second", Slot::Primary);
    assert!(!store.verify(b"first"));
    assert!(store.verify(b"second"));
}

#[test]
fn slots_are_independent() {
    let mut store = fresh_store();
    store.write(b"user pw", Slot::Primary);
    store.write(b"recovery pw", Slot::Master);
    assert!(store.verify(b"user pw"));
    assert!(store.verify(b"recovery pw"));
    store.write(b"other recovery", Slot::Master);
    assert!(store.verify(b"user pw"));
    assert!(!store.verify(b"recovery pw"));
}

#[test]
fn generated_masters_differ_between_draws() {
    let mut store = fresh_store();
    let m1 = store.generate_master_password();
    let m2 = store.generate_master_password();
    // 62^32 possibilities: two equal draws would point at a broken generator
    assert_ne!(m1, m2);
    assert!(store.verify(&m2));
}
