use notevault::cipher::NoteFile;
use notevault::credentials::CredentialStore;
use notevault::engine::{CreateOutcome, StorageEngine};
use notevault::session::{AuthOutcome, Session, SessionState};

fn fresh_store() -> CredentialStore {
    CredentialStore { primary: Vec::new(), master: Vec::new() }
}

#[test]
fn fresh_install_scenario() {
    // fresh install: the credential file exists but is empty
    let mut store = fresh_store();
    let (mut session, outcome) = Session::begin(&mut store, b"hunter2");
    let master = match outcome {
        AuthOutcome::Bootstrapped(m) => m,
        _ => panic!("a first run must bootstrap"),
    };
    assert!(matches!(session.state, SessionState::Ready));

    // unseal the (still empty) working directory and build the store
    let on_disk: Vec<NoteFile> = Vec::new();
    let opened = session.unseal(&on_disk).unwrap();
    assert!(opened.is_empty());
    let mut engine = StorageEngine::new();
    assert!(engine.ensure_main());

    // work with notes
    assert!(matches!(engine.create(b"todo"), CreateOutcome::Created));
    let count = engine.list_titles().iter().filter(|t| t.as_slice() == b"todo").count();
    assert_eq!(count, 1);

    // seal everything on the way out
    let exported = engine.export();
    let sealed = session.seal(&exported);
    assert!(matches!(session.state, SessionState::Sealed));

    // restart: the same password authenticates without re-bootstrapping
    let mut store2 = CredentialStore { primary: store.primary.clone(), master: store.master.clone() };
    let (mut session2, outcome2) = Session::begin(&mut store2, b"hunter2");
    assert!(matches!(outcome2, AuthOutcome::Authenticated));
    let reopened = session2.unseal(&sealed).unwrap();
    assert_eq!(reopened.len(), exported.len());
    for (a, b) in exported.iter().zip(reopened.iter()) {
        assert_eq!(a.name, b.name);
        assert_eq!(a.data, b.data);
    }
    let engine2 = StorageEngine::load(reopened).unwrap();
    let count2 = engine2.list_titles().iter().filter(|t| t.as_slice() == b"todo").count();
    assert_eq!(count2, 1);

    // delete the note: it is absent and no file resolves to it any more
    let mut engine2 = engine2;
    assert!(matches!(
        engine2.delete_by_title(b"todo"),
        notevault::engine::DeleteOutcome::Deleted
    ));
    assert!(engine2.list_titles().iter().all(|t| t.as_slice() != b"todo"));
    let gone = notevault::engine::note_name(b"todo");
    assert!(engine2.export().iter().all(|f| f.name != gone));

    let _ = master;
}

#[test]
fn master_password_also_authenticates() {
    let mut store = fresh_store();
    let (_session, outcome) = Session::begin(&mut store, b"hunter2");
    let master = match outcome {
        AuthOutcome::Bootstrapped(m) => m,
        _ => panic!("a first run must bootstrap"),
    };
    // a later session opened with the master password succeeds as well
    let (session2, outcome2) = Session::begin(&mut store, &master);
    assert!(matches!(outcome2, AuthOutcome::Authenticated));
    assert!(matches!(session2.state, SessionState::Ready));
}

#[test]
fn rejected_password_never_unseals() {
    let mut store = fresh_store();
    let _ = Session::begin(&mut store, b"hunter2");
    let primary_before = store.primary.clone();
    let (session, outcome) = Session::begin(&mut store, b"letmein");
    assert!(matches!(outcome, AuthOutcome::Rejected));
    // the session never reaches the state from which `unseal` may be called,
    // and the store is untouched
    assert!(matches!(session.state, SessionState::Rejected));
    assert_eq!(store.primary, primary_before);
}

#[test]
fn unseal_surfaces_undecryptable_directories() {
    let mut store = fresh_store();
    let (mut session, _) = Session::begin(&mut store, b"pw");
    // a .txt file that is no valid ciphertext must fail loudly, not yield garbage
    let files = vec![NoteFile { name: b"x.txt".to_vec(), data: b"junk".to_vec() }];
    assert!(session.unseal(&files).is_err());
}

#[test]
fn session_key_is_derived_from_the_password() {
    let mut store = fresh_store();
    let (session, _) = Session::begin(&mut store, b"hunter2");
    assert_eq!(session.key, b"a60db09d47b1ef319df853182cee0aa4".to_vec());
}
