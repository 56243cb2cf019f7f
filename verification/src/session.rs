use vstd::prelude::*;
use crate::cipher::{
    NoteFile, NoteFileView, CipherError, views_of, is_valid_key, seal_set, unseal_set,
    unseal_set_ok, encrypt_files, decrypt_files,
};
use crate::credentials::{CredentialStore, is_password_char};
use crate::hashing::sha256_hex_of;
use crate::hexcodec::hex_decode_spec;
use crate::keys::{new_key, derived_key_spec};

verus! {

/// The lifecycle of one run. The directory may be touched only between the
/// unseal and the seal: decrypt strictly precedes any note access, encrypt
/// strictly follows the last one.
pub enum SessionState {
    Ready,
    Unlocked,
    Sealed,
    Rejected,
}

/// What authentication decided. A bootstrap carries the freshly drawn
/// master password, shown to the user exactly once: no other recovery
/// surface exists.
pub enum AuthOutcome {
    Bootstrapped(Vec<u8>),
    Authenticated,
    Rejected,
}

/// One run's session: its state, and the key derived from the password that
/// opened it. The key is recomputed each session and never persisted.
pub struct Session {
    pub state: SessionState,
    pub key: Vec<u8>,
}

impl Session {
    /// Every state that may touch the directory carries a well-formed key.
    pub open spec fn wf(self) -> bool {
        (self.state is Ready || self.state is Unlocked || self.state is Sealed) ==> is_valid_key(
            self.key@,
        )
    }

    /// Opens a session. On a first run the supplied password becomes the
    /// permanent primary credential and a master password is drawn;
    /// otherwise the password must match one of the two digests, and a
    /// mismatch rejects the session with the store and directory untouched.
    /// Only a `Ready` session can unseal, so a password matching neither
    /// digest never triggers directory decryption.
    pub fn begin(store: &mut CredentialStore, password: &[u8]) -> (r: (Session, AuthOutcome))
        ensures
            r.0.wf(),
            (r.0.state is Ready) <==> (old(store).is_first_run_spec() || old(store).verify_spec(
                password@,
            )),
            (r.0.state is Rejected) <==> !(old(store).is_first_run_spec()
                || old(store).verify_spec(password@)),
            r.0.state is Ready ==> r.0.key@ == derived_key_spec(password@),
            (r.1 is Bootstrapped) <==> old(store).is_first_run_spec(),
            (r.1 is Authenticated) <==> (!old(store).is_first_run_spec() && old(
                store,
            ).verify_spec(password@)),
            (r.1 is Rejected) <==> (!old(store).is_first_run_spec() && !old(store).verify_spec(
                password@,
            )),
            !old(store).is_first_run_spec() ==> *final(store) == *old(store),
            old(store).is_first_run_spec() ==> final(store).primary@ == sha256_hex_of(password@)
                && final(store).verify_spec(password@),
            r.1 matches AuthOutcome::Bootstrapped(m) ==> final(store).verify_spec(m@)
                && final(store).master@ == sha256_hex_of(m@) && m@.len() == 32 && (forall|i: int|
                0 <= i < 32 ==> is_password_char(#[trigger] m@[i])),
    {
        if store.is_first_run() {
            let master = store.bootstrap(password);
            let key = new_key(password);
            (Session { state: SessionState::Ready, key }, AuthOutcome::Bootstrapped(master))
        } else if store.verify(password) {
            let key = new_key(password);
            (Session { state: SessionState::Ready, key }, AuthOutcome::Authenticated)
        } else {
            (Session { state: SessionState::Rejected, key: Vec::new() }, AuthOutcome::Rejected)
        }
    }

    /// Unseals the working directory's file set with the session key. A set
    /// that was sealed under this key comes back exactly as it was; one
    /// that does not decrypt cleanly is a fatal cryptographic error,
    /// surfaced rather than returned as garbage, and leaves the session
    /// `Ready` and the set untouched.
    pub fn unseal(&mut self, files: &Vec<NoteFile>) -> (r: Result<Vec<NoteFile>, CipherError>)
        requires
            old(self).state is Ready,
            old(self).wf(),
        ensures
            final(self).wf(),
            final(self).key == old(self).key,
            r is Ok <==> unseal_set_ok(hex_decode_spec(old(self).key@), views_of(files@)),
            r is Ok ==> final(self).state is Unlocked,
            r is Err ==> *final(self) == *old(self),
            r matches Ok(out) ==> views_of(out@) == unseal_set(
                hex_decode_spec(old(self).key@),
                views_of(files@),
            ),
            forall|orig: Seq<NoteFileView>|
                views_of(files@) == seal_set(hex_decode_spec(old(self).key@), orig) ==> (r matches
                    Ok(out) && views_of(out@) == orig),
    {
        match decrypt_files(files, self.key.as_slice()) {
            Ok(out) => {
                self.state = SessionState::Unlocked;
                Ok(out)
            },
            Err(e) => Err(e),
        }
    }

    /// Seals the file set again with the same key and ends the session:
    /// the working directory is never left unsealed past its session, on
    /// any exit path.
    pub fn seal(&mut self, files: &Vec<NoteFile>) -> (r: Vec<NoteFile>)
        requires
            old(self).state is Unlocked,
            old(self).wf(),
        ensures
            final(self).state is Sealed,
            final(self).wf(),
            final(self).key == old(self).key,
            views_of(r@) == seal_set(hex_decode_spec(old(self).key@), views_of(files@)),
    {
        let out = encrypt_files(files, self.key.as_slice());
        self.state = SessionState::Sealed;
        out
    }
}

} // verus!
