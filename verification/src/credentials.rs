use vstd::prelude::*;
use crate::byteops::bytes_eq;
use crate::hashing::{sha256_hex_of, get_hash};

verus! {

/// The two persisted credential slots: the user-chosen primary password and
/// the system-generated master (recovery) password.
pub enum Slot {
    Primary,
    Master,
}

/// The persisted credential digests. Each field holds the hex digest text of
/// one slot, exactly as it stands in the corresponding digest file; an empty
/// primary digest signals a first run.
pub struct CredentialStore {
    pub primary: Vec<u8>,
    pub master: Vec<u8>,
}

/// True iff `b` is an ASCII letter or digit, the alphabet from which master
/// passwords are drawn.
pub open spec fn is_password_char(b: u8) -> bool {
    (65 <= b <= 90) || (97 <= b <= 122) || (48 <= b <= 57)
}

/// Relies on `rand::Rng::gen_range` over `0..bound`: the draw lies below
/// `bound`; nothing more is promised of a random value.
#[verifier::external_body]
fn random_below(bound: usize) -> (r: usize)
    requires
        bound > 0,
    ensures
        r < bound,
{
    rand::Rng::gen_range(&mut rand::thread_rng(), 0..bound)
}

fn charset_bytes() -> (r: Vec<u8>)
    ensures
        r@.len() == 62,
        forall|j: int| 0 <= j < 62 ==> is_password_char(#[trigger] r@[j]),
{
    let mut r: Vec<u8> = Vec::new();
    let mut i: usize = 0;
    while i < 26
        invariant
            0 <= i <= 26,
            r@.len() == i,
            forall|j: int| 0 <= j < i ==> is_password_char(#[trigger] r@[j]),
        decreases 26 - i,
    {
        r.push(65 + (i as u8));
        i += 1;
    }
    i = 0;
    while i < 26
        invariant
            0 <= i <= 26,
            r@.len() == 26 + i,
            forall|j: int| 0 <= j < 26 + i ==> is_password_char(#[trigger] r@[j]),
        decreases 26 - i,
    {
        r.push(97 + (i as u8));
        i += 1;
    }
    i = 0;
    while i < 10
        invariant
            0 <= i <= 10,
            r@.len() == 52 + i,
            forall|j: int| 0 <= j < 52 + i ==> is_password_char(#[trigger] r@[j]),
        decreases 10 - i,
    {
        r.push(48 + (i as u8));
        i += 1;
    }
    r
}

impl CredentialStore {
    /// A password verifies iff its digest matches the primary or the master
    /// digest.
    pub open spec fn verify_spec(self, password: Seq<u8>) -> bool {
        self.primary@ == sha256_hex_of(password) || self.master@ == sha256_hex_of(password)
    }

    /// A first run is signalled by an empty primary digest.
    pub open spec fn is_first_run_spec(self) -> bool {
        self.primary@.len() == 0
    }

    /// Stores the digest of `password` in the given slot, fully overwriting
    /// the prior value; the other slot is untouched.
    pub fn write(&mut self, password: &[u8], slot: Slot)
        ensures
            slot is Primary ==> final(self).primary@ == sha256_hex_of(password@)
                && final(self).master == old(self).master,
            slot is Master ==> final(self).master@ == sha256_hex_of(password@)
                && final(self).primary == old(self).primary,
    {
        let digest = get_hash(password);
        match slot {
            Slot::Primary => {
                self.primary = digest;
            },
            Slot::Master => {
                self.master = digest;
            },
        }
    }

    /// True iff the password's digest matches the primary or the master
    /// digest. A mismatch is a normal rejected outcome, never an error.
    pub fn verify(&self, password: &[u8]) -> (r: bool)
        ensures
            r == self.verify_spec(password@),
    {
        let digest = get_hash(password);
        let primary_match = bytes_eq(digest.as_slice(), self.primary.as_slice());
        let master_match = bytes_eq(digest.as_slice(), self.master.as_slice());
        primary_match || master_match
    }

    /// True iff the primary digest is empty: the next supplied password is to
    /// become the permanent primary credential.
    pub fn is_first_run(&self) -> (r: bool)
        ensures
            r == self.is_first_run_spec(),
    {
        self.primary.len() == 0
    }

    /// Draws a fresh 32-character alphanumeric master password, stores its
    /// digest in the master slot, and returns it; the returned password
    /// verifies against the updated store. The primary slot is untouched.
    pub fn generate_master_password(&mut self) -> (r: Vec<u8>)
        ensures
            r@.len() == 32,
            forall|i: int| 0 <= i < 32 ==> is_password_char(#[trigger] r@[i]),
            final(self).master@ == sha256_hex_of(r@),
            final(self).primary == old(self).primary,
            final(self).verify_spec(r@),
    {
        let charset = charset_bytes();
        let mut pw: Vec<u8> = Vec::new();
        let mut i: usize = 0;
        while i < 32
            invariant
                0 <= i <= 32,
                pw@.len() == i,
                charset@.len() == 62,
                forall|j: int| 0 <= j < 62 ==> is_password_char(#[trigger] charset@[j]),
                forall|j: int| 0 <= j < i ==> is_password_char(#[trigger] pw@[j]),
            decreases 32 - i,
        {
            let idx = random_below(62);
            pw.push(charset[idx]);
            i += 1;
        }
        self.write(pw.as_slice(), Slot::Master);
        pw
    }

    /// Makes the supplied password the permanent primary credential and
    /// draws a fresh master password; afterwards both verify against the
    /// store. This is the bootstrap step of a first run.
    pub fn bootstrap(&mut self, password: &[u8]) -> (master: Vec<u8>)
        ensures
            final(self).primary@ == sha256_hex_of(password@),
            final(self).master@ == sha256_hex_of(master@),
            final(self).verify_spec(password@),
            final(self).verify_spec(master@),
            master@.len() == 32,
            forall|i: int| 0 <= i < 32 ==> is_password_char(#[trigger] master@[i]),
    {
        self.write(password, Slot::Primary);
        self.generate_master_password()
    }
}

} // verus!
