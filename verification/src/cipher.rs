use vstd::prelude::*;
use block_modes::BlockMode;
use crate::byteops::copy_bytes;
use crate::hashing::all_hex_digits;
use crate::hexcodec::{hex_decode, hex_decode_spec, lemma_hex_decode_len};

verus! {

/// What AES-128 in ECB mode with PKCS#7 padding makes of a plaintext under a
/// 16-byte key. Deterministic: this mode uses no IV and no nonce, a known
/// weakness of the design, kept for compatibility with existing archives.
pub uninterp spec fn aes_enc_of(key: Seq<u8>, data: Seq<u8>) -> Seq<u8>;

/// What AES-128-ECB decryption with PKCS#7 unpadding makes of a ciphertext
/// under a 16-byte key: `None` when the length is no multiple of the block
/// size or the padding comes out malformed.
pub uninterp spec fn aes_dec_of(key: Seq<u8>, data: Seq<u8>) -> Option<Seq<u8>>;

/// A ciphertext that decryption must reject: its length or padding is
/// malformed, as happens under a wrong key or after corruption.
#[derive(Clone, Copy, PartialEq, Eq, Structural, Debug)]
pub enum CipherError {
    Undecryptable,
}

/// Relies on `block_modes::BlockMode::encrypt_vec` for `Ecb<Aes128, Pkcs7>`:
/// the result is a function of key and plaintext alone (no IV, no nonce),
/// and is the plaintext padded to the next multiple of 16 bytes, encrypted
/// block by block.
#[verifier::external_body]
fn aes128_ecb_encrypt(key: &[u8], data: &[u8]) -> (r: Vec<u8>)
    requires
        key@.len() == 16,
    ensures
        r@ == aes_enc_of(key@, data@),
        r@.len() == ((data@.len() / 16) + 1) * 16,
{
    let cipher = block_modes::Ecb::<aes::Aes128, block_modes::block_padding::Pkcs7>::new_from_slices(
        key,
        &[],
    ).expect("a 16-byte key is always accepted");
    block_modes::BlockMode::encrypt_vec(cipher, data)
}

/// Relies on `block_modes::BlockMode::decrypt_vec` for `Ecb<Aes128, Pkcs7>`:
/// the outcome is a function of key and ciphertext alone; it fails exactly
/// when length or padding is malformed, and on the output of `encrypt_vec`
/// under the same key it returns the original plaintext.
#[verifier::external_body]
fn aes128_ecb_decrypt(key: &[u8], data: &[u8]) -> (r: Result<Vec<u8>, CipherError>)
    requires
        key@.len() == 16,
    ensures
        r is Ok <==> aes_dec_of(key@, data@) is Some,
        r matches Ok(p) ==> aes_dec_of(key@, data@) == Some(p@),
        forall|plain: Seq<u8>| data@ == aes_enc_of(key@, plain) ==> (r is Ok && r->Ok_0@
            == plain),
{
    let cipher = block_modes::Ecb::<aes::Aes128, block_modes::block_padding::Pkcs7>::new_from_slices(
        key,
        &[],
    ).expect("a 16-byte key is always accepted");
    match block_modes::BlockMode::decrypt_vec(cipher, data) {
        Ok(p) => Ok(p),
        Err(_) => Err(CipherError::Undecryptable),
    }
}

/// One file of the working directory: its name and its contents.
pub struct NoteFile {
    pub name: Vec<u8>,
    pub data: Vec<u8>,
}

/// The mathematical model of a file: name and contents as byte sequences.
pub ghost struct NoteFileView {
    pub name: Seq<u8>,
    pub data: Seq<u8>,
}

impl View for NoteFile {
    type V = NoteFileView;

    open spec fn view(&self) -> NoteFileView {
        NoteFileView { name: self.name@, data: self.data@ }
    }
}

/// The models of a sequence of files.
pub open spec fn views_of(files: Seq<NoteFile>) -> Seq<NoteFileView> {
    files.map_values(|f: NoteFile| f@)
}

/// The ASCII bytes of `".txt"`.
pub open spec fn txt_suffix() -> Seq<u8> {
    seq![46u8, 116u8, 120u8, 116u8]
}

/// Only files whose name ends in `.txt` take part in bulk sealing.
pub open spec fn is_txt_name(name: Seq<u8>) -> bool {
    name.len() >= 4 && name.subrange(name.len() - 4, name.len() as int) == txt_suffix()
}

/// True iff the name ends in `.txt`.
pub fn has_txt_suffix(name: &[u8]) -> (r: bool)
    ensures
        r == is_txt_name(name@),
{
    if name.len() < 4 {
        return false;
    }
    let n = name.len();
    let r = name[n - 4] == 46 && name[n - 3] == 116 && name[n - 2] == 120 && name[n - 1] == 116;
    proof {
        let s = name@.subrange(n - 4, n as int);
        assert(s[0] == name@[n - 4] && s[1] == name@[n - 3] && s[2] == name@[n - 2] && s[3]
            == name@[n - 1]);
        if r {
            assert(s =~= txt_suffix());
        }
        if s == txt_suffix() {
            assert(s[0] == 46 && s[1] == 116 && s[2] == 120 && s[3] == 116);
        }
    }
    r
}

/// A well-formed key string: the 32 hex digits that `keys::new_key` yields,
/// encoding the 16 raw key bytes.
pub open spec fn is_valid_key(key: Seq<u8>) -> bool {
    key.len() == 32 && all_hex_digits(key)
}

/// An eligible file sealed under the given raw key; others pass unchanged.
pub open spec fn seal_file(key: Seq<u8>, f: NoteFileView) -> NoteFileView {
    if is_txt_name(f.name) {
        NoteFileView { name: f.name, data: aes_enc_of(key, f.data) }
    } else {
        f
    }
}

/// A whole file set sealed under the given raw key.
pub open spec fn seal_set(key: Seq<u8>, files: Seq<NoteFileView>) -> Seq<NoteFileView> {
    files.map_values(|f: NoteFileView| seal_file(key, f))
}

/// True iff the file would unseal cleanly under the given raw key.
pub open spec fn unseal_file_ok(key: Seq<u8>, f: NoteFileView) -> bool {
    is_txt_name(f.name) ==> aes_dec_of(key, f.data) is Some
}

/// An eligible file unsealed under the given raw key; others pass unchanged.
pub open spec fn unseal_file(key: Seq<u8>, f: NoteFileView) -> NoteFileView
    recommends
        unseal_file_ok(key, f),
{
    if is_txt_name(f.name) {
        NoteFileView { name: f.name, data: aes_dec_of(key, f.data)->Some_0 }
    } else {
        f
    }
}

/// True iff every file of the set would unseal cleanly.
pub open spec fn unseal_set_ok(key: Seq<u8>, files: Seq<NoteFileView>) -> bool {
    forall|i: int| 0 <= i < files.len() ==> unseal_file_ok(key, #[trigger] files[i])
}

/// A whole file set unsealed under the given raw key.
pub open spec fn unseal_set(key: Seq<u8>, files: Seq<NoteFileView>) -> Seq<NoteFileView> {
    files.map_values(|f: NoteFileView| unseal_file(key, f))
}

/// Seals every `.txt` file of the set under the key string, leaving other
/// files untouched. Sealing never fails.
pub fn encrypt_files(files: &Vec<NoteFile>, key: &[u8]) -> (r: Vec<NoteFile>)
    requires
        is_valid_key(key@),
    ensures
        views_of(r@) == seal_set(hex_decode_spec(key@), views_of(files@)),
{
    let kb = hex_decode(key).unwrap();
    proof {
        lemma_hex_decode_len(key@);
    }
    let mut out: Vec<NoteFile> = Vec::new();
    let mut i: usize = 0;
    while i < files.len()
        invariant
            0 <= i <= files@.len(),
            kb@ == hex_decode_spec(key@),
            kb@.len() == 16,
            out@.len() == i,
            forall|j: int| 0 <= j < i ==> out@[j]@ == seal_file(kb@, #[trigger] files@[j]@),
        decreases files@.len() - i,
    {
        let f = &files[i];
        let name = copy_bytes(f.name.as_slice());
        if has_txt_suffix(name.as_slice()) {
            let data = aes128_ecb_encrypt(kb.as_slice(), f.data.as_slice());
            out.push(NoteFile { name, data });
        } else {
            let data = copy_bytes(f.data.as_slice());
            out.push(NoteFile { name, data });
        }
        i += 1;
    }
    proof {
        assert forall|j: int| 0 <= j < files@.len() implies views_of(out@)[j] == seal_set(
            hex_decode_spec(key@),
            views_of(files@),
        )[j] by {
            assert(out@[j]@ == seal_file(kb@, files@[j]@));
        }
        assert(views_of(out@) =~= seal_set(hex_decode_spec(key@), views_of(files@)));
    }
    out
}

/// Unseals one file; private helper of `decrypt_files`.
fn decrypt_one(key_bytes: &[u8], f: &NoteFile) -> (r: Result<NoteFile, CipherError>)
    requires
        key_bytes@.len() == 16,
    ensures
        r is Ok <==> unseal_file_ok(key_bytes@, f@),
        r matches Ok(g) ==> g@ == unseal_file(key_bytes@, f@),
        forall|plain: Seq<u8>| is_txt_name(f@.name) && f@.data == aes_enc_of(key_bytes@, plain)
            ==> aes_dec_of(key_bytes@, f@.data) == Some(plain),
{
    let name = copy_bytes(f.name.as_slice());
    if has_txt_suffix(name.as_slice()) {
        let res = aes128_ecb_decrypt(key_bytes, f.data.as_slice());
        proof {
            assert forall|plain: Seq<u8>|
                is_txt_name(f@.name) && f@.data == aes_enc_of(key_bytes@, plain) implies aes_dec_of(
                key_bytes@,
                f@.data,
            ) == Some(plain) by {
                assert(res matches Ok(p) && p@ == plain);
            }
        }
        match res {
            Ok(data) => Ok(NoteFile { name, data }),
            Err(e) => Err(e),
        }
    } else {
        let data = copy_bytes(f.data.as_slice());
        Ok(NoteFile { name, data })
    }
}

/// Unseals every `.txt` file of the set under the key string, leaving other
/// files untouched. Fails, with the directory reported unreadable, exactly
/// when some `.txt` file does not decrypt cleanly; and on a set sealed under
/// the same key it reproduces the original files exactly.
pub fn decrypt_files(files: &Vec<NoteFile>, key: &[u8]) -> (r: Result<
    Vec<NoteFile>,
    CipherError,
>)
    requires
        is_valid_key(key@),
    ensures
        r is Ok <==> unseal_set_ok(hex_decode_spec(key@), views_of(files@)),
        r matches Ok(out) ==> views_of(out@) == unseal_set(hex_decode_spec(key@), views_of(files@)),
        forall|orig: Seq<NoteFileView>|
            views_of(files@) == seal_set(hex_decode_spec(key@), orig) ==> (r matches Ok(out)
                && views_of(out@) == orig),
{
    let kb = hex_decode(key).unwrap();
    proof {
        lemma_hex_decode_len(key@);
    }
    let mut out: Vec<NoteFile> = Vec::new();
    let mut i: usize = 0;
    while i < files.len()
        invariant
            0 <= i <= files@.len(),
            kb@ == hex_decode_spec(key@),
            kb@.len() == 16,
            out@.len() == i,
            forall|j: int| 0 <= j < i ==> unseal_file_ok(kb@, #[trigger] files@[j]@),
            forall|j: int| 0 <= j < i ==> out@[j]@ == unseal_file(kb@, #[trigger] files@[j]@),
            forall|j: int, plain: Seq<u8>|
                #![trigger aes_enc_of(kb@, plain), files@[j]]
                0 <= j < i && is_txt_name(files@[j]@.name) && files@[j]@.data == aes_enc_of(
                    kb@,
                    plain,
                ) ==> aes_dec_of(kb@, files@[j]@.data) == Some(plain),
        decreases files@.len() - i,
    {
        let res = decrypt_one(kb.as_slice(), &files[i]);
        match res {
            Ok(g) => {
                out.push(g);
            },
            Err(e) => {
                proof {
                    assert(!unseal_file_ok(kb@, views_of(files@)[i as int]));
                    assert(!unseal_set_ok(hex_decode_spec(key@), views_of(files@)));
                    assert forall|orig: Seq<NoteFileView>|
                        views_of(files@) == seal_set(hex_decode_spec(key@), orig) implies false by {
                        assert(views_of(files@)[i as int] == seal_file(kb@, orig[i as int]));
                        assert(files@[i as int]@ == seal_file(kb@, orig[i as int]));
                        if is_txt_name(orig[i as int].name) {
                            assert(files@[i as int]@.data == aes_enc_of(kb@, orig[i as int].data));
                            assert(aes_dec_of(kb@, files@[i as int]@.data) == Some(
                                orig[i as int].data,
                            ));
                            assert(unseal_file_ok(kb@, files@[i as int]@));
                        } else {
                            assert(files@[i as int]@ == orig[i as int]);
                            assert(unseal_file_ok(kb@, files@[i as int]@));
                        }
                    }
                }
                return Err(e);
            },
        }
        i += 1;
    }
    proof {
        assert forall|j: int| 0 <= j < files@.len() implies unseal_file_ok(
            hex_decode_spec(key@),
            #[trigger] views_of(files@)[j],
        ) by {
            assert(views_of(files@)[j] == files@[j]@);
        }
        assert(unseal_set_ok(hex_decode_spec(key@), views_of(files@)));
        assert forall|j: int| 0 <= j < files@.len() implies views_of(out@)[j] == unseal_set(
            hex_decode_spec(key@),
            views_of(files@),
        )[j] by {
            assert(out@[j]@ == unseal_file(kb@, files@[j]@));
        }
        assert(views_of(out@) =~= unseal_set(hex_decode_spec(key@), views_of(files@)));
        assert forall|orig: Seq<NoteFileView>|
            views_of(files@) == seal_set(hex_decode_spec(key@), orig) implies views_of(out@)
            =~= orig by {
            assert(orig.len() == files@.len());
            assert forall|j: int| 0 <= j < orig.len() implies views_of(out@)[j] == orig[j] by {
                assert(views_of(files@)[j] == seal_file(kb@, orig[j]));
                assert(files@[j]@ == seal_file(kb@, orig[j]));
                if is_txt_name(orig[j].name) {
                    assert(files@[j]@.data == aes_enc_of(kb@, orig[j].data));
                    assert(aes_dec_of(kb@, files@[j]@.data) == Some(orig[j].data));
                    assert(out@[j]@ == unseal_file(kb@, files@[j]@));
                } else {
                    assert(files@[j]@ == orig[j]);
                    assert(out@[j]@ == orig[j]);
                }
            }
        }
    }
    Ok(out)
}

} // verus!
