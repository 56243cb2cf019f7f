use notevault::cipher::{decrypt_files, encrypt_files, NoteFile};
use notevault::keys::new_key;

fn sample_files() -> Vec<NoteFile> {
    vec![
        NoteFile { name: b"a.txt".to_vec(), data: b"hello world".to_vec() },
        NoteFile { name: b"note.bin".to_vec(), data: b"left alone".to_vec() },
        NoteFile { name: b"empty.txt".to_vec(), data: Vec::new() },
        NoteFile {
            name: b"d1b2a59fbea7e20077af9f91b27e95e865061b270be03ff539ab3b73587882e8.txt".to_vec(),
            data: b"contents\nmain\n".to_vec(),
        },
    ]
}

#[test]
fn encrypt_then_decrypt_roundtrip() {
    let key = new_key(b"some password");
    let files = sample_files();
    let sealed = encrypt_files(&files, &key);
    let opened = decrypt_files(&sealed, &key).unwrap();
    assert_eq!(opened.len(), files.len());
    for (orig, back) in files.iter().zip(opened.iter()) {
        assert_eq!(orig.name, back.name);
        assert_eq!(orig.data, back.data);
    }
}

#[test]
fn sealing_changes_txt_files_only() {
    let key = new_key(b"k");
    let files = sample_files();
    let sealed = encrypt_files(&files, &key);
    assert_ne!(sealed[0].data, files[0].data);
    assert_eq!(sealed[1].data, files[1].data);
    assert_ne!(sealed[3].data, files[3].data);
}

#[test]
fn ciphertext_is_padded_to_blocks() {
    let key = new_key(b"k");
    let files = vec![NoteFile { name: b"a.txt".to_vec(), data: b"hello world".to_vec() }];
    let sealed = encrypt_files(&files, &key);
    // 11 bytes pad to one 16-byte block
    assert_eq!(sealed[0].data.len(), 16);
    let empty = vec![NoteFile { name: b"a.txt".to_vec(), data: Vec::new() }];
    let sealed_empty = encrypt_files(&empty, &key);
    // even an empty plaintext carries a full padding block
    assert_eq!(sealed_empty[0].data.len(), 16);
}

#[test]
fn wrong_key_fails_or_differs() {
    let k1 = new_key(b"right password");
    let k2 = new_key(b"wrong password");
    let files = sample_files();
    let sealed = encrypt_files(&files, &k1);
    match decrypt_files(&sealed, &k2) {
        Err(_) => {},
        Ok(opened) => {
            assert_ne!(opened[0].data, files[0].data);
        },
    }
}

#[test]
fn garbage_ciphertext_is_rejected() {
    let key = new_key(b"k");
    // length is no multiple of the block size: decryption must fail
    let files = vec![NoteFile { name: b"a.txt".to_vec(), data: b"not a block".to_vec() }];
    assert!(decrypt_files(&files, &key).is_err());
}

#[test]
fn non_txt_garbage_passes_through() {
    let key = new_key(b"k");
    let files = vec![NoteFile { name: b"a.bin".to_vec(), data: b"not a block".to_vec() }];
    let opened = decrypt_files(&files, &key).unwrap();
    assert_eq!(opened[0].data, b"not a block".to_vec());
}
