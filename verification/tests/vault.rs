use argon2::{Algorithm, Argon2, Params, Version};
use chacha20poly1305::aead::{Aead, KeyInit, Payload};
use chacha20poly1305::{XChaCha20Poly1305, XNonce};
use hecate::cipher::seal_with;
use hecate::codec;
use hecate::error::StoreError;
use hecate::kdf::{derive_key, kdf_string, parse_kdf, KdfParams};
use hecate::node::{NodeKind, NodeRow};
use hecate::store::Store;
use hecate::vault::{
    after_write, associated_data, change_phrase, change_phrase_with, change_with, create, create_with, decode_key,
    encode_key, load_store, open_with_key, pending_write, read_row, serialize_store, unlock, vault_exists,
    with_vault_mut, VaultError, VaultPlaintext, VaultRow, VaultSlot, WriteStep,
};
use serde_json::Value;

fn row_from(v: &Value) -> Option<NodeRow> {
    let opt_num = |k: &str| match v.get(k) {
        None | Some(Value::Null) => Some(None),
        Some(x) => x.as_i64().map(Some),
    };
    let opt_text = |k: &str| match v.get(k) {
        None | Some(Value::Null) => Some(None),
        Some(x) => x.as_str().map(|s| Some(s.to_string())),
    };
    Some(NodeRow {
        id: v.get("id")?.as_i64()?,
        parent_id: opt_num("parent_id")?,
        kind: match v.get("kind")?.as_str()? {
            "folder" => NodeKind::Folder,
            "bookmark" => NodeKind::Bookmark,
            _ => return None,
        },
        title: v.get("title")?.as_str()?.to_string(),
        url: opt_text("url")?,
        position: v.get("position")?.as_i64()?,
        created: v.get("created")?.as_i64()?,
        modified: v.get("modified")?.as_i64()?,
    })
}

/// Reads the plaintext of a vault.
fn decode(bytes: &[u8]) -> Option<VaultPlaintext> {
    let v: Value = serde_json::from_slice(bytes).ok()?;
    let nodes: Option<Vec<NodeRow>> = v.get("nodes")?.as_array()?.iter().map(row_from).collect();
    Some(VaultPlaintext { v: u8::try_from(v.get("v")?.as_u64()?).ok()?, nodes: nodes? })
}

fn fast_create(slot: &mut VaultSlot, phrase: &str) -> String {
    create(slot, phrase, 0).unwrap()
}

/// A new vault whose key is derived at the least cost; returns the key.
fn low_cost_create(slot: &mut VaultSlot, phrase: &str) -> String {
    let kdf = format!("argon2id$v=19$m=8,t=1,p=1${}", codec::encode(&[9u8; 16]));
    let key = derive_key(phrase, &parse_kdf(&kdf).unwrap()).unwrap();
    let nonce = [4u8; 24];
    let mut ad = vec![1u8];
    ad.extend_from_slice(kdf.as_bytes());
    let plain = b"{\"v\":1,\"nodes\":[{\"id\":1,\"parent_id\":null,\"kind\":\"folder\",\"title\":\"Hidden\",\"url\":null,\"position\":0,\"created\":0,\"modified\":0}]}";
    let ciphertext = seal_with(&key, &nonce, &ad, plain).unwrap();
    *slot = VaultSlot::Row(VaultRow { kdf, nonce: nonce.to_vec(), ciphertext, version: 0 });
    encode_key(&key)
}

fn stored(slot: &mut VaultSlot) -> &mut VaultRow {
    match slot {
        VaultSlot::Row(r) => r,
        _ => panic!("no row"),
    }
}

/// Assert an `unlock` failed with the uniform error.
fn assert_unlock_uniform_err(slot: &VaultSlot, phrase: &str) {
    match unlock(slot, phrase, &decode) {
        Err(VaultError::WrongPhraseOrCorrupt) => {}
        Err(other) => panic!("expected WrongPhraseOrCorrupt, got {other:?}"),
        Ok(_) => panic!("expected unlock to fail"),
    }
}

#[test]
fn create_unlock_roundtrip() {
    let mut slot = VaultSlot::Empty;
    let key = fast_create(&mut slot, "right phrase");
    let u = unlock(&slot, "right phrase", &decode).unwrap();
    assert_eq!(u.key_b64, key); // same phrase+salt: same key
    let root = u.store.tree(true).unwrap();
    assert_eq!(root.title, "Hidden");
    assert!(root.children.is_empty());
}

#[test]
fn wrong_phrase_is_uniform_error() {
    let mut slot = VaultSlot::Empty;
    fast_create(&mut slot, "right phrase");
    assert_unlock_uniform_err(&slot, "wrong phrase");
}

#[test]
fn unlock_with_no_vault_is_uniform_error() {
    // No vault created: must be indistinguishable from a wrong phrase.
    assert_unlock_uniform_err(&VaultSlot::Empty, "anything");
}

#[test]
fn tampered_ciphertext_fails_auth() {
    let mut slot = VaultSlot::Empty;
    fast_create(&mut slot, "pw");
    // Flip a byte of the ciphertext.
    stored(&mut slot).ciphertext[0] ^= 0xff;
    assert_unlock_uniform_err(&slot, "pw");
}

#[test]
fn tampered_kdf_params_fail_auth() {
    let mut slot = VaultSlot::Empty;
    fast_create(&mut slot, "pw");
    // Downgrade t-cost in the cleartext kdf string.
    let kdf = stored(&mut slot).kdf.clone();
    let tampered = kdf.replace("t=3", "t=2");
    assert_ne!(kdf, tampered);
    stored(&mut slot).kdf = tampered;
    assert_unlock_uniform_err(&slot, "pw");
}

#[test]
fn tampered_short_salt_is_uniform_error() {
    let mut slot = VaultSlot::Empty;
    fast_create(&mut slot, "pw");
    stored(&mut slot).kdf = "argon2id$v=19$m=65536,t=3,p=1$".to_string();
    assert_unlock_uniform_err(&slot, "pw");
}

#[test]
fn tampered_overflow_params_dont_panic() {
    let mut slot = VaultSlot::Empty;
    fast_create(&mut slot, "pw");
    stored(&mut slot).kdf = "argon2id$v=19$m=65536,t=3,p=4294967295$AAAAAAAAAAAAAAAA".to_string();
    assert_unlock_uniform_err(&slot, "pw");
    // Also a huge m and t.
    stored(&mut slot).kdf =
        "argon2id$v=19$m=4294967295,t=4294967295,p=1$AAAAAAAAAAAAAAAA".to_string();
    assert_unlock_uniform_err(&slot, "pw");
}

#[test]
fn version_overflow_does_not_brick() {
    let mut slot = VaultSlot::Empty;
    let key = fast_create(&mut slot, "pw");
    stored(&mut slot).version = i64::MAX;
    // A mutation triggers the increment; must succeed and stay readable.
    with_vault_mut(&mut slot, &key, &decode, |s: &mut Store| s.create_folder(None, "f", 1), 1).unwrap();
    assert_eq!(stored(&mut slot).version, i64::MIN, "version column must stay INTEGER");
    // Still unlockable after the wrap.
    let u = unlock(&slot, "pw", &decode).unwrap();
    assert_eq!(u.store.tree(true).unwrap().children[0].title, "f");
}

#[test]
fn non_integer_version_is_uniform_error() {
    // A row with a column of another type must surface the uniform error.
    let mut slot = VaultSlot::Empty;
    fast_create(&mut slot, "pw");
    slot = VaultSlot::Malformed;
    assert_unlock_uniform_err(&slot, "pw");
}

#[test]
fn cannot_create_twice() {
    let mut slot = VaultSlot::Empty;
    fast_create(&mut slot, "pw");
    assert!(matches!(
        create(&mut slot, "pw2", 0).unwrap_err(),
        VaultError::AlreadyExists
    ));
}

#[test]
fn mutation_persists_and_fresh_nonce_each_write() {
    let mut slot = VaultSlot::Empty;
    let key = fast_create(&mut slot, "pw");
    let nonce0 = stored(&mut slot).nonce.clone();

    let id = with_vault_mut(&mut slot, &key, &decode, |s: &mut Store| s.create_folder(None, "f", 1), 1)
        .unwrap();
    assert!(id > 1);
    let nonce1 = stored(&mut slot).nonce.clone();
    assert_ne!(nonce0, nonce1, "nonce must be fresh per write");

    // A second write yields yet another nonce and the version increments.
    with_vault_mut(
        &mut slot,
        &key,
        &decode,
        |s: &mut Store| s.create_bookmark(Some(id), "b", "https://b.example", 2),
        2,
    )
    .unwrap();
    let nonce2 = stored(&mut slot).nonce.clone();
    let version = stored(&mut slot).version;
    assert_ne!(nonce1, nonce2);
    assert_eq!(version, 2); // created=0, +1, +1

    // Re-open and confirm contents survived the encrypt/decrypt cycle.
    let u = unlock(&slot, "pw", &decode).unwrap();
    let root = u.store.tree(true).unwrap();
    assert_eq!(root.children.len(), 1);
    assert_eq!(root.children[0].title, "f");
    assert_eq!(root.children[0].children[0].title, "b");
}

#[test]
fn vault_reuses_tree_invariants() {
    let mut slot = VaultSlot::Empty;
    let key = fast_create(&mut slot, "pw");
    let a = with_vault_mut(&mut slot, &key, &decode, |s: &mut Store| s.create_folder(None, "a", 1), 1)
        .unwrap();
    let b = with_vault_mut(&mut slot, &key, &decode, |s: &mut Store| s.create_folder(Some(a), "b", 2), 2)
        .unwrap();
    // Cycle prevention works inside the vault too: move a into its child b.
    let err = with_vault_mut(&mut slot, &key, &decode, |s: &mut Store| s.move_node(a, b, None, 3), 3);
    assert!(matches!(
        err,
        Err(VaultError::Store(StoreError::CycleDetected))
    ));
}

#[test]
fn open_with_wrong_key_fails() {
    let mut slot = VaultSlot::Empty;
    fast_create(&mut slot, "pw");
    // A validly-shaped but wrong key.
    let bogus = codec::encode(&[7u8; 32]);
    assert!(matches!(
        open_with_key(&slot, &bogus, &decode).unwrap_err(),
        VaultError::WrongPhraseOrCorrupt
    ));
    // A malformed key is a distinct, non-oracle error class.
    assert!(matches!(decode_key("not-base64!!"), Err(VaultError::BadKey)));
}

#[test]
fn change_phrase_rekeys() {
    let mut slot = VaultSlot::Empty;
    let key = fast_create(&mut slot, "old phrase");
    with_vault_mut(&mut slot, &key, &decode, |s: &mut Store| s.create_folder(None, "keep", 1), 1).unwrap();
    let new_key = change_phrase(&mut slot, &key, "new phrase", &decode, 2).unwrap();
    assert_ne!(key, new_key);
    // Old phrase no longer unlocks; new phrase does and content survived.
    assert!(unlock(&slot, "old phrase", &decode).is_err());
    let u = unlock(&slot, "new phrase", &decode).unwrap();
    assert_eq!(u.key_b64, new_key);
    assert_eq!(u.store.tree(true).unwrap().children[0].title, "keep");
}

#[test]
fn the_key_opens_what_the_phrase_unlocks() {
    let mut slot = VaultSlot::Empty;
    let key = fast_create(&mut slot, "pw");
    let a = open_with_key(&slot, &key, &decode).unwrap();
    let b = unlock(&slot, "pw", &decode).unwrap().store;
    assert!(a.changes_since(&b).is_empty());
    assert_eq!(decode_key(&key).unwrap().len(), 32);
    assert_eq!(encode_key(&decode_key(&key).unwrap()), key);
    let short = codec::encode(&[1u8; 31]);
    assert!(matches!(decode_key(&short), Err(VaultError::BadKey)));
    assert!(matches!(open_with_key(&slot, "zzz", &decode), Err(VaultError::BadKey)));
    assert!(matches!(
        open_with_key(&VaultSlot::Empty, &key, &decode),
        Err(VaultError::WrongPhraseOrCorrupt)
    ));
}

#[test]
fn a_new_row_is_what_the_ciphers_make_of_it() {
    let salt = [5u8; 16];
    let nonce = [6u8; 24];
    let (key_b64, w) = create_with(&VaultSlot::Empty, "pw", 77, &salt, &nonce).unwrap();
    assert_eq!(w.row.kdf, "argon2id$v=19$m=65536,t=3,p=1$BQUFBQUFBQUFBQUFBQUFBQ==");
    assert_eq!(w.row.nonce, nonce.to_vec());
    assert_eq!(w.row.version, 0);
    assert_eq!(w.updated, 77);
    assert_eq!(w.replaces, None);
    let mut key = [0u8; 32];
    Argon2::new(Algorithm::Argon2id, Version::V0x13, Params::new(65536, 3, 1, Some(32)).unwrap())
        .hash_password_into(b"pw", &salt, &mut key)
        .unwrap();
    assert_eq!(key_b64, codec::encode(&key));
    let mut ad = vec![1u8];
    ad.extend_from_slice(w.row.kdf.as_bytes());
    let plain = XChaCha20Poly1305::new(&key.into())
        .decrypt(XNonce::from_slice(&nonce), Payload { msg: &w.row.ciphertext, aad: &ad })
        .unwrap();
    assert_eq!(
        String::from_utf8(plain).unwrap(),
        "{\"v\":1,\"nodes\":[{\"id\":1,\"parent_id\":null,\"kind\":\"folder\",\"title\":\"Hidden\",\"url\":null,\"position\":0,\"created\":77,\"modified\":77}]}"
    );
}

#[test]
fn blank_phrases_are_refused() {
    let mut slot = VaultSlot::Empty;
    let e = create(&mut slot, " \t", 0).unwrap_err();
    assert_eq!(e.to_text(), "phrase must not be empty");
    assert!(matches!(slot, VaultSlot::Empty));
    let e = change_phrase(&mut slot, "whatever", "", &decode, 0).unwrap_err();
    assert!(matches!(e, VaultError::InvalidArg(_)));
}

#[test]
fn a_failed_change_leaves_the_row() {
    let mut slot = VaultSlot::Empty;
    let key = fast_create(&mut slot, "pw");
    let before = stored(&mut slot).ciphertext.clone();
    let e = with_vault_mut(&mut slot, &key, &decode, |s: &mut Store| s.delete(1), 1).unwrap_err();
    assert!(matches!(e, VaultError::Store(StoreError::CannotModifyRoot)));
    assert_eq!(stored(&mut slot).ciphertext, before);
    assert_eq!(stored(&mut slot).version, 0);
    let e = with_vault_mut(&mut slot, "bad", &decode, |s: &mut Store| s.delete(1), 1).unwrap_err();
    assert!(matches!(e, VaultError::BadKey));
}

#[test]
fn a_change_names_the_version_it_replaces() {
    let mut slot = VaultSlot::Empty;
    let key = low_cost_create(&mut slot, "pw");
    stored(&mut slot).version = 41;
    let nonce = [8u8; 24];
    let (id, w) = change_with(
        &slot,
        &key,
        &decode,
        |s: &mut Store| s.create_folder(None, "f", 3),
        9,
        &nonce,
    )
    .unwrap();
    assert_eq!(id, 2);
    assert_eq!(w.replaces, Some(41));
    assert_eq!(w.row.version, 42);
    assert_eq!(w.updated, 9);
    assert_eq!(w.row.nonce, nonce.to_vec());
    assert_eq!(w.row.kdf, stored(&mut slot).kdf);
    let salt = [3u8; 16];
    let (_, w) = change_phrase_with(&slot, &key, "other", &decode, 10, &salt, &nonce).unwrap();
    assert_eq!(w.replaces, Some(41));
    assert_eq!(w.row.version, 42);
    let u = unlock(&VaultSlot::Row(w.row), "other", &decode).unwrap();
    assert!(u.store.tree(true).unwrap().children.is_empty());
}

#[test]
fn writes_are_retried_up_to_a_budget() {
    assert_eq!(after_write(1, 1), WriteStep::Commit);
    assert_eq!(after_write(8, 1), WriteStep::Commit);
    assert_eq!(after_write(1, 0), WriteStep::Retry);
    assert_eq!(after_write(7, 0), WriteStep::Retry);
    assert_eq!(after_write(8, 0), WriteStep::GiveUp);
}

#[test]
fn what_is_written_is_what_changed() {
    let mut slot = VaultSlot::Empty;
    assert!(pending_write(&slot, &slot, 5).is_none());
    let key = low_cost_create(&mut slot, "pw");
    let w = pending_write(&VaultSlot::Empty, &slot, 5).unwrap();
    assert_eq!((w.updated, w.replaces, w.row.version), (5, None, 0));
    assert!(pending_write(&slot, &slot, 5).is_none());
    stored(&mut slot).version = 7;
    let before = slot.clone();
    with_vault_mut(&mut slot, &key, &decode, |s: &mut Store| s.create_folder(None, "f", 1), 1).unwrap();
    let w = pending_write(&before, &slot, 6).unwrap();
    assert_eq!((w.updated, w.replaces, w.row.version), (6, Some(7), 8));
    assert_eq!(w.row.nonce, stored(&mut slot).nonce);
}

#[test]
fn of_two_writes_from_one_row_one_counts() {
    let mut slot = VaultSlot::Empty;
    let key = low_cost_create(&mut slot, "pw");
    for version in [0, 41, i64::MAX] {
        stored(&mut slot).version = version;
        let write = |title: &str, nonce: u8| {
            change_with(&slot, &key, &decode, |s: &mut Store| s.create_folder(None, title, 3), 9, &[nonce; 24])
                .unwrap()
                .1
        };
        let first = write("a", 1);
        let second = write("b", 2);
        assert_eq!(first.replaces, Some(version));
        assert_eq!(second.replaces, Some(version));
        assert_ne!(Some(first.row.version), second.replaces);
    }
}

#[test]
fn undecodable_plaintext_is_told_like_a_wrong_phrase() {
    let mut slot = VaultSlot::Empty;
    let key = low_cost_create(&mut slot, "pw");
    let mut ad = vec![1u8];
    ad.extend_from_slice(stored(&mut slot).kdf.as_bytes());
    stored(&mut slot).ciphertext =
        seal_with(&decode_key(&key).unwrap(), &[4u8; 24], &ad, b"not json").unwrap();
    assert_unlock_uniform_err(&slot, "pw");
    assert!(matches!(
        open_with_key(&slot, &key, &decode).unwrap_err(),
        VaultError::WrongPhraseOrCorrupt
    ));
}

#[test]
fn bad_plaintexts_are_corrupt() {
    let why = |d: Option<VaultPlaintext>| load_store(d).unwrap_err().to_text();
    assert_eq!(why(None), "could not unlock the vault");
    assert_eq!(
        why(Some(VaultPlaintext { v: 2, nodes: Vec::new() })),
        "vault corrupt: unknown vault format version"
    );
    assert_eq!(
        why(Some(VaultPlaintext { v: 1, nodes: Vec::new() })),
        "vault corrupt: vault must have exactly one root"
    );
    assert!(decode(b"{").is_none());
}

#[test]
fn plaintext_reads_back() {
    let rows = vec![
        NodeRow {
            id: 1,
            parent_id: None,
            kind: NodeKind::Folder,
            title: "Hidden".to_string(),
            url: None,
            position: 0,
            created: -1,
            modified: i64::MAX,
        },
        NodeRow {
            id: 9,
            parent_id: Some(1),
            kind: NodeKind::Bookmark,
            title: "q\"\\\u{1}\u{7f}\n\u{e9}\u{1f512}".to_string(),
            url: Some(String::new()),
            position: i64::MIN,
            created: 0,
            modified: 0,
        },
    ];
    let s = Store::from_vault_rows(&rows).unwrap();
    let bytes = serialize_store(&s).unwrap();
    let again = load_store(decode(&bytes)).unwrap();
    assert!(again.changes_since(&s).is_empty());
}

#[test]
fn every_vault_error_has_its_text() {
    assert_eq!(VaultError::WrongPhraseOrCorrupt.to_text(), "could not unlock the vault");
    assert_eq!(VaultError::AlreadyExists.to_text(), "a hidden vault already exists");
    assert_eq!(VaultError::BadKey.to_text(), "invalid vault key");
    assert_eq!(VaultError::Corrupt("m").to_text(), "vault corrupt: m");
    assert_eq!(VaultError::Contended.to_text(), "vault busy, please retry");
    assert_eq!(VaultError::Store(StoreError::NotFound(3)).to_text(), "no node with id 3");
    assert_eq!(VaultError::Crypto("m").to_text(), "crypto error: m");
    assert_eq!(VaultError::InvalidArg("m".to_string()).to_text(), "m");
    assert!(matches!(VaultError::from(StoreError::CorruptVault("x")), VaultError::Corrupt("x")));
    assert!(matches!(
        VaultError::from(StoreError::CycleDetected),
        VaultError::Store(StoreError::CycleDetected)
    ));
}

#[test]
fn existence_is_the_row() {
    assert!(!vault_exists(&VaultSlot::Empty));
    assert!(vault_exists(&VaultSlot::Malformed));
    assert!(matches!(read_row(&VaultSlot::Empty), Ok(None)));
    assert!(matches!(read_row(&VaultSlot::Malformed), Err(VaultError::WrongPhraseOrCorrupt)));
    let mut slot = VaultSlot::Empty;
    fast_create(&mut slot, "pw");
    assert!(vault_exists(&slot));
    assert!(matches!(read_row(&slot), Ok(Some(r)) if r.version == 0));
}

#[test]
fn parameter_strings_are_read_strictly() {
    let good = "argon2id$v=19$m=65536,t=3,p=1$AAAAAAAAAAA=";
    let k = parse_kdf(good).unwrap();
    assert_eq!((k.m_cost, k.t_cost, k.p_cost, k.salt.len()), (65536, 3, 1, 8));
    let k = parse_kdf("argon2id$v=19$m=64,t=1,p=2$AAAAAAAAAAA=").unwrap();
    assert_eq!((k.m_cost, k.t_cost, k.p_cost), (64, 1, 2));
    for bad in [
        "",
        "argon2id$v=19$m=65536,t=3,p=1",
        "argon2id$v=19$m=65536,t=3,p=1$AAAAAAAAAAA=$",
        "argon2i$v=19$m=65536,t=3,p=1$AAAAAAAAAAA=",
        "argon2id$v=18$m=65536,t=3,p=1$AAAAAAAAAAA=",
        "argon2id$v=19$m=65536,t=3$AAAAAAAAAAA=",
        "argon2id$v=19$m=65536,t=3,p=1,x=1$AAAAAAAAAAA=",
        "argon2id$v=19$m=65536,t=3,p=1,$AAAAAAAAAAA=",
        "argon2id$v=19$m=65536,t=3,t=2,p=1$AAAAAAAAAAAAAAAA",
        "argon2id$v=19$m=65536,m=65536,t=3,p=1$AAAAAAAAAAA=",
        "argon2id$v=19$t=3,m=65536,p=1$AAAAAAAAAAA=",
        "argon2id$v=19$m=+65536,t=3,p=1$AAAAAAAAAAA=",
        "argon2id$v=19$m=065536,t=3,p=1$AAAAAAAAAAA=",
        "argon2id$v=19$m=65536,t=3,p=-1$AAAAAAAAAAA=",
        "argon2id$v=19$m=65536,t=3,p=4294967297$AAAAAAAAAAA=",
        "argon2id$v=19$m=7,t=3,p=1$AAAAAAAAAAA=",
        "argon2id$v=19$m=1048577,t=3,p=1$AAAAAAAAAAA=",
        "argon2id$v=19$m=65536,t=0,p=1$AAAAAAAAAAA=",
        "argon2id$v=19$m=65536,t=65,p=1$AAAAAAAAAAA=",
        "argon2id$v=19$m=65536,t=3,p=0$AAAAAAAAAAA=",
        "argon2id$v=19$m=65536,t=3,p=65$AAAAAAAAAAA=",
        "argon2id$v=19$m=15,t=3,p=2$AAAAAAAAAAA=",
        "argon2id$v=19$m=65536,t=3,p=1$AAAAAAAAAA==",
        "argon2id$v=19$m=65536,t=3,p=1$AAAAAAAAAAA",
    ] {
        assert!(parse_kdf(bad).is_none(), "{bad}");
    }
}

#[test]
fn associated_data_tells_parameter_strings_apart() {
    assert_eq!(associated_data("ab"), vec![1, b'a', b'b']);
    assert_eq!(associated_data(""), vec![1]);
    assert_ne!(associated_data("m=8,t=3"), associated_data("m=8,t=2"));
}

#[test]
fn parameter_strings_read_back() {
    let salt = [0u8, 1, 2, 3, 4, 5, 6, 7, 8, 9, 10, 11, 12, 13, 14, 255];
    let text = kdf_string(&salt);
    assert_eq!(text, "argon2id$v=19$m=65536,t=3,p=1$AAECAwQFBgcICQoLDA0O/w==");
    let k = parse_kdf(&text).unwrap();
    assert_eq!(k.salt, salt.to_vec());
    assert_eq!((k.m_cost, k.t_cost, k.p_cost), (65536, 3, 1));
}

#[test]
fn keys_are_those_of_argon2id() {
    let params = KdfParams { salt: b"saltsalt".to_vec(), m_cost: 32, t_cost: 2, p_cost: 2 };
    let key = derive_key("phrase", &params).unwrap();
    let mut want = [0u8; 32];
    Argon2::new(Algorithm::Argon2id, Version::V0x13, Params::new(32, 2, 2, Some(32)).unwrap())
        .hash_password_into(b"phrase", b"saltsalt", &mut want)
        .unwrap();
    assert_eq!(key, want);
    assert_ne!(derive_key("phrasf", &params).unwrap(), want);
    let short = KdfParams { salt: b"short".to_vec(), m_cost: 32, t_cost: 2, p_cost: 2 };
    assert!(derive_key("phrase", &short).is_none());
}
