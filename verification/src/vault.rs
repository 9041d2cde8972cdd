//! The hidden vault: one subtree, sealed under a key that only the phrase gives.
//!
//! Nothing that could recover the data is stored: the row on disk holds the key
//! derivation parameters with their salt, a nonce and the ciphertext. A wrong phrase,
//! a missing vault and a damaged row are answered alike.

use vstd::prelude::*;
use crate::error::{StoreError, StoreErrorView};
use crate::node::{NodeKind, NodeRow, RowView};
use crate::store::Store;
use crate::table::Table;

verus! {

/// The version of the plaintext format; it is bound into the associated data.
pub const FORMAT_VERSION: u8 = 1;

/// How often a write that lost its race is tried before giving up.
pub const MAX_WRITE_RETRIES: u32 = 8;

/// Errors from vault operations.
#[derive(Debug)]
pub enum VaultError {
    /// Wrong phrase, no vault, or a damaged one: deliberately the same.
    WrongPhraseOrCorrupt,
    /// A vault already exists (on create).
    AlreadyExists,
    /// The caller's key is not the base64 text of 32 bytes.
    BadKey,
    /// The decrypted vault is not a valid tree.
    Corrupt(&'static str),
    /// Other writers kept coming first.
    Contended,
    /// The store failed.
    Store(StoreError),
    /// The key derivation or the cipher failed; not an authentication failure.
    Crypto(&'static str),
    /// Bad argument from the caller.
    InvalidArg(String),
}

/// What a [`VaultError`] holds, with text as sequences of characters.
#[verifier::ext_equal]
pub enum VaultErrorView {
    WrongPhraseOrCorrupt,
    AlreadyExists,
    BadKey,
    Corrupt(Seq<char>),
    Contended,
    Store(StoreErrorView),
    Crypto(Seq<char>),
    InvalidArg(Seq<char>),
}

impl View for VaultError {
    type V = VaultErrorView;

    open spec fn view(&self) -> VaultErrorView {
        match self {
            VaultError::WrongPhraseOrCorrupt => VaultErrorView::WrongPhraseOrCorrupt,
            VaultError::AlreadyExists => VaultErrorView::AlreadyExists,
            VaultError::BadKey => VaultErrorView::BadKey,
            VaultError::Corrupt(m) => VaultErrorView::Corrupt(m@),
            VaultError::Contended => VaultErrorView::Contended,
            VaultError::Store(e) => VaultErrorView::Store(e@),
            VaultError::Crypto(m) => VaultErrorView::Crypto(m@),
            VaultError::InvalidArg(m) => VaultErrorView::InvalidArg(m@),
        }
    }
}

/// The text of an error.
pub open spec fn vault_error_text(e: VaultErrorView) -> Seq<char> {
    match e {
        VaultErrorView::WrongPhraseOrCorrupt => "could not unlock the vault"@,
        VaultErrorView::AlreadyExists => "a hidden vault already exists"@,
        VaultErrorView::BadKey => "invalid vault key"@,
        VaultErrorView::Corrupt(m) => "vault corrupt: "@ + m,
        VaultErrorView::Contended => "vault busy, please retry"@,
        VaultErrorView::Store(e) => crate::error::error_text(e),
        VaultErrorView::Crypto(m) => "crypto error: "@ + m,
        VaultErrorView::InvalidArg(m) => m,
    }
}

impl VaultError {
    /// The text of the error.
    pub fn to_text(&self) -> (r: String)
        ensures
            r@ == vault_error_text(self@),
    {
        match self {
            VaultError::WrongPhraseOrCorrupt => "could not unlock the vault".to_owned(),
            VaultError::AlreadyExists => "a hidden vault already exists".to_owned(),
            VaultError::BadKey => "invalid vault key".to_owned(),
            VaultError::Corrupt(m) => crate::error::joined("vault corrupt: ", m),
            VaultError::Contended => "vault busy, please retry".to_owned(),
            VaultError::Store(e) => e.to_text(),
            VaultError::Crypto(m) => crate::error::joined("crypto error: ", m),
            VaultError::InvalidArg(m) => m.clone(),
        }
    }
}

/// A store error as a vault error: a bad vault tree is a corrupt vault.
pub open spec fn store_error(e: StoreErrorView) -> VaultErrorView {
    match e {
        StoreErrorView::CorruptVault(m) => VaultErrorView::Corrupt(m),
        other => VaultErrorView::Store(other),
    }
}

impl From<StoreError> for VaultError {
    fn from(e: StoreError) -> (r: Self)
        ensures
            r@ == store_error(e@),
    {
        match e {
            StoreError::CorruptVault(m) => VaultError::Corrupt(m),
            other => VaultError::Store(other),
        }
    }
}

impl vstd::std_specs::convert::FromSpecImpl<StoreError> for VaultError {
    open spec fn obeys_from_spec() -> bool {
        true
    }

    open spec fn from_spec(e: StoreError) -> VaultError {
        match e {
            StoreError::CorruptVault(m) => VaultError::Corrupt(m),
            other => VaultError::Store(other),
        }
    }
}

/// The row of the `vault` table.
#[derive(Debug, Clone)]
pub struct VaultRow {
    pub kdf: String,
    pub nonce: Vec<u8>,
    pub ciphertext: Vec<u8>,
    pub version: i64,
}

/// What a [`VaultRow`] holds.
#[verifier::ext_equal]
pub struct VaultRowView {
    pub kdf: Seq<char>,
    pub nonce: Seq<u8>,
    pub ciphertext: Seq<u8>,
    pub version: i64,
}

impl View for VaultRow {
    type V = VaultRowView;

    open spec fn view(&self) -> VaultRowView {
        VaultRowView {
            kdf: self.kdf@,
            nonce: self.nonce@,
            ciphertext: self.ciphertext@,
            version: self.version,
        }
    }
}

/// The `vault` table: it has one row or none.
#[derive(Debug, Clone)]
pub enum VaultSlot {
    /// No vault was created.
    Empty,
    /// There is a row, but a column of it has another type than it should.
    Malformed,
    /// There is a row.
    Row(VaultRow),
}

/// What a [`VaultSlot`] holds.
#[verifier::ext_equal]
pub enum SlotView {
    Empty,
    Malformed,
    Row(VaultRowView),
}

impl View for VaultSlot {
    type V = SlotView;

    open spec fn view(&self) -> SlotView {
        match self {
            VaultSlot::Empty => SlotView::Empty,
            VaultSlot::Malformed => SlotView::Malformed,
            VaultSlot::Row(r) => SlotView::Row(r@),
        }
    }
}

/// A row to be written to the `vault` table.
#[derive(Debug)]
pub struct VaultWrite {
    pub row: VaultRow,
    /// The value of the column `updated`.
    pub updated: i64,
    /// The version that the row has to have before, for the write to count; `None`
    /// for a new row.
    pub replaces: Option<i64>,
}

/// The decrypted plaintext: a format version and the rows, the vault's root included.
#[derive(Debug)]
pub struct VaultPlaintext {
    pub v: u8,
    pub nodes: Vec<NodeRow>,
}

/// What an unlocked vault gives: its key for later requests, and its nodes.
#[derive(Debug)]
pub struct Unlocked {
    pub key_b64: String,
    pub store: Store,
}

/// The row, if there is a good one.
pub open spec fn row_in(slot: SlotView) -> Option<VaultRowView> {
    match slot {
        SlotView::Row(r) => Some(r),
        _ => None,
    }
}

/// The version that a write over this row has to find; `None` where there is no row.
pub open spec fn version_of(slot: SlotView) -> Option<i64> {
    match slot {
        SlotView::Row(row) => Some(row.version),
        _ => None,
    }
}

/// The write counts where this is the row: it finds the version that it replaces, or, as the
/// first one, no row.
pub open spec fn write_counts(slot: SlotView, w: VaultWrite) -> bool {
    match w.replaces {
        Some(v) => version_of(slot) == Some(v),
        None => slot is Empty,
    }
}

/// The write carries the version after the one that it replaces.
pub open spec fn moves_version(w: VaultWrite) -> bool {
    w.replaces matches Some(v) ==> w.row.version == v.wrapping_add(1)
}

/// `after` is a row with the version after that of `before`.
pub open spec fn next_row(before: SlotView, after: SlotView) -> bool {
    &&& after is Row
    &&& version_of(before) matches Some(v) ==> version_of(after) == Some(v.wrapping_add(1))
}

/// The key that a base64 text stands for.
pub open spec fn key_in(b64: Seq<char>) -> Option<Seq<u8>> {
    match crate::codec::base64_bytes(b64) {
        Some(b) => if b.len() == 32 {
            Some(b)
        } else {
            None
        },
        None => None,
    }
}

/// The associated data: the format version and the parameter string.
pub open spec fn bound_data(kdf: Seq<char>) -> Seq<u8> {
    seq![FORMAT_VERSION] + vstd::utf8::encode_utf8(kdf)
}

/// The plaintext that a row holds under a key.
pub open spec fn plaintext_in(key: Seq<u8>, row: VaultRowView) -> Option<Seq<u8>> {
    crate::cipher::message_of(key, row.nonce, bound_data(row.kdf), row.ciphertext)
}

/// The key that a phrase gives under a parameter string, or why it gives none.
pub open spec fn phrase_key(phrase: Seq<char>, kdf: Seq<char>) -> Result<Seq<u8>, VaultErrorView> {
    let pwd = vstd::utf8::encode_utf8(phrase);
    match crate::kdf::parsed_kdf(kdf) {
        None => Err(VaultErrorView::WrongPhraseOrCorrupt),
        Some(k) => if crate::kdf::lengths_accepted(pwd, k.salt) {
            Ok(crate::kdf::argon2id(pwd, k.salt, k.m_cost, k.t_cost, k.p_cost))
        } else {
            Err(VaultErrorView::Crypto("argon2 derivation failed"@))
        },
    }
}

/// The key and the plaintext that a phrase gives, or why it gives none.
pub open spec fn unlocked_by(slot: SlotView, phrase: Seq<char>) -> Result<
    (Seq<u8>, Seq<u8>),
    VaultErrorView,
> {
    match row_in(slot) {
        None => Err(VaultErrorView::WrongPhraseOrCorrupt),
        Some(row) => match phrase_key(phrase, row.kdf) {
            Err(e) => Err(e),
            Ok(key) => match plaintext_in(key, row) {
                None => Err(VaultErrorView::WrongPhraseOrCorrupt),
                Some(p) => Ok((key, p)),
            },
        },
    }
}

/// The key and the plaintext that a key text gives, or why it gives none.
pub open spec fn opened_by(slot: SlotView, key_b64: Seq<char>) -> Result<
    (Seq<u8>, Seq<u8>),
    VaultErrorView,
> {
    match key_in(key_b64) {
        None => Err(VaultErrorView::BadKey),
        Some(key) => match row_in(slot) {
            None => Err(VaultErrorView::WrongPhraseOrCorrupt),
            Some(row) => match plaintext_in(key, row) {
                None => Err(VaultErrorView::WrongPhraseOrCorrupt),
                Some(p) => Ok((key, p)),
            },
        },
    }
}

/// Whether a vault exists.
pub fn vault_exists(slot: &VaultSlot) -> (r: bool)
    ensures
        r == !(slot@ is Empty),
{
    match slot {
        VaultSlot::Empty => false,
        _ => true,
    }
}

/// The row, where a vault exists; an error where it was tampered with.
pub fn read_row(slot: &VaultSlot) -> (r: Result<Option<&VaultRow>, VaultError>)
    ensures
        match r {
            Ok(None) => slot@ is Empty,
            Ok(Some(row)) => slot@ == SlotView::Row(row@),
            Err(e) => slot@ is Malformed && e is WrongPhraseOrCorrupt,
        },
{
    match slot {
        VaultSlot::Empty => Ok(None),
        VaultSlot::Malformed => Err(VaultError::WrongPhraseOrCorrupt),
        VaultSlot::Row(row) => Ok(Some(row)),
    }
}

/// The row of an existing vault; every other case is the same error.
fn need_row(slot: &VaultSlot) -> (r: Result<&VaultRow, VaultError>)
    ensures
        match r {
            Ok(row) => row_in(slot@) == Some(row@),
            Err(e) => row_in(slot@) is None && e is WrongPhraseOrCorrupt,
        },
{
    match read_row(slot) {
        Ok(Some(row)) => Ok(row),
        _ => Err(VaultError::WrongPhraseOrCorrupt),
    }
}

/// Decodes a key for the wire back to its 32 bytes.
pub fn decode_key(b64: &str) -> (r: Result<[u8; 32], VaultError>)
    ensures
        match r {
            Ok(k) => key_in(b64@) == Some(k@),
            Err(e) => key_in(b64@) is None && e is BadKey,
        },
{
    let bytes = match crate::codec::decode(b64) {
        Some(b) => b,
        None => {
            return Err(VaultError::BadKey);
        },
    };
    if bytes.len() != 32 {
        return Err(VaultError::BadKey);
    }
    let mut key = [0u8; 32];
    let mut i: usize = 0;
    while i < 32
        invariant
            i <= 32,
            bytes@.len() == 32,
            forall|k: int| 0 <= k < i ==> key@[k] == bytes@[k],
        decreases 32 - i,
    {
        key[i] = bytes[i];
        i = i + 1;
    }
    assert(key@ =~= bytes@);
    Ok(key)
}

/// Encodes a key for the wire.
pub fn encode_key(key: &[u8; 32]) -> (r: String)
    ensures
        r@ == crate::codec::base64_text(key@),
{
    crate::codec::encode(key.as_slice())
}

/// The associated data of every sealed message: a change of the salt, of a cost or of the
/// format version makes it another.
pub fn associated_data(kdf: &str) -> (r: Vec<u8>)
    ensures
        r@ == bound_data(kdf@),
{
    let mut ad: Vec<u8> = Vec::new();
    ad.push(FORMAT_VERSION);
    ad.extend_from_slice(kdf.as_bytes());
    assert(ad@ =~= bound_data(kdf@));
    ad
}

/// Seals a plaintext under a key and a nonce.
fn seal(key: &[u8; 32], kdf: &str, plaintext: &[u8], nonce: &[u8; 24]) -> (r: Result<
    Vec<u8>,
    VaultError,
>)
    ensures
        match r {
            Ok(ct) => {
                &&& plaintext@.len() <= crate::cipher::MAX_MESSAGE
                &&& ct@ == crate::cipher::sealed(key@, nonce@, bound_data(kdf@), plaintext@)
                &&& crate::cipher::message_of(key@, nonce@, bound_data(kdf@), ct@) == Some(
                    plaintext@,
                )
            },
            Err(e) => {
                &&& plaintext@.len() > crate::cipher::MAX_MESSAGE
                &&& e@ == VaultErrorView::Crypto("encryption failed"@)
            },
        },
{
    let ad = associated_data(kdf);
    match crate::cipher::seal_with(key, nonce, ad.as_slice(), plaintext) {
        Some(ct) => Ok(ct),
        None => Err(VaultError::Crypto("encryption failed")),
    }
}

/// Opens the sealed plaintext of a row.
fn open(key: &[u8; 32], row: &VaultRow) -> (r: Result<Vec<u8>, VaultError>)
    ensures
        match r {
            Ok(p) => plaintext_in(key@, row@) == Some(p@),
            Err(e) => plaintext_in(key@, row@) is None && e is WrongPhraseOrCorrupt,
        },
{
    let ad = associated_data(row.kdf.as_str());
    match crate::cipher::open_with(
        key,
        row.nonce.as_slice(),
        ad.as_slice(),
        row.ciphertext.as_slice(),
    ) {
        Some(p) => Ok(p),
        None => Err(VaultError::WrongPhraseOrCorrupt),
    }
}

/// What is wrong with a decoded plaintext; `None` in the place of a plaintext means
/// that the bytes could not be decoded, which is told like a wrong phrase.
pub open spec fn plaintext_error(d: Option<VaultPlaintext>) -> Option<VaultErrorView> {
    match d {
        None => Some(VaultErrorView::WrongPhraseOrCorrupt),
        Some(p) => if p.v != FORMAT_VERSION {
            Some(VaultErrorView::Corrupt("unknown vault format version"@))
        } else {
            match crate::load::load_error(crate::load::row_views(p.nodes@)) {
                Some(e) => Some(store_error(e)),
                None => None,
            }
        },
    }
}

/// The nodes of a decoded plaintext.
pub open spec fn plaintext_table(d: Option<VaultPlaintext>) -> Table {
    crate::load::vault_table(crate::load::row_views(d->0.nodes@))
}

/// Loads a decoded plaintext into a store of its own.
pub fn load_store(plaintext: Option<VaultPlaintext>) -> (r: Result<Store, VaultError>)
    ensures
        match r {
            Ok(s) => {
                &&& plaintext_error(plaintext) is None
                &&& s.wf()
                &&& s@ == plaintext_table(plaintext)
            },
            Err(e) => plaintext_error(plaintext) == Some(e@),
        },
{
    match plaintext {
        None => Err(VaultError::WrongPhraseOrCorrupt),
        Some(p) => {
            if p.v != FORMAT_VERSION {
                return Err(VaultError::Corrupt("unknown vault format version"));
            }
            match Store::from_vault_rows(p.nodes.as_slice()) {
                Ok(s) => Ok(s),
                Err(e) => Err(VaultError::from(e)),
            }
        },
    }
}

/// The rows that a table is dumped to.
pub open spec fn dumped(t: Table) -> Seq<RowView> {
    choose|s: Seq<RowView>| crate::load::is_dump(t, s)
}

/// The plaintext of a vault that holds this table.
pub open spec fn plaintext_of(t: Table) -> Seq<u8> {
    vstd::utf8::encode_utf8(crate::json::plaintext_json(FORMAT_VERSION, dumped(t)))
}

/// Writes the nodes of a vault as plaintext bytes.
pub fn serialize_store(store: &Store) -> (r: Result<Vec<u8>, VaultError>)
    requires
        store.wf(),
    ensures
        r matches Ok(b) && b@ == plaintext_of(store@),
{
    match store.dump_rows() {
        Ok(rows) => {
            let text = crate::json::plaintext_text(FORMAT_VERSION, &rows);
            proof {
                crate::load::lemma_dump_unique(
                    store@,
                    crate::load::row_views(rows@),
                    dumped(store@),
                );
            }
            Ok(vstd::slice::slice_to_vec(text.as_str().as_bytes()))
        },
        Err(e) => Err(VaultError::from(e)),
    }
}

/// `d` is what the decoder makes of these bytes.
pub open spec fn decoded<D: Fn(&[u8]) -> Option<VaultPlaintext>>(
    decode: D,
    bytes: Seq<u8>,
    d: Option<VaultPlaintext>,
) -> bool {
    exists|b: &[u8]| b@ == bytes && #[trigger] call_ensures(decode, (b,), d)
}

/// `r` is what loading these bytes gives.
pub open spec fn loads<D: Fn(&[u8]) -> Option<VaultPlaintext>>(
    decode: D,
    bytes: Seq<u8>,
    r: Result<Store, VaultErrorView>,
) -> bool {
    exists|d: Option<VaultPlaintext>|
        {
            &&& #[trigger] decoded(decode, bytes, d)
            &&& match r {
                Ok(s) => {
                    &&& plaintext_error(d) is None
                    &&& s.wf()
                    &&& s@ == plaintext_table(d)
                },
                Err(e) => plaintext_error(d) == Some(e),
            }
        }
}

/// Decodes and loads plaintext bytes.
fn load_bytes<D: Fn(&[u8]) -> Option<VaultPlaintext>>(decode: &D, bytes: &[u8]) -> (r: Result<
    Store,
    VaultError,
>)
    requires
        forall|b: &[u8]| #[trigger] call_requires(*decode, (b,)),
    ensures
        match r {
            Ok(s) => loads(*decode, bytes@, Ok(s)),
            Err(e) => loads(*decode, bytes@, Err(e@)),
        },
{
    let d = (*decode)(bytes);
    assert(decoded(*decode, bytes@, d));
    load_store(d)
}

/// The key that a phrase gives under a parameter string.
fn key_from_phrase(phrase: &str, kdf: &str) -> (r: Result<[u8; 32], VaultError>)
    ensures
        match (r, phrase_key(phrase@, kdf@)) {
            (Ok(k), Ok(s)) => k@ == s,
            (Err(e), Err(v)) => e@ == v,
            _ => false,
        },
{
    match crate::kdf::parse_kdf(kdf) {
        None => Err(VaultError::WrongPhraseOrCorrupt),
        Some(params) => match crate::kdf::derive_key(phrase, &params) {
            Some(k) => Ok(k),
            None => Err(VaultError::Crypto("argon2 derivation failed")),
        },
    }
}

/// Unlocks a vault with a phrase.
pub fn unlock<D: Fn(&[u8]) -> Option<VaultPlaintext>>(
    slot: &VaultSlot,
    phrase: &str,
    decode: &D,
) -> (r: Result<Unlocked, VaultError>)
    requires
        forall|b: &[u8]| #[trigger] call_requires(*decode, (b,)),
    ensures
        match unlocked_by(slot@, phrase@) {
            Err(e) => r matches Err(f) && f@ == e,
            Ok((key, plaintext)) => match r {
                Ok(u) => {
                    &&& u.key_b64@ == crate::codec::base64_text(key)
                    &&& loads(*decode, plaintext, Ok(u.store))
                },
                Err(e) => loads(*decode, plaintext, Err(e@)),
            },
        },
{
    let row = match need_row(slot) {
        Ok(row) => row,
        Err(e) => {
            return Err(e);
        },
    };
    let mut key = match key_from_phrase(phrase, row.kdf.as_str()) {
        Ok(k) => k,
        Err(e) => {
            return Err(e);
        },
    };
    let opened = open(&key, row);
    let key_b64 = encode_key(&key);
    crate::cipher::wipe(&mut key);
    match opened {
        Err(e) => Err(e),
        Ok(plaintext) => match load_bytes(decode, plaintext.as_slice()) {
            Err(e) => Err(e),
            Ok(store) => Ok(Unlocked { key_b64, store }),
        },
    }
}

/// Opens a vault with the key of an earlier unlock.
pub fn open_with_key<D: Fn(&[u8]) -> Option<VaultPlaintext>>(
    slot: &VaultSlot,
    key_b64: &str,
    decode: &D,
) -> (r: Result<Store, VaultError>)
    requires
        forall|b: &[u8]| #[trigger] call_requires(*decode, (b,)),
    ensures
        match opened_by(slot@, key_b64@) {
            Err(e) => r matches Err(f) && f@ == e,
            Ok((key, plaintext)) => match r {
                Ok(s) => loads(*decode, plaintext, Ok(s)),
                Err(e) => loads(*decode, plaintext, Err(e@)),
            },
        },
{
    let mut key = match decode_key(key_b64) {
        Ok(k) => k,
        Err(e) => {
            return Err(e);
        },
    };
    let opened = match need_row(slot) {
        Err(e) => Err(e),
        Ok(row) => open(&key, row),
    };
    crate::cipher::wipe(&mut key);
    match opened {
        Err(e) => Err(e),
        Ok(plaintext) => load_bytes(decode, plaintext.as_slice()),
    }
}

/// The rows of a new vault: its root folder.
pub open spec fn new_rows(now: i64) -> Seq<RowView> {
    seq![
        RowView {
            id: 1,
            parent_id: None,
            kind: NodeKind::Folder,
            title: "Hidden"@,
            url: None,
            position: 0,
            created: now,
            modified: now,
        },
    ]
}

/// The plaintext of a new vault.
pub open spec fn new_plaintext(now: i64) -> Seq<u8> {
    vstd::utf8::encode_utf8(crate::json::plaintext_json(FORMAT_VERSION, new_rows(now)))
}

/// Why a vault cannot get this phrase.
pub open spec fn phrase_error(phrase: Seq<char>) -> Option<VaultErrorView> {
    if crate::text::blank(phrase) {
        Some(VaultErrorView::InvalidArg("phrase must not be empty"@))
    } else {
        None
    }
}

/// Why a vault cannot be created: a blank phrase, a vault that is there, a phrase or
/// a plaintext that is too long.
pub open spec fn create_error(slot: SlotView, phrase: Seq<char>, now: i64) -> Option<
    VaultErrorView,
> {
    if phrase_error(phrase) is Some {
        phrase_error(phrase)
    } else if !(slot is Empty) {
        Some(VaultErrorView::AlreadyExists)
    } else {
        seal_error(phrase, new_plaintext(now))
    }
}

/// Why a plaintext cannot be sealed under a phrase: one of them is too long.
pub open spec fn seal_error(phrase: Seq<char>, plaintext: Seq<u8>) -> Option<VaultErrorView> {
    if vstd::utf8::encode_utf8(phrase).len() > 0xFFFF_FFFF {
        Some(VaultErrorView::Crypto("argon2 derivation failed"@))
    } else if plaintext.len() > crate::cipher::MAX_MESSAGE {
        Some(VaultErrorView::Crypto("encryption failed"@))
    } else {
        None
    }
}

/// The key that a phrase gives with a new salt.
pub open spec fn new_key(phrase: Seq<char>, salt: Seq<u8>) -> Seq<u8> {
    crate::kdf::argon2id(
        vstd::utf8::encode_utf8(phrase),
        salt,
        crate::kdf::ARGON_M_COST_KIB,
        crate::kdf::ARGON_T_COST,
        crate::kdf::ARGON_P_COST,
    )
}

/// The row of a plaintext sealed under a phrase.
pub open spec fn sealed_row(
    phrase: Seq<char>,
    salt: Seq<u8>,
    nonce: Seq<u8>,
    plaintext: Seq<u8>,
    version: i64,
) -> VaultRowView {
    let kdf = crate::kdf::kdf_text(salt);
    let key = new_key(phrase, salt);
    VaultRowView {
        kdf,
        nonce,
        ciphertext: crate::cipher::sealed(key, nonce, bound_data(kdf), plaintext),
        version,
    }
}

/// Seals a plaintext under a phrase. The phrase opens what comes out.
fn seal_under(phrase: &str, salt: &[u8; 16], nonce: &[u8; 24], plaintext: &[u8], version: i64) -> (r:
    Result<(String, VaultRow), VaultError>)
    ensures
        match r {
            Ok((key_b64, row)) => {
                let key = new_key(phrase@, salt@);
                &&& seal_error(phrase@, plaintext@) is None
                &&& phrase_key(phrase@, row@.kdf) == Ok::<_, VaultErrorView>(key)
                &&& key_b64@ == crate::codec::base64_text(key)
                &&& key.len() == 32
                &&& row@ == sealed_row(phrase@, salt@, nonce@, plaintext@, version)
                &&& plaintext_in(key, row@) == Some(plaintext@)
            },
            Err(e) => seal_error(phrase@, plaintext@) == Some(e@),
        },
{
    proof {
        crate::kdf::lemma_kdf_reads_back(salt@);
    }
    let kdf = crate::kdf::kdf_string(salt.as_slice());
    let mut key = match key_from_phrase(phrase, kdf.as_str()) {
        Ok(k) => k,
        Err(e) => {
            return Err(e);
        },
    };
    let sealed = seal(&key, kdf.as_str(), plaintext, nonce);
    let key_b64 = encode_key(&key);
    crate::cipher::wipe(&mut key);
    match sealed {
        Err(e) => Err(e),
        Ok(ciphertext) => {
            let row = VaultRow {
                kdf,
                nonce: vstd::slice::slice_to_vec(nonce.as_slice()),
                ciphertext,
                version,
            };
            Ok((key_b64, row))
        },
    }
}

/// Makes a new vault with this salt and this nonce: the key for the wire, and the row
/// to be written. The phrase unlocks it, and what it unlocks is a root folder.
pub fn create_with(
    slot: &VaultSlot,
    phrase: &str,
    now: i64,
    salt: &[u8; 16],
    nonce: &[u8; 24],
) -> (r: Result<(String, VaultWrite), VaultError>)
    ensures
        match r {
            Ok((key_b64, w)) => {
                let key = new_key(phrase@, salt@);
                &&& create_error(slot@, phrase@, now) is None
                &&& key_b64@ == crate::codec::base64_text(key)
                &&& w.row@ == sealed_row(phrase@, salt@, nonce@, new_plaintext(now), 0)
                &&& w.updated == now
                &&& w.replaces is None
                &&& write_counts(slot@, w)
                &&& unlocked_by(SlotView::Row(w.row@), phrase@) == Ok::<_, VaultErrorView>(
                    (key, new_plaintext(now)),
                )
                &&& opened_by(SlotView::Row(w.row@), key_b64@) == Ok::<_, VaultErrorView>(
                    (key, new_plaintext(now)),
                )
            },
            Err(e) => create_error(slot@, phrase@, now) == Some(e@),
        },
{
    if crate::text::is_blank(phrase) {
        return Err(VaultError::InvalidArg("phrase must not be empty".to_owned()));
    }
    if vault_exists(slot) {
        return Err(VaultError::AlreadyExists);
    }
    let mut rows: Vec<NodeRow> = Vec::new();
    rows.push(
        NodeRow {
            id: 1,
            parent_id: None,
            kind: NodeKind::Folder,
            title: "Hidden".to_owned(),
            url: None,
            position: 0,
            created: now,
            modified: now,
        },
    );
    assert(crate::load::row_views(rows@) =~= new_rows(now));
    let text = crate::json::plaintext_text(FORMAT_VERSION, &rows);
    match seal_under(phrase, salt, nonce, text.as_str().as_bytes(), 0) {
        Err(e) => Err(e),
        Ok((key_b64, row)) => {
            proof {
                let key = new_key(phrase@, salt@);
                crate::codec::lemma_decodes(key);
            }
            Ok((key_b64, VaultWrite { row, updated: now, replaces: None }))
        },
    }
}

/// A result with views in the place of values.
pub open spec fn key_outcome(r: Result<String, VaultError>) -> Result<Seq<char>, VaultErrorView> {
    match r {
        Ok(k) => Ok(k@),
        Err(e) => Err(e@),
    }
}

/// What creating a vault comes to: the error, or a row under some salt and nonce, whose
/// key is handed out and which the phrase unlocks.
pub open spec fn created(
    slot: SlotView,
    phrase: Seq<char>,
    now: i64,
    after: SlotView,
    r: Result<Seq<char>, VaultErrorView>,
) -> bool {
    match r {
        Ok(key_b64) => {
            &&& create_error(slot, phrase, now) is None
            &&& exists|salt: Seq<u8>, nonce: Seq<u8>|
                {
                    &&& salt.len() == 16
                    &&& nonce.len() == 24
                    &&& after == SlotView::Row(
                        #[trigger] sealed_row(phrase, salt, nonce, new_plaintext(now), 0),
                    )
                    &&& key_b64 == crate::codec::base64_text(new_key(phrase, salt))
                }
            &&& unlocked_by(after, phrase) matches Ok((key, p)) && p == new_plaintext(now)
                && key_b64 == crate::codec::base64_text(key) && opened_by(after, key_b64) == Ok::<
                _,
                VaultErrorView,
            >((key, p))
        },
        Err(e) => {
            &&& create_error(slot, phrase, now) == Some(e)
            &&& after == slot
        },
    }
}

/// Creates a vault that holds just its root folder, under a fresh salt and nonce.
/// Returns the key for the wire.
pub fn create(slot: &mut VaultSlot, phrase: &str, now: i64) -> (r: Result<String, VaultError>)
    ensures
        created(old(slot)@, phrase@, now, final(slot)@, key_outcome(r)),
{
    let salt = crate::cipher::fresh_salt();
    let nonce = crate::cipher::fresh_nonce();
    match create_with(slot, phrase, now, &salt, &nonce) {
        Err(e) => Err(e),
        Ok((key_b64, w)) => {
            assert(salt@.len() == 16 && nonce@.len() == 24);
            *slot = VaultSlot::Row(w.row);
            Ok(key_b64)
        },
    }
}

/// Gives a vault a new phrase with this salt and this nonce, its plaintext unchanged:
/// the new key for the wire, and the row to be written.
pub fn change_phrase_with<D: Fn(&[u8]) -> Option<VaultPlaintext>>(
    slot: &VaultSlot,
    key_b64: &str,
    new_phrase: &str,
    decode: &D,
    now: i64,
    salt: &[u8; 16],
    nonce: &[u8; 24],
) -> (r: Result<(String, VaultWrite), VaultError>)
    requires
        forall|b: &[u8]| #[trigger] call_requires(*decode, (b,)),
    ensures
        match (phrase_error(new_phrase@), opened_by(slot@, key_b64@)) {
            (Some(e), _) => r matches Err(f) && f@ == e,
            (None, Err(e)) => r matches Err(f) && f@ == e,
            (None, Ok((_, plaintext))) => match r {
                Ok((new_b64, w)) => {
                    let key = new_key(new_phrase@, salt@);
                    let version = row_in(slot@)->0.version;
                    &&& exists|s: Store| loads(*decode, plaintext, Ok(s))
                    &&& seal_error(new_phrase@, plaintext) is None
                    &&& new_b64@ == crate::codec::base64_text(key)
                    &&& w.row@ == sealed_row(
                        new_phrase@,
                        salt@,
                        nonce@,
                        plaintext,
                        version.wrapping_add(1),
                    )
                    &&& w.updated == now
                    &&& w.replaces == Some(version)
                    &&& write_counts(slot@, w) && moves_version(w)
                    &&& unlocked_by(SlotView::Row(w.row@), new_phrase@) == Ok::<_, VaultErrorView>(
                        (key, plaintext),
                    )
                    &&& opened_by(SlotView::Row(w.row@), new_b64@) == Ok::<_, VaultErrorView>(
                        (key, plaintext),
                    )
                },
                Err(e) => {
                    ||| loads(*decode, plaintext, Err(e@))
                    ||| (exists|s: Store| loads(*decode, plaintext, Ok(s))) && seal_error(
                        new_phrase@,
                        plaintext,
                    ) == Some(e@)
                },
            },
        },
{
    if crate::text::is_blank(new_phrase) {
        return Err(VaultError::InvalidArg("phrase must not be empty".to_owned()));
    }
    let mut key = match decode_key(key_b64) {
        Ok(k) => k,
        Err(e) => {
            return Err(e);
        },
    };
    let row = match need_row(slot) {
        Ok(row) => row,
        Err(e) => {
            crate::cipher::wipe(&mut key);
            return Err(e);
        },
    };
    let opened = open(&key, row);
    crate::cipher::wipe(&mut key);
    let plaintext = match opened {
        Ok(p) => p,
        Err(e) => {
            return Err(e);
        },
    };
    match load_bytes(decode, plaintext.as_slice()) {
        Ok(s) => {
            assert(loads(*decode, plaintext@, Ok(s)));
        },
        Err(e) => {
            return Err(e);
        },
    }
    let version: i64 = row.version;
    match seal_under(new_phrase, salt, nonce, plaintext.as_slice(), version.wrapping_add(1)) {
        Err(e) => Err(e),
        Ok((new_b64, row)) => {
            proof {
                let key = new_key(new_phrase@, salt@);
                crate::codec::lemma_decodes(key);
            }
            Ok((new_b64, VaultWrite { row, updated: now, replaces: Some(version) }))
        },
    }
}

/// What changing the phrase comes to: the error, or the same plaintext under the new
/// phrase, whose key is handed out.
pub open spec fn rephrased<D: Fn(&[u8]) -> Option<VaultPlaintext>>(
    decode: D,
    slot: SlotView,
    key_b64: Seq<char>,
    new_phrase: Seq<char>,
    after: SlotView,
    r: Result<Seq<char>, VaultErrorView>,
) -> bool {
    &&& r is Err ==> after == slot
    &&& match (phrase_error(new_phrase), opened_by(slot, key_b64)) {
        (Some(e), _) => r == Err::<Seq<char>, _>(e),
        (None, Err(e)) => r == Err::<Seq<char>, _>(e),
        (None, Ok((_, plaintext))) => match r {
            Ok(new_b64) => {
                &&& exists|s: Store| loads(decode, plaintext, Ok(s))
                &&& seal_error(new_phrase, plaintext) is None
                &&& exists|salt: Seq<u8>, nonce: Seq<u8>|
                    {
                        &&& salt.len() == 16
                        &&& nonce.len() == 24
                        &&& after == SlotView::Row(
                            #[trigger] sealed_row(
                                new_phrase,
                                salt,
                                nonce,
                                plaintext,
                                row_in(slot)->0.version.wrapping_add(1),
                            ),
                        )
                    }
                &&& unlocked_by(after, new_phrase) matches Ok((key, p)) && p == plaintext && new_b64
                    == crate::codec::base64_text(key) && opened_by(after, new_b64) == Ok::<
                    _,
                    VaultErrorView,
                >((key, p))
            },
            Err(e) => {
                ||| loads(decode, plaintext, Err(e))
                ||| (exists|s: Store| loads(decode, plaintext, Ok(s))) && seal_error(
                    new_phrase,
                    plaintext,
                ) == Some(e)
            },
        },
    }
}

/// Gives a vault a new phrase under a fresh salt and nonce, its plaintext unchanged.
/// Requires the current key; returns the new one.
pub fn change_phrase<D: Fn(&[u8]) -> Option<VaultPlaintext>>(
    slot: &mut VaultSlot,
    key_b64: &str,
    new_phrase: &str,
    decode: &D,
    now: i64,
) -> (r: Result<String, VaultError>)
    requires
        forall|b: &[u8]| #[trigger] call_requires(*decode, (b,)),
    ensures
        rephrased(*decode, old(slot)@, key_b64@, new_phrase@, final(slot)@, key_outcome(r)),
{
    let salt = crate::cipher::fresh_salt();
    let nonce = crate::cipher::fresh_nonce();
    match change_phrase_with(slot, key_b64, new_phrase, decode, now, &salt, &nonce) {
        Err(e) => Err(e),
        Ok((new_b64, w)) => {
            assert(salt@.len() == 16 && nonce@.len() == 24);
            *slot = VaultSlot::Row(w.row);
            Ok(new_b64)
        },
    }
}

/// The row of a vault after a change: the same parameters, a new nonce, the nodes of
/// `t` sealed under `key`, the next version.
pub open spec fn rewritten(key: Seq<u8>, row: VaultRowView, nonce: Seq<u8>, t: Table) -> VaultRowView {
    VaultRowView {
        kdf: row.kdf,
        nonce,
        ciphertext: crate::cipher::sealed(key, nonce, bound_data(row.kdf), plaintext_of(t)),
        version: row.version.wrapping_add(1),
    }
}

/// What comes of a change that gave `t` and left the nodes `after`: its error, or they
/// are sealed again and the key opens them.
pub open spec fn resealed<T>(
    key: Seq<u8>,
    row: VaultRowView,
    nonce: Seq<u8>,
    after: Table,
    t: Result<T, StoreError>,
    r: Result<(T, VaultRowView), VaultErrorView>,
) -> bool {
    match t {
        Err(e) => r == Err::<(T, VaultRowView), _>(store_error(e@)),
        Ok(v) => if plaintext_of(after).len() > crate::cipher::MAX_MESSAGE {
            r == Err::<(T, VaultRowView), _>(VaultErrorView::Crypto("encryption failed"@))
        } else {
            &&& r == Ok::<_, VaultErrorView>((v, rewritten(key, row, nonce, after)))
            &&& plaintext_in(key, rewritten(key, row, nonce, after)) == Some(plaintext_of(after))
        },
    }
}

/// The outcome of a change with views in the place of values.
pub open spec fn outcome<T>(r: Result<(T, VaultRow), VaultError>) -> Result<
    (T, VaultRowView),
    VaultErrorView,
> {
    match r {
        Ok((t, w)) => Ok((t, w@)),
        Err(e) => Err(e@),
    }
}

/// The outcome of a change that is yet to be written.
pub open spec fn write_outcome<T>(r: Result<(T, VaultWrite), VaultError>) -> Result<
    (T, VaultRowView),
    VaultErrorView,
> {
    match r {
        Ok((t, w)) => Ok((t, w.row@)),
        Err(e) => Err(e@),
    }
}

/// The outcome of a change that is in the slot.
pub open spec fn slot_outcome<T>(r: Result<T, VaultError>, slot: SlotView) -> Result<
    (T, VaultRowView),
    VaultErrorView,
> {
    match r {
        Ok(t) => Ok((t, row_in(slot)->0)),
        Err(e) => Err(e@),
    }
}

/// Loads, changes and seals again, under an open key.
fn change_row<T, D, F>(
    key: &[u8; 32],
    row: &VaultRow,
    plaintext: &[u8],
    decode: &D,
    f: F,
    nonce: &[u8; 24],
) -> (r: Result<(T, VaultRow), VaultError>) where
    D: Fn(&[u8]) -> Option<VaultPlaintext>,
    F: FnOnce(&mut Store) -> Result<T, StoreError>,

    requires
        forall|b: &[u8]| #[trigger] call_requires(*decode, (b,)),
        forall|p: &mut Store| (*p).wf() ==> #[trigger] call_requires(f, (p,)),
        forall|p: &mut Store, t: Result<T, StoreError>|
            (*p).wf() && #[trigger] call_ensures(f, (p,), t) ==> (*final(p)).wf(),
    ensures
        (r matches Err(e) && loads(*decode, plaintext@, Err(e@))) || exists|
            p: &mut Store,
            t: Result<T, StoreError>,
        |
            {
                &&& loads(*decode, plaintext@, Ok(*p))
                &&& #[trigger] call_ensures(f, (p,), t)
                &&& resealed(key@, row@, nonce@, (*final(p))@, t, outcome(r))
            },
{
    let store = match load_bytes(decode, plaintext) {
        Ok(s) => s,
        Err(e) => {
            return Err(e);
        },
    };
    let ghost before = store;
    let mut store = store;
    let result = f(&mut store);
    proof {
        assert(exists|p: &mut Store|
            *p == before && *final(p) == store && #[trigger] call_ensures(f, (p,), result));
    }
    let ghost given = result;
    let value = match result {
        Ok(v) => v,
        Err(e) => {
            let e = VaultError::from(e);
            assert(resealed(
                key@,
                row@,
                nonce@,
                store@,
                given,
                outcome(Err::<(T, VaultRow), VaultError>(e)),
            ));
            return Err(e);
        },
    };
    let text = match serialize_store(&store) {
        Ok(b) => b,
        Err(e) => {
            return Err(e);
        },
    };
    match seal(key, row.kdf.as_str(), text.as_slice(), nonce) {
        Err(e) => Err(e),
        Ok(ciphertext) => {
            let w = VaultRow {
                kdf: row.kdf.clone(),
                nonce: vstd::slice::slice_to_vec(nonce.as_slice()),
                ciphertext,
                version: row.version.wrapping_add(1),
            };
            assert(w@ =~= rewritten(key@, row@, nonce@, store@));
            Ok((value, w))
        },
    }
}

/// Runs a change on the vault's nodes and seals what it leaves, with this nonce: the
/// value of the change, and the row to be written. The key opens that row, and what it
/// opens are the nodes that the change left.
pub fn change_with<T, D, F>(
    slot: &VaultSlot,
    key_b64: &str,
    decode: &D,
    f: F,
    now: i64,
    nonce: &[u8; 24],
) -> (r: Result<(T, VaultWrite), VaultError>) where
    D: Fn(&[u8]) -> Option<VaultPlaintext>,
    F: FnOnce(&mut Store) -> Result<T, StoreError>,

    requires
        forall|b: &[u8]| #[trigger] call_requires(*decode, (b,)),
        forall|p: &mut Store| (*p).wf() ==> #[trigger] call_requires(f, (p,)),
        forall|p: &mut Store, t: Result<T, StoreError>|
            (*p).wf() && #[trigger] call_ensures(f, (p,), t) ==> (*final(p)).wf(),
    ensures
        r matches Ok((_, w)) ==> w.updated == now && write_counts(slot@, w) && moves_version(w),
        r is Ok ==> slot@ is Row,
        match opened_by(slot@, key_b64@) {
            Err(e) => r matches Err(x) && x@ == e,
            Ok((key, plaintext)) => (r matches Err(e) && loads(*decode, plaintext, Err(e@)))
                || exists|p: &mut Store, t: Result<T, StoreError>|
                {
                    &&& loads(*decode, plaintext, Ok(*p))
                    &&& #[trigger] call_ensures(f, (p,), t)
                    &&& resealed(
                        key,
                        row_in(slot@)->0,
                        nonce@,
                        (*final(p))@,
                        t,
                        write_outcome(r),
                    )
                },
        },
{
    let mut key = match decode_key(key_b64) {
        Ok(k) => k,
        Err(e) => {
            return Err(e);
        },
    };
    let row = match need_row(slot) {
        Ok(row) => row,
        Err(e) => {
            crate::cipher::wipe(&mut key);
            return Err(e);
        },
    };
    let plaintext = match open(&key, row) {
        Ok(p) => p,
        Err(e) => {
            crate::cipher::wipe(&mut key);
            return Err(e);
        },
    };
    let r = change_row(&key, row, plaintext.as_slice(), decode, f, nonce);
    crate::cipher::wipe(&mut key);
    match r {
        Err(e) => Err(e),
        Ok((t, w)) => Ok(
            (t, VaultWrite { row: w, updated: now, replaces: Some(row.version) }),
        ),
    }
}

/// Runs a change on the vault's nodes and puts what it leaves in the vault's place,
/// under a fresh nonce. Where anything fails the vault stays as it is.
pub fn with_vault_mut<T, D, F>(slot: &mut VaultSlot, key_b64: &str, decode: &D, f: F, now: i64) -> (r:
    Result<T, VaultError>) where
    D: Fn(&[u8]) -> Option<VaultPlaintext>,
    F: FnOnce(&mut Store) -> Result<T, StoreError>,

    requires
        forall|b: &[u8]| #[trigger] call_requires(*decode, (b,)),
        forall|p: &mut Store| (*p).wf() ==> #[trigger] call_requires(f, (p,)),
        forall|p: &mut Store, t: Result<T, StoreError>|
            (*p).wf() && #[trigger] call_ensures(f, (p,), t) ==> (*final(p)).wf(),
    ensures
        r is Err ==> final(slot)@ == old(slot)@,
        r is Ok ==> final(slot)@ is Row,
        match opened_by(old(slot)@, key_b64@) {
            Err(e) => r matches Err(x) && x@ == e,
            Ok((key, plaintext)) => (r matches Err(e) && loads(*decode, plaintext, Err(e@)))
                || exists|p: &mut Store, t: Result<T, StoreError>, nonce: Seq<u8>|
                {
                    &&& nonce.len() == 24
                    &&& loads(*decode, plaintext, Ok(*p))
                    &&& #[trigger] call_ensures(f, (p,), t)
                    &&& #[trigger] resealed(
                        key,
                        row_in(old(slot)@)->0,
                        nonce,
                        (*final(p))@,
                        t,
                        slot_outcome(r, final(slot)@),
                    )
                },
        },
{
    let nonce = crate::cipher::fresh_nonce();
    assert(nonce@.len() == 24);
    match change_with(slot, key_b64, decode, f, now, &nonce) {
        Err(e) => Err(e),
        Ok((t, w)) => {
            *slot = VaultSlot::Row(w.row);
            Ok(t)
        },
    }
}

/// Whether two byte strings are the same.
fn same_bytes(a: &Vec<u8>, b: &Vec<u8>) -> (r: bool)
    ensures
        r == (a@ == b@),
{
    if a.len() != b.len() {
        return false;
    }
    let mut i: usize = 0;
    while i < a.len()
        invariant
            a@.len() == b@.len(),
            i <= a@.len(),
            forall|k: int| 0 <= k < i ==> a@[k] == b@[k],
        decreases a@.len() - i,
    {
        if a[i] != b[i] {
            return false;
        }
        i = i + 1;
    }
    assert(a@ =~= b@);
    true
}

/// Whether two rows are the same.
fn same_row(a: &VaultRow, b: &VaultRow) -> (r: bool)
    ensures
        r == (a@ == b@),
{
    crate::text::same_text(a.kdf.as_str(), b.kdf.as_str()) && same_bytes(&a.nonce, &b.nonce)
        && same_bytes(&a.ciphertext, &b.ciphertext) && a.version == b.version
}

/// `r` is the write that turns `before` into `after`, if there is anything to write.
pub open spec fn pending(
    before: SlotView,
    after: SlotView,
    now: i64,
    r: Option<VaultWrite>,
) -> bool {
    match r {
        Some(w) => {
            &&& before != after
            &&& after == SlotView::Row(w.row@)
            &&& w.updated == now
            &&& w.replaces == version_of(before)
        },
        None => before == after || !(after is Row),
    }
}

/// What has to be written after an operation turned `before` into `after`; `None` where
/// it left the row as it was.
pub fn pending_write(before: &VaultSlot, after: &VaultSlot, now: i64) -> (r: Option<VaultWrite>)
    ensures
        pending(before@, after@, now, r),
        match r {
            Some(w) => {
                &&& before@ != after@
                &&& after@ == SlotView::Row(w.row@)
                &&& w.updated == now
                &&& w.replaces == version_of(before@)
                &&& !(before@ is Malformed) ==> write_counts(before@, w)
                &&& next_row(before@, after@) ==> moves_version(w)
            },
            None => before@ == after@ || !(after@ is Row),
        },
{
    let row = match after {
        VaultSlot::Row(row) => row,
        _ => {
            return None;
        },
    };
    let replaces: Option<i64> = match before {
        VaultSlot::Row(old_row) => {
            if same_row(old_row, row) {
                return None;
            }
            Some(old_row.version)
        },
        _ => None,
    };
    let copy = VaultRow {
        kdf: row.kdf.clone(),
        nonce: vstd::slice::slice_to_vec(row.nonce.as_slice()),
        ciphertext: vstd::slice::slice_to_vec(row.ciphertext.as_slice()),
        version: row.version,
    };
    assert(copy@ =~= row@);
    Some(VaultWrite { row: copy, updated: now, replaces })
}

/// What to do after a write was tried.
#[derive(Debug, Clone, Copy, PartialEq, Eq, Structural)]
pub enum WriteStep {
    /// The write counted: commit it.
    Commit,
    /// Another writer came first: read again and try again.
    Retry,
    /// Other writers came first too often: report that the vault is busy.
    GiveUp,
}

/// What follows a write of try number `tries` that changed `affected` rows.
pub open spec fn write_step(tries: int, affected: int) -> WriteStep {
    if affected == 1 {
        WriteStep::Commit
    } else if tries < MAX_WRITE_RETRIES {
        WriteStep::Retry
    } else {
        WriteStep::GiveUp
    }
}

/// What to do after the write of try number `tries` (from 1) changed `affected` rows.
pub fn after_write(tries: u32, affected: usize) -> (r: WriteStep)
    ensures
        r == write_step(tries as int, affected as int),
        r == (if affected == 1 {
            WriteStep::Commit
        } else if tries < MAX_WRITE_RETRIES {
            WriteStep::Retry
        } else {
            WriteStep::GiveUp
        }),
{
    if affected == 1 {
        WriteStep::Commit
    } else if tries < MAX_WRITE_RETRIES {
        WriteStep::Retry
    } else {
        WriteStep::GiveUp
    }
}

} // verus!
