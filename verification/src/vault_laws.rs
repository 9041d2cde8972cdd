//! What holds of the vault as a whole.

use vstd::prelude::*;
use crate::node::{NodeKind, RowView};
use crate::store::{Store, MAX_ROWS};
use crate::table::Table;
use crate::vault::{SlotView, VaultErrorView, VaultPlaintext, VaultRowView, VaultWrite, FORMAT_VERSION};

verus! {

/// The decoder reads back every plaintext that the vault writes.
pub open spec fn faithful<D: Fn(&[u8]) -> Option<VaultPlaintext>>(decode: D) -> bool {
    forall|s: Seq<RowView>, d: Option<VaultPlaintext>| #[trigger]
        crate::vault::decoded(
            decode,
            vstd::utf8::encode_utf8(crate::json::plaintext_json(FORMAT_VERSION, s)),
            d,
        ) ==> (d matches Some(p) && p.v == FORMAT_VERSION && crate::load::row_views(p.nodes@) == s)
}

/// What a vault writes it reads back: with a faithful decoder, loading the plaintext of
/// a sound table gives that table.
pub proof fn lemma_plaintext_reads_back<D: Fn(&[u8]) -> Option<VaultPlaintext>>(
    decode: D,
    t: Table,
    root: i64,
    r: Result<Store, VaultErrorView>,
)
    requires
        faithful(decode),
        crate::laws::sound(t, root),
        crate::laws::nothing_hidden(t),
        t.dom().len() <= MAX_ROWS,
        crate::vault::loads(decode, crate::vault::plaintext_of(t), r),
    ensures
        r matches Ok(s) && s.wf() && s@ == t,
{
    let s = crate::vault::dumped(t);
    let d = choose|d: Option<VaultPlaintext>|
        {
            &&& #[trigger] crate::vault::decoded(decode, crate::vault::plaintext_of(t), d)
            &&& match r {
                Ok(s) => {
                    &&& crate::vault::plaintext_error(d) is None
                    &&& s.wf()
                    &&& s@ == crate::vault::plaintext_table(d)
                },
                Err(e) => crate::vault::plaintext_error(d) == Some(e),
            }
        };
    let dump = crate::load::lemma_dump_exists(t);
    assert(crate::load::is_dump(t, s));
    crate::laws::lemma_dump_loads(t, root, s);
}

/// A new vault holds exactly its root folder, and its plaintext is that of this table.
pub proof fn lemma_new_vault(now: i64)
    ensures
        ({
            let t = crate::load::vault_table(crate::vault::new_rows(now));
            &&& crate::load::load_error(crate::vault::new_rows(now)) is None
            &&& crate::laws::sound(t, 1)
            &&& crate::laws::contiguous(t)
            &&& crate::laws::nothing_hidden(t)
            &&& t.dom() == set![1i64]
            &&& t[1].title == "Hidden"@
            &&& crate::vault::plaintext_of(t) == crate::vault::new_plaintext(now)
        }),
{
    let s = crate::vault::new_rows(now);
    let t = crate::load::vault_table(s);
    assert(s[0].id == 1);
    assert(crate::load::has_id(s, 1));
    assert(t.dom() =~= set![1i64]) by {
        assert forall|x: i64| t.dom().contains(x) <==> x == 1 by {
            if t.dom().contains(x) {
                let k = crate::load::id_index(s, x);
                assert(s[k].id == x);
            }
        }
    }
    let k = crate::load::id_index(s, 1);
    assert(s[k].id == 1);
    assert(t[1] == crate::load::row_entry(s[0]));
    assert(crate::table::up(t, 1, 0) == Some(1i64));
    assert(crate::laws::sound(t, 1));
    assert(crate::load::is_dump(t, s)) by {
        assert forall|id: i64| crate::load::has_id(s, id) <==> #[trigger] t.dom().contains(id) by {}
    }
    crate::load::lemma_dump_unique(t, s, crate::vault::dumped(t));
    crate::laws::lemma_dump_loads(t, 1, s);
}

proof fn lemma_decoded_len(b: Seq<u8>)
    ensures
        b.len() <= crate::codec::base64_text(b).len(),
    decreases b.len(),
{
    if b.len() > 3 {
        lemma_decoded_len(b.skip(3));
    } else if b.len() == 3 {
        assert(crate::codec::base64_text(b.skip(3)).len() == 0);
    }
}

proof fn lemma_piece_len(s: Seq<char>, c: char, i: int)
    requires
        0 <= i < crate::kdf::pieces(s, c).len(),
    ensures
        crate::kdf::pieces(s, c)[i].len() <= s.len(),
    decreases s.len(),
{
    let n = crate::kdf::until(s, c) as int;
    if n < s.len() && i > 0 {
        lemma_piece_len(s.skip(n + 1), c, i - 1);
    }
}

/// An unlock is refused with this error: before the decoder is asked, or because the
/// decoder can make nothing of the plaintext.
pub open spec fn refused<D: Fn(&[u8]) -> Option<VaultPlaintext>>(
    decode: D,
    slot: SlotView,
    phrase: Seq<char>,
    e: VaultErrorView,
) -> bool {
    match crate::vault::unlocked_by(slot, phrase) {
        Err(x) => e == x,
        Ok((_, plaintext)) => crate::vault::decoded(decode, plaintext, None)
            && crate::vault::plaintext_error(None) == Some(e),
    }
}

/// A wrong phrase, a missing vault, a damaged row and a plaintext that cannot be decoded
/// are answered with the same error and the same text, as long as the phrase and the
/// stored parameters are shorter than 4 GiB.
pub proof fn lemma_unlock_uniform<D: Fn(&[u8]) -> Option<VaultPlaintext>>(
    decode: D,
    slot: SlotView,
    phrase: Seq<char>,
    e: VaultErrorView,
)
    requires
        refused(decode, slot, phrase, e),
        vstd::utf8::encode_utf8(phrase).len() <= 0xFFFF_FFFF,
        crate::vault::row_in(slot) matches Some(row) ==> row.kdf.len() <= 0xFFFF_FFFF,
    ensures
        e == VaultErrorView::WrongPhraseOrCorrupt,
        crate::vault::vault_error_text(e) == "could not unlock the vault"@,
{
    if let Some(row) = crate::vault::row_in(slot) {
        if let Some(k) = crate::kdf::parsed_kdf(row.kdf) {
            let ps = crate::kdf::pieces(row.kdf, '$');
            let salt = k.salt;
            assert(crate::codec::base64_bytes(ps[3]) == Some(salt));
            assert(crate::codec::base64_text(salt) == ps[3]);
            lemma_decoded_len(salt);
            lemma_piece_len(row.kdf, '$', 3);
        }
    }
}

/// The associated data is the format version and the bytes of the parameter string, so
/// that no change of the salt or of a cost leaves it as it was.
pub proof fn lemma_bound_data_injective(a: Seq<char>, b: Seq<char>)
    ensures
        crate::vault::bound_data(a) == crate::vault::bound_data(b) <==> a == b,
{
    let x = crate::vault::bound_data(a);
    let y = crate::vault::bound_data(b);
    assert(x.skip(1) =~= vstd::utf8::encode_utf8(a));
    assert(y.skip(1) =~= vstd::utf8::encode_utf8(b));
    vstd::utf8::encode_utf8_decode_utf8(a);
    vstd::utf8::encode_utf8_decode_utf8(b);
}

/// Unlocking with a phrase and opening with the key that it gave show the same
/// plaintext.
pub proof fn lemma_key_opens_what_phrase_unlocks(
    slot: SlotView,
    phrase: Seq<char>,
    key: Seq<u8>,
    plaintext: Seq<u8>,
)
    requires
        crate::vault::unlocked_by(slot, phrase) == Ok::<_, VaultErrorView>((key, plaintext)),
        key.len() == 32,
    ensures
        crate::vault::opened_by(slot, crate::codec::base64_text(key)) == Ok::<_, VaultErrorView>(
            (key, plaintext),
        ),
{
    crate::codec::lemma_decodes(key);
}

/// The phrase of a new vault unlocks it and the key that was handed out opens it: with a
/// faithful decoder, both show a sound tree that is just the root folder.
pub proof fn lemma_created_opens<D: Fn(&[u8]) -> Option<VaultPlaintext>>(
    decode: D,
    slot: SlotView,
    phrase: Seq<char>,
    now: i64,
    after: SlotView,
    key_b64: Seq<char>,
    r: Result<Store, VaultErrorView>,
)
    requires
        faithful(decode),
        crate::vault::created(slot, phrase, now, after, Ok(key_b64)),
        crate::vault::loads(decode, crate::vault::new_plaintext(now), r),
    ensures
        crate::vault::unlocked_by(after, phrase) matches Ok((_, p)) && p
            == crate::vault::new_plaintext(now),
        crate::vault::opened_by(after, key_b64) matches Ok((_, p)) && p
            == crate::vault::new_plaintext(now),
        r matches Ok(s) && s.wf() && s@ == crate::load::vault_table(crate::vault::new_rows(now)),
{
    let t = crate::load::vault_table(crate::vault::new_rows(now));
    lemma_new_vault(now);
    lemma_plaintext_reads_back(decode, t, 1, r);
}

/// A change is kept: the phrase that unlocked the vault before still does, the key that
/// opened it still does, and what they show are the nodes that the change left.
pub proof fn lemma_change_is_kept<T>(
    slot: SlotView,
    phrase: Seq<char>,
    key_b64: Seq<char>,
    key: Seq<u8>,
    plaintext: Seq<u8>,
    nonce: Seq<u8>,
    nodes: Table,
    value: T,
    row: VaultRowView,
)
    requires
        crate::vault::unlocked_by(slot, phrase) == Ok::<_, VaultErrorView>((key, plaintext)),
        crate::vault::opened_by(slot, key_b64) == Ok::<_, VaultErrorView>((key, plaintext)),
        crate::vault::resealed(
            key,
            crate::vault::row_in(slot)->0,
            nonce,
            nodes,
            Ok(value),
            Ok((value, row)),
        ),
    ensures
        crate::vault::unlocked_by(SlotView::Row(row), phrase) == Ok::<_, VaultErrorView>(
            (key, crate::vault::plaintext_of(nodes)),
        ),
        crate::vault::opened_by(SlotView::Row(row), key_b64) == Ok::<_, VaultErrorView>(
            (key, crate::vault::plaintext_of(nodes)),
        ),
{
}

/// A new phrase unlocks what the key opened before, and so does the new key.
pub proof fn lemma_rephrased_keeps_plaintext<D: Fn(&[u8]) -> Option<VaultPlaintext>>(
    decode: D,
    slot: SlotView,
    key_b64: Seq<char>,
    new_phrase: Seq<char>,
    after: SlotView,
    new_b64: Seq<char>,
)
    requires
        crate::vault::rephrased(decode, slot, key_b64, new_phrase, after, Ok(new_b64)),
    ensures
        crate::vault::opened_by(slot, key_b64) is Ok,
        ({
            let plaintext = crate::vault::opened_by(slot, key_b64)->Ok_0.1;
            &&& crate::vault::unlocked_by(after, new_phrase) matches Ok((_, p)) && p == plaintext
            &&& crate::vault::opened_by(after, new_b64) matches Ok((_, p)) && p == plaintext
        }),
{
}

/// Writers do not overwrite each other: of two writes made from the same row, or from none,
/// the second no longer counts once the first is in place.
pub proof fn lemma_second_write_does_not_count(
    slot: SlotView,
    first: VaultWrite,
    second: VaultWrite,
)
    requires
        crate::vault::write_counts(slot, first),
        crate::vault::moves_version(first),
        crate::vault::write_counts(slot, second),
    ensures
        !crate::vault::write_counts(SlotView::Row(first.row@), second),
{
    if let Some(v) = first.replaces {
        assert(v.wrapping_add(1) != v);
    }
}

/// No operation on a tree hides anything in it.
pub proof fn lemma_hides_nothing(
    t: Table,
    parent: Option<i64>,
    id: i64,
    under: i64,
    kind: NodeKind,
    text: Seq<char>,
    url: Option<Seq<char>>,
    position: Option<i64>,
    now: i64,
)
    requires
        crate::laws::nothing_hidden(t),
    ensures
        crate::laws::nothing_hidden(crate::ops::with_new(t, parent, id, kind, text, url, now)),
        t.dom().contains(id) ==> crate::laws::nothing_hidden(crate::ops::renamed(t, id, text, now)),
        t.dom().contains(id) ==> crate::laws::nothing_hidden(
            crate::ops::moved(t, id, under, position, now),
        ),
        crate::laws::nothing_hidden(crate::ops::deleted(t, id)),
{
    let u = crate::ops::moved(t, id, under, position, now);
    if t.dom().contains(id) {
        assert forall|x: i64| #[trigger] u.dom().contains(x) implies !u[x].hidden by {
            assert(t.dom().contains(x));
        }
    }
}

} // verus!
