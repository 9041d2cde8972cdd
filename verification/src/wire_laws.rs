//! What holds of the traffic with the browser and the database: which requests go where,
//! how messages are cut, and how often a write is tried.

use vstd::prelude::*;
use crate::changes::RowChange;
use crate::cli::CommandView;
use crate::nm::{ByteOrder, Front, ReadEvent, Reading};
use crate::node::TableRow;
use crate::serve::{Reply, Request};
use crate::table::Table;
use crate::vault::{SlotView, VaultPlaintext, VaultWrite, WriteStep};

verus! {

/// A request is answered by the tree or by the vault, and it is known which. One that was
/// done shows something if and only if it counts as a read.
pub proof fn lemma_requests_are_told_apart<D: Fn(&[u8]) -> Option<VaultPlaintext>>(
    decode: D,
    req: Request,
    now: i64,
    t: Table,
    u: Table,
    slot: SlotView,
    after: SlotView,
    r: Reply,
)
    ensures
        crate::serve::tree_answer(t, req, now, u, r) ==> !crate::serve::to_vault(req),
        crate::serve::vault_answer(decode, slot, req, now, after, r) ==> crate::serve::to_vault(
            req,
        ),
        crate::serve::tree_answer(t, req, now, u, r) && !(r is Error) ==> (crate::serve::reads(req)
            <==> r is Root || r is Bookmarks || r is Page || r is Results),
        crate::serve::vault_answer(decode, slot, req, now, after, r) && !(r is Error) ==> (
        crate::serve::reads(req) <==> r is Exists || r is Page || r is UnlockedPage),
{
    if crate::serve::vault_answer(decode, slot, req, now, after, r) && !(r is Error) {
        lemma_vault_replies(decode, req, now, slot, after, r);
    }
}

proof fn lemma_vault_replies<D: Fn(&[u8]) -> Option<VaultPlaintext>>(
    decode: D,
    req: Request,
    now: i64,
    slot: SlotView,
    after: SlotView,
    r: Reply,
)
    requires
        crate::serve::vault_answer(decode, slot, req, now, after, r),
        !(r is Error),
    ensures
        match req {
            Request::VaultStatus => r is Exists,
            Request::VaultCreate { .. } => r is Key,
            Request::VaultUnlock { .. } => r is UnlockedPage,
            Request::VaultChildren { .. } => r is Page,
            Request::VaultCreateFolder { .. } => r is Id,
            Request::VaultCreateBookmark { .. } => r is Id,
            Request::VaultRename { .. } => r is Done,
            Request::VaultMove { .. } => r is Done,
            Request::VaultDelete { .. } => r is Deleted,
            Request::VaultChangePhrase { .. } => r is Key,
            _ => false,
        },
{
}

/// A command on the vault that takes no phrase does the same for every phrase; one that
/// takes a phrase fails for a blank one where there is no vault. A command that counts as a
/// read leaves the tree and the vault as they were.
pub proof fn lemma_commands_are_told_apart<D: Fn(&[u8]) -> Option<VaultPlaintext>>(
    decode: D,
    c: CommandView,
    now: i64,
    t: Table,
    u: Table,
    slot: SlotView,
    after: SlotView,
    phrase: Seq<char>,
    other: Seq<char>,
    r: Result<Seq<char>, Seq<char>>,
)
    ensures
        crate::run::tree_ran(t, c, now, u, r) ==> !crate::run::on_vault(c)
            && !crate::run::takes_phrase(c),
        crate::run::vault_ran(decode, slot, c, phrase, now, after, r) ==> crate::run::on_vault(c),
        crate::run::vault_ran(decode, slot, c, phrase, now, after, r) && !crate::run::takes_phrase(c)
            ==> r is Ok && crate::run::vault_ran(decode, slot, c, other, now, after, r),
        crate::run::vault_ran(decode, slot, c, phrase, now, after, r) && crate::run::takes_phrase(c)
            && slot == SlotView::Empty && !crate::change_laws::says_something(phrase) ==> r is Err,
        crate::run::reads(c) && crate::run::tree_ran(t, c, now, u, r) ==> u == t,
        crate::run::reads(c) && crate::run::vault_ran(decode, slot, c, phrase, now, after, r)
            ==> after == slot,
        c is Add || c is Mkdir || c is Rename || c is Move || c is Rm || c is VaultCreate
            || c is VaultMkdir || c is VaultAdd ==> !crate::run::reads(c),
{
    crate::change_laws::lemma_says_something(phrase);
}

/// A write that changed the row is committed. One that did not is tried again, eight times
/// in all, before it is given up; a change of the phrase is tried once.
pub proof fn lemma_writes_are_tried(req: Request, n: int, affected: int)
    requires
        1 <= n,
    ensures
        crate::vault::write_step(crate::serve::begins_with(req) + n - 1, affected) == (if affected
            == 1 {
            WriteStep::Commit
        } else if req is VaultChangePhrase || n >= 8 {
            WriteStep::GiveUp
        } else {
            WriteStep::Retry
        }),
{
}

/// A row that is written to the database has the columns of the table's row; a row that is
/// deleted is gone; no other row is touched.
pub proof fn lemma_row_is_written(t: Table, row: TableRow, id: i64)
    ensures
        ({
            let u = crate::changes::applied_one(t, RowChange::Put(row));
            let e = u[row.row.id];
            &&& u.dom().contains(row.row.id)
            &&& e.parent == row.row.parent_id
            &&& e.kind == row.row.kind
            &&& e.title == row.row.title@
            &&& match row.row.url {
                Some(url) => e.url == Some(url@),
                None => e.url is None,
            }
            &&& e.position == row.row.position
            &&& e.created == row.row.created
            &&& e.modified == row.row.modified
            &&& e.hidden == row.hidden
            &&& forall|x: i64|
                x != row.row.id ==> (#[trigger] u.dom().contains(x) <==> t.dom().contains(x))
            &&& forall|x: i64| x != row.row.id ==> #[trigger] u[x] == t[x]
        }),
        ({
            let u = crate::changes::applied_one(t, RowChange::Delete(id));
            &&& !u.dom().contains(id)
            &&& forall|x: i64| x != id ==> (#[trigger] u.dom().contains(x) <==> t.dom().contains(x))
            &&& forall|x: i64| x != id && t.dom().contains(x) ==> #[trigger] u[x] == t[x]
        }),
{
}

/// Only what changed is written: a row that the database has as it is is not put there
/// again, and only a row that it has, and should no longer have, is deleted.
pub proof fn lemma_only_changes_are_written(t: Table, u: Table, row: TableRow, id: i64)
    ensures
        crate::changes::differs(t, u, RowChange::Put(row)) && t.dom().contains(row.row.id) ==> {
            let e = t[row.row.id];
            ||| e.parent != row.row.parent_id
            ||| e.kind != row.row.kind
            ||| e.title != row.row.title@
            ||| match row.row.url {
                Some(url) => e.url != Some(url@),
                None => e.url is Some,
            }
            ||| e.position != row.row.position
            ||| e.created != row.row.created
            ||| e.modified != row.row.modified
            ||| e.hidden != row.hidden
        },
        crate::changes::differs(t, u, RowChange::Delete(id)) ==> t.dom().contains(id)
            && !u.dom().contains(id),
{
    let e = t[row.row.id];
    let f = crate::rows::entry_of(row);
    if e.parent == f.parent && e.kind == f.kind && e.title == f.title && e.url == f.url && e.position
        == f.position && e.created == f.created && e.modified == f.modified && e.hidden
        == f.hidden {
        assert(e =~= f);
    }
}

/// The length in front of a message: four bytes, the least first or the most first.
pub proof fn lemma_length_in_front(body: Seq<u8>)
    requires
        body.len() <= 0xffff_ffff,
    ensures
        ({
            let n = body.len() as int;
            let a = crate::nm::frame(ByteOrder::Little, body);
            let b = crate::nm::frame(ByteOrder::Big, body);
            &&& a.len() == 4 + n && b.len() == 4 + n
            &&& a.skip(4) == body && b.skip(4) == body
            &&& a[0] + 256 * a[1] + 65536 * a[2] + 16777216 * a[3] == n
            &&& b[3] + 256 * b[2] + 65536 * b[1] + 16777216 * b[0] == n
        }),
{
    let n = body.len() as u32;
    let e: Seq<u8> = seq![];
    crate::nm::lemma_length_reads_back(ByteOrder::Little, n, e);
    crate::nm::lemma_length_reads_back(ByteOrder::Big, n, e);
    let a = crate::nm::frame(ByteOrder::Little, body);
    let b = crate::nm::frame(ByteOrder::Big, body);
    assert(a.skip(4) =~= body);
    assert(b.skip(4) =~= body);
    let la = crate::nm::length_bytes(ByteOrder::Little, n);
    let lb = crate::nm::length_bytes(ByteOrder::Big, n);
    assert(la + e =~= la && lb + e =~= lb);
    assert(a[0] == la[0] && a[1] == la[1] && a[2] == la[2] && a[3] == la[3]);
    assert(b[0] == lb[0] && b[1] == lb[1] && b[2] == lb[2] && b[3] == lb[3]);
}

/// The bytes of the reads, one after the other.
pub open spec fn fed(events: Seq<ReadEvent>) -> Seq<u8>
    decreases events.len(),
{
    if events.len() == 0 {
        seq![]
    } else {
        fed(events.drop_last()) + (match events.last() {
            ReadEvent::Data(bytes) => bytes@,
            _ => seq![],
        })
    }
}

proof fn lemma_part_waits(order: ByteOrder, body: Seq<u8>, got: Seq<u8>)
    requires
        body.len() <= 4194304,
        got.len() <= 4 + body.len(),
        got == crate::nm::frame(order, body).take(got.len() as int),
    ensures
        got.len() < 4 + body.len() ==> crate::nm::progress(order, got) is Need,
        got.len() == 4 + body.len() ==> crate::nm::progress(order, got)
            == crate::nm::Progress::Message(body),
{
    let f = crate::nm::frame(order, body);
    crate::nm::lemma_length_reads_back(order, body.len() as u32, body);
    if got.len() >= 4 {
        assert(got[0] == f[0] && got[1] == f[1] && got[2] == f[2] && got[3] == f[3]);
        assert(crate::nm::length_at(order, got) == body.len());
    }
    if got.len() == 4 + body.len() {
        assert(got =~= f);
        assert(got.skip(4) =~= body);
    }
}

/// A message of up to 4 MiB comes out as it went in, however its bytes are cut into reads.
pub proof fn lemma_message_comes_through(
    order: ByteOrder,
    body: Seq<u8>,
    events: Seq<ReadEvent>,
    k: int,
)
    requires
        body.len() <= 4194304,
        forall|i: int| 0 <= i < events.len() ==> (#[trigger] events[i]) is Data,
        0 <= k <= 4 + body.len(),
        fed(events) == crate::nm::frame(order, body).take(k),
    ensures
        k == 4 + body.len() ==> crate::nm::read_all(order, seq![], events) == Reading::Message(body),
        k < 4 + body.len() ==> crate::nm::read_all(order, seq![], events) == Reading::Waiting(
            fed(events),
        ),
    decreases events.len(),
{
    let f = crate::nm::frame(order, body);
    crate::nm::lemma_length_reads_back(order, body.len() as u32, body);
    assert(f.len() == 4 + body.len());
    if events.len() == 0 {
        assert(fed(events).len() == 0);
    } else {
        let front = events.drop_last();
        let last = events.last();
        assert(last == events[events.len() - 1]);
        let j = fed(front).len() as int;
        assert(fed(events).len() == k);
        assert(fed(front) =~= f.take(j)) by {
            assert forall|i: int| 0 <= i < j implies fed(front)[i] == f[i] by {
                assert(fed(events)[i] == fed(front)[i]);
                assert(f.take(k)[i] == f[i]);
            }
        }
        assert forall|i: int| 0 <= i < front.len() implies (#[trigger] front[i]) is Data by {
            assert(front[i] == events[i]);
        }
        lemma_message_comes_through(order, body, front, j);
        lemma_part_waits(order, body, fed(events));
    }
}

/// The stream may end between two messages, but not within one.
pub proof fn lemma_end_between_messages(order: ByteOrder, got: Seq<u8>)
    ensures
        got.len() == 0 ==> crate::nm::read_on(order, Reading::Waiting(got), ReadEvent::Eof)
            == Reading::Closed && crate::nm::front(order, got) == Front::End,
        got.len() > 0 ==> crate::nm::read_on(order, Reading::Waiting(got), ReadEvent::Eof) is Fail,
        0 < got.len() < 4 ==> crate::nm::front(order, got) is Fail,
{
}

/// A length of more than 4 MiB is refused, whatever follows it.
pub proof fn lemma_long_message_is_refused(order: ByteOrder, n: u32, rest: Seq<u8>)
    requires
        n > 4194304,
    ensures
        ({
            let s = crate::nm::length_bytes(order, n) + rest;
            crate::nm::front(order, s) matches Front::Fail(e, behind) && behind == rest
                && e is InvalidData
        }),
{
    crate::nm::lemma_length_reads_back(order, n, rest);
    let s = crate::nm::length_bytes(order, n) + rest;
    assert(s.skip(4) =~= rest);
}

/// What is sent is the text of the reply as long as that is at most 1 MiB; of a longer one
/// an error is sent in its place.
pub proof fn lemma_what_is_sent(r: Reply)
    ensures
        ({
            let full = vstd::utf8::encode_utf8(crate::serve::reply_json(r));
            &&& full.len() <= 1048576 ==> crate::serve::sent(r) == full
            &&& full.len() > 1048576 ==> crate::serve::sent(r) == vstd::utf8::encode_utf8(
                "{\"error\":\"reply too large for one message\",\"ok\":false}"@,
            )
        }),
{
}

/// A store that is made from rows holds each of them, with all its columns, and no other.
pub proof fn lemma_rows_are_held(s: Seq<TableRow>)
    requires
        crate::load::ids_differ(s),
    ensures
        ({
            let t = crate::rows::table_of(s);
            &&& forall|i: int|
                0 <= i < s.len() ==> {
                    let n = #[trigger] s[i];
                    let e = t[n.row.id];
                    &&& t.dom().contains(n.row.id)
                    &&& e.parent == n.row.parent_id
                    &&& e.kind == n.row.kind
                    &&& e.title == n.row.title@
                    &&& match n.row.url {
                        Some(url) => e.url == Some(url@),
                        None => e.url is None,
                    }
                    &&& e.position == n.row.position
                    &&& e.created == n.row.created
                    &&& e.modified == n.row.modified
                    &&& e.hidden == n.hidden
                }
            &&& forall|x: i64| #[trigger]
                t.dom().contains(x) ==> exists|i: int|
                    0 <= i < s.len() && (#[trigger] s[i]).row.id == x
        }),
{
    let t = crate::rows::table_of(s);
    assert forall|i: int| 0 <= i < s.len() implies {
        let n = #[trigger] s[i];
        &&& t.dom().contains(n.row.id)
        &&& t[n.row.id] == crate::rows::entry_of(n)
    } by {
        let id = s[i].row.id;
        assert(crate::rows::has_row(s, id));
        let k = crate::rows::row_index(s, id);
        assert(0 <= k < s.len() && s[k].row.id == id);
        if k < i {
            assert(s[k].row.id != s[i].row.id);
        } else if i < k {
            assert(s[i].row.id != s[k].row.id);
        }
    }
    assert forall|x: i64| #[trigger] t.dom().contains(x) implies exists|i: int|
        0 <= i < s.len() && (#[trigger] s[i]).row.id == x by {
        assert(crate::rows::has_row(s, x));
    }
}

/// A change of the vault is written as the row that came of it, with the time, in place of
/// the very row that it was made from; where nothing changed nothing is written.
pub proof fn lemma_change_is_written(
    before: SlotView,
    after: SlotView,
    now: i64,
    r: Option<VaultWrite>,
)
    requires
        crate::vault::pending(before, after, now, r),
        after is Row,
    ensures
        r is None <==> after == before,
        r matches Some(w) ==> {
            &&& w.row@ == after->Row_0
            &&& w.updated == now
            &&& before matches SlotView::Row(row) ==> w.replaces == Some(row.version)
            &&& !(before is Row) ==> w.replaces is None
        },
{
}

} // verus!
