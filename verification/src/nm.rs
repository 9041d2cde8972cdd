//! The native-messaging wire protocol: each message is a 4-byte length in native byte
//! order, followed by that many bytes.

use vstd::prelude::*;

verus! {

/// The browser's cap on a message from the host.
pub const MAX_OUTGOING: usize = 1048576;

/// The cap on a message from the browser, so that a corrupt length cannot ask for a
/// huge buffer.
pub const MAX_INCOMING: u32 = 4194304;

/// The order in which the bytes of a length stand.
#[derive(Debug, Clone, Copy, PartialEq, Eq, Structural)]
pub enum ByteOrder {
    Little,
    Big,
}

/// Why a message could not be read or written.
#[derive(Debug)]
pub enum FrameError {
    /// A length over the cap.
    InvalidData(String),
    /// The stream ended within a message.
    UnexpectedEof(&'static str),
    /// The stream failed.
    Failed(String),
}

/// What a [`FrameError`] holds.
#[verifier::ext_equal]
pub enum FrameErrorView {
    InvalidData(Seq<char>),
    UnexpectedEof(Seq<char>),
    Failed(Seq<char>),
}

impl View for FrameError {
    type V = FrameErrorView;

    open spec fn view(&self) -> FrameErrorView {
        match self {
            FrameError::InvalidData(m) => FrameErrorView::InvalidData(m@),
            FrameError::UnexpectedEof(m) => FrameErrorView::UnexpectedEof(m@),
            FrameError::Failed(m) => FrameErrorView::Failed(m@),
        }
    }
}

impl FrameError {
    /// The text of the error.
    pub fn to_text(&self) -> (r: String)
        ensures
            r@ == (match self@ {
                FrameErrorView::InvalidData(m) => m,
                FrameErrorView::UnexpectedEof(m) => m,
                FrameErrorView::Failed(m) => m,
            }),
    {
        match self {
            FrameError::InvalidData(m) => m.clone(),
            FrameError::UnexpectedEof(m) => (*m).to_owned(),
            FrameError::Failed(m) => m.clone(),
        }
    }
}

/// The four bytes of a length.
pub open spec fn length_bytes(order: ByteOrder, n: u32) -> Seq<u8> {
    let a = (n % 256) as u8;
    let b = (n / 256 % 256) as u8;
    let c = (n / 65536 % 256) as u8;
    let d = (n / 16777216) as u8;
    match order {
        ByteOrder::Little => seq![a, b, c, d],
        ByteOrder::Big => seq![d, c, b, a],
    }
}

/// The length that the first four bytes give.
pub open spec fn length_at(order: ByteOrder, s: Seq<u8>) -> int {
    match order {
        ByteOrder::Little => s[0] + 256 * s[1] + 65536 * s[2] + 16777216 * s[3],
        ByteOrder::Big => s[3] + 256 * s[2] + 65536 * s[1] + 16777216 * s[0],
    }
}

/// A message with its length in front.
pub open spec fn frame(order: ByteOrder, body: Seq<u8>) -> Seq<u8> {
    length_bytes(order, body.len() as u32) + body
}

/// What the bytes that were read of one message come to.
#[verifier::ext_equal]
pub enum Progress {
    /// So many bytes are still missing of what is known of the message.
    Need(int),
    /// This is the message.
    Message(Seq<u8>),
    /// There is no such message.
    Fail(FrameErrorView),
}

/// Why a length is refused.
pub open spec fn too_long(n: int) -> FrameErrorView {
    FrameErrorView::InvalidData(
        "incoming message length "@ + crate::text::decimal(n) + " exceeds cap 4194304"@,
    )
}

/// Why a stream that ended after `n` bytes of a message is refused.
pub open spec fn cut_off(n: nat) -> FrameErrorView {
    if n < 4 {
        FrameErrorView::UnexpectedEof("EOF in the middle of a length prefix"@)
    } else {
        FrameErrorView::UnexpectedEof("failed to fill whole buffer"@)
    }
}

/// What the bytes read so far of one message come to.
pub open spec fn progress(order: ByteOrder, got: Seq<u8>) -> Progress {
    if got.len() < 4 {
        Progress::Need(4 - got.len())
    } else if length_at(order, got) > MAX_INCOMING {
        Progress::Fail(too_long(length_at(order, got)))
    } else if got.len() < 4 + length_at(order, got) {
        Progress::Need(4 + length_at(order, got) - got.len())
    } else {
        Progress::Message(got.skip(4))
    }
}

/// What stands at the front of a stream.
#[verifier::ext_equal]
pub enum Front {
    /// The stream has ended between two messages.
    End,
    /// A message, and the stream behind it.
    Message(Seq<u8>, Seq<u8>),
    /// No message, and the stream behind what was read.
    Fail(FrameErrorView, Seq<u8>),
}

/// What stands at the front of the stream `s`.
pub open spec fn front(order: ByteOrder, s: Seq<u8>) -> Front {
    if s.len() == 0 {
        Front::End
    } else if s.len() < 4 {
        Front::Fail(cut_off(s.len()), seq![])
    } else {
        let n = length_at(order, s);
        if n > MAX_INCOMING {
            Front::Fail(too_long(n), s.skip(4))
        } else if s.len() < 4 + n {
            Front::Fail(cut_off(s.len()), seq![])
        } else {
            Front::Message(s.subrange(4, 4 + n), s.skip(4 + n))
        }
    }
}

/// A length reads back from its bytes, whatever follows them.
pub proof fn lemma_length_reads_back(order: ByteOrder, n: u32, rest: Seq<u8>)
    ensures
        length_bytes(order, n).len() == 4,
        length_at(order, length_bytes(order, n) + rest) == n,
{
    let a = n % 256;
    let b = n / 256 % 256;
    let c = n / 65536 % 256;
    let d = n / 16777216;
    assert(n == a + 256 * b + 65536 * c + 16777216 * d && d < 256) by (bit_vector)
        requires
            a == n % 256,
            b == n / 256 % 256,
            c == n / 65536 % 256,
            d == n / 16777216,
    ;
    let s = length_bytes(order, n) + rest;
    assert(s[0] == length_bytes(order, n)[0]);
    assert(s[1] == length_bytes(order, n)[1]);
    assert(s[2] == length_bytes(order, n)[2]);
    assert(s[3] == length_bytes(order, n)[3]);
}

/// Reading a stream that begins with a written message gives that message, and leaves
/// the stream behind it: messages come out one by one as they went in.
pub proof fn lemma_frame_reads_back(order: ByteOrder, body: Seq<u8>, rest: Seq<u8>)
    requires
        body.len() <= MAX_OUTGOING,
    ensures
        front(order, frame(order, body) + rest) == Front::Message(body, rest),
{
    let s = frame(order, body) + rest;
    lemma_length_reads_back(order, body.len() as u32, body + rest);
    assert(s =~= length_bytes(order, body.len() as u32) + (body + rest));
    let n = length_at(order, s);
    assert(n == body.len());
    assert(s.subrange(4, 4 + n) =~= body);
    assert(s.skip(4 + n) =~= rest);
}

/// However a stream is cut into reads, the same message comes out: what the bytes read
/// so far come to is what stands at the front of the whole stream.
pub proof fn lemma_progress_is_front(order: ByteOrder, got: Seq<u8>, rest: Seq<u8>)
    ensures
        progress(order, got) matches Progress::Message(body) ==> (got.len() == 4 + length_at(
            order,
            got,
        ) ==> front(order, got + rest) == Front::Message(body, rest)),
        progress(order, got) matches Progress::Fail(e) ==> (got.len() == 4 ==> front(
            order,
            got + rest,
        ) == Front::Fail(e, rest)),
        progress(order, got) is Need && got.len() > 0 ==> front(order, got) == Front::Fail(
            cut_off(got.len()),
            seq![],
        ),
{
    let s = got + rest;
    if got.len() >= 4 {
        assert(s[0] == got[0] && s[1] == got[1] && s[2] == got[2] && s[3] == got[3]);
        let n = length_at(order, got);
        if got.len() == 4 + n {
            assert(s.subrange(4, 4 + n) =~= got.skip(4));
            assert(s.skip(4 + n) =~= rest);
        }
        if got.len() == 4 {
            assert(s.skip(4) =~= rest);
        }
    }
}

/// `u32::to_ne_bytes`. The claim: the bytes stand in one of the two orders. Which one
/// is a matter of the machine, and is not claimed.
#[verifier::external_body]
fn ne_bytes(n: u32) -> (r: [u8; 4])
    ensures
        r@ == length_bytes(ByteOrder::Little, n) || r@ == length_bytes(ByteOrder::Big, n),
{
    n.to_ne_bytes()
}

/// `r` is the number in these bytes, read in the order in which [`ne_bytes`] writes every
/// number.
spec fn reads_as_written(bytes: Seq<u8>, r: u32) -> bool {
    forall|n: u32, b: [u8; 4]| #[trigger]
        call_ensures(ne_bytes, (n,), b) ==> exists|order: ByteOrder|
            b@ == #[trigger] length_bytes(order, n) && r == length_at(order, bytes)
}

/// `u32::from_ne_bytes`. The claim: the bytes are read in one of the two orders, and it is
/// the one in which `u32::to_ne_bytes` writes, since both use that of the machine.
#[verifier::external_body]
fn ne_number(bytes: [u8; 4]) -> (r: u32)
    ensures
        r == length_at(ByteOrder::Little, bytes@) || r == length_at(ByteOrder::Big, bytes@),
        reads_as_written(bytes@, r),
{
    u32::from_ne_bytes(bytes)
}

/// The order of this machine: the one in which it writes every number.
pub closed spec fn machine_order(order: ByteOrder) -> bool {
    &&& exists|b: [u8; 4]| call_ensures(ne_bytes, (1u32,), b)
    &&& forall|n: u32, b: [u8; 4]| #[trigger]
        call_ensures(ne_bytes, (n,), b) ==> b@ == length_bytes(order, n)
}

/// A machine has one byte order.
pub proof fn lemma_one_machine_order(a: ByteOrder, b: ByteOrder)
    requires
        machine_order(a),
        machine_order(b),
    ensures
        a == b,
{
    let bytes = choose|bytes: [u8; 4]| call_ensures(ne_bytes, (1u32,), bytes);
    assert(bytes@ == length_bytes(a, 1) && bytes@ == length_bytes(b, 1));
    assert(bytes@[0] == length_bytes(a, 1)[0]);
}

/// What one call writes in the order of this machine another reads back, whatever follows.
pub proof fn lemma_message_reads_back(
    written: ByteOrder,
    read: ByteOrder,
    body: Seq<u8>,
    rest: Seq<u8>,
)
    requires
        machine_order(written),
        machine_order(read),
        body.len() <= MAX_OUTGOING,
    ensures
        front(read, frame(written, body) + rest) == Front::Message(body, rest),
{
    lemma_one_machine_order(written, read);
    lemma_frame_reads_back(read, body, rest);
}

/// The order of this machine.
pub(crate) fn native_order() -> (r: ByteOrder)
    ensures
        machine_order(r),
{
    let written = ne_bytes(1);
    assert(call_ensures(ne_bytes, (1u32,), written));
    let probe: [u8; 4] = [1, 0, 0, 0];
    let n: u32 = ne_number(probe);
    assert(length_at(ByteOrder::Little, probe@) == 1);
    assert(length_at(ByteOrder::Big, probe@) == 16777216);
    if n == 1 {
        ByteOrder::Little
    } else {
        ByteOrder::Big
    }
}

/// Appends a message in this byte order, unless it is over the cap.
pub fn write_frame(order: ByteOrder, w: &mut Vec<u8>, body: &[u8]) -> (r: Result<(), FrameError>)
    ensures
        match r {
            Ok(_) => body@.len() <= MAX_OUTGOING && final(w)@ == old(w)@ + frame(order, body@),
            Err(e) => {
                &&& body@.len() > MAX_OUTGOING
                &&& e@ == FrameErrorView::InvalidData(
                    "outgoing message length "@ + crate::text::decimal(body@.len() as int)
                        + " exceeds Chrome's 1 MB cap"@,
                )
                &&& final(w)@ == old(w)@
            },
        },
{
    if body.len() > MAX_OUTGOING {
        let mut m = "outgoing message length ".to_owned();
        crate::text::push_digits(&mut m, body.len() as u64);
        m.append(" exceeds Chrome's 1 MB cap");
        return Err(FrameError::InvalidData(m));
    }
    let n: u32 = body.len() as u32;
    let a: u8 = (n % 256) as u8;
    let b: u8 = (n / 256 % 256) as u8;
    let c: u8 = (n / 65536 % 256) as u8;
    let d: u8 = (n / 16777216) as u8;
    match order {
        ByteOrder::Little => {
            w.push(a);
            w.push(b);
            w.push(c);
            w.push(d);
        },
        ByteOrder::Big => {
            w.push(d);
            w.push(c);
            w.push(b);
            w.push(a);
        },
    }
    assert(w@ =~= old(w)@ + length_bytes(order, n));
    w.extend_from_slice(body);
    assert(w@ =~= old(w)@ + frame(order, body@));
    Ok(())
}

/// Appends a message in the byte order of this machine, unless it is over the cap.
pub fn write_message(w: &mut Vec<u8>, body: &[u8]) -> (r: Result<(), FrameError>)
    ensures
        match r {
            Ok(_) => body@.len() <= MAX_OUTGOING && exists|order: ByteOrder|
                machine_order(order) && final(w)@ == old(w)@ + #[trigger] frame(order, body@),
            Err(e) => {
                &&& body@.len() > MAX_OUTGOING
                &&& e@ == FrameErrorView::InvalidData(
                    "outgoing message length "@ + crate::text::decimal(body@.len() as int)
                        + " exceeds Chrome's 1 MB cap"@,
                )
                &&& final(w)@ == old(w)@
            },
        },
{
    let order = native_order();
    write_frame(order, w, body)
}

/// What a read of the stream gave.
#[derive(Debug)]
pub enum ReadEvent {
    /// These bytes: at least one, at most as many as were asked for.
    Data(Vec<u8>),
    /// The end of the stream.
    Eof,
    /// Nothing, because the read was interrupted.
    Interrupted,
    /// An error.
    Failed(String),
}

/// What to do next.
#[derive(Debug)]
pub enum ReadStep {
    /// Read at most so many bytes.
    Read(usize),
    /// A message is complete.
    Message(Vec<u8>),
    /// The stream has ended between two messages.
    Closed,
    /// The stream is of no more use.
    Fail(FrameError),
}

/// The step says what the bytes read so far come to.
pub open spec fn step_is(step: ReadStep, p: Progress) -> bool {
    match (step, p) {
        (ReadStep::Read(n), Progress::Need(m)) => n == m,
        (ReadStep::Message(b), Progress::Message(s)) => b@ == s,
        (ReadStep::Fail(e), Progress::Fail(f)) => e@ == f,
        _ => false,
    }
}

/// How far the reading of one message has come.
#[verifier::ext_equal]
pub enum Reading {
    /// These bytes were read; more are needed.
    Waiting(Seq<u8>),
    /// This is the message.
    Message(Seq<u8>),
    /// The stream ended between two messages.
    Closed,
    /// There is no message.
    Fail(FrameErrorView),
}

/// The reading after one more event. What is over stays as it is.
pub open spec fn read_on(order: ByteOrder, reading: Reading, event: ReadEvent) -> Reading {
    match reading {
        Reading::Waiting(got) => match event {
            ReadEvent::Data(bytes) => match progress(order, got + bytes@) {
                Progress::Need(_) => Reading::Waiting(got + bytes@),
                Progress::Message(s) => Reading::Message(s),
                Progress::Fail(e) => Reading::Fail(e),
            },
            ReadEvent::Eof => if got.len() == 0 {
                Reading::Closed
            } else {
                Reading::Fail(cut_off(got.len()))
            },
            ReadEvent::Interrupted => reading,
            ReadEvent::Failed(m) => Reading::Fail(FrameErrorView::Failed(m@)),
        },
        _ => reading,
    }
}

/// The reading after a list of events, from the bytes `got` on.
pub open spec fn read_all(order: ByteOrder, got: Seq<u8>, events: Seq<ReadEvent>) -> Reading
    decreases events.len(),
{
    if events.len() == 0 {
        Reading::Waiting(got)
    } else {
        read_on(order, read_all(order, got, events.drop_last()), events.last())
    }
}

/// The events without the interrupted ones.
pub open spec fn uninterrupted(events: Seq<ReadEvent>) -> Seq<ReadEvent>
    decreases events.len(),
{
    if events.len() == 0 {
        events
    } else if events.last() is Interrupted {
        uninterrupted(events.drop_last())
    } else {
        uninterrupted(events.drop_last()).push(events.last())
    }
}

/// Interrupted reads do not matter: the reading comes to what it comes to without them.
pub proof fn lemma_interruptions_do_not_matter(
    order: ByteOrder,
    got: Seq<u8>,
    events: Seq<ReadEvent>,
)
    ensures
        read_all(order, got, events) == read_all(order, got, uninterrupted(events)),
    decreases events.len(),
{
    if events.len() > 0 {
        let front = events.drop_last();
        lemma_interruptions_do_not_matter(order, got, front);
        if !(events.last() is Interrupted) {
            let rest = uninterrupted(front);
            assert(rest.push(events.last()).drop_last() =~= rest);
        }
    }
}

/// A failed read before the message is complete is handed on, also after some bytes, and
/// whatever would follow.
pub proof fn lemma_failure_is_handed_on(
    order: ByteOrder,
    got: Seq<u8>,
    events: Seq<ReadEvent>,
    n: int,
    why: String,
)
    requires
        0 <= n < events.len(),
        events[n] == ReadEvent::Failed(why),
        read_all(order, got, events.take(n)) is Waiting,
    ensures
        read_all(order, got, events) == Reading::Fail(FrameErrorView::Failed(why@)),
    decreases events.len(),
{
    let front = events.drop_last();
    if n == events.len() - 1 {
        assert(events.take(n) =~= front);
    } else {
        assert(front.take(n) =~= events.take(n));
        lemma_failure_is_handed_on(order, got, front, n, why);
    }
}

/// The step and the bytes `got` so far say how far the reading has come.
pub open spec fn step_tells(step: ReadStep, order: ByteOrder, got: Seq<u8>, reading: Reading) -> bool {
    match (step, reading) {
        (ReadStep::Read(n), Reading::Waiting(s)) => got == s && progress(order, s) == Progress::Need(
            n as int,
        ),
        (ReadStep::Message(b), Reading::Message(s)) => b@ == s,
        (ReadStep::Closed, Reading::Closed) => true,
        (ReadStep::Fail(e), Reading::Fail(f)) => e@ == f,
        _ => false,
    }
}

/// Reads one message piece by piece.
#[derive(Debug)]
pub struct FrameReader {
    order: ByteOrder,
    got: Vec<u8>,
}

impl FrameReader {
    /// The byte order.
    pub closed spec fn order(&self) -> ByteOrder {
        self.order
    }

    /// The bytes of the message that were read so far.
    pub closed spec fn got(&self) -> Seq<u8> {
        self.got@
    }

    /// A reader that is still waiting for bytes.
    pub open spec fn waiting(&self) -> bool {
        progress(self.order(), self.got()) is Need
    }

    /// A reader for the next message in this byte order.
    pub fn in_order(order: ByteOrder) -> (r: FrameReader)
        ensures
            r.order() == order,
            r.got() == Seq::<u8>::empty(),
            r.waiting(),
    {
        FrameReader { order, got: Vec::new() }
    }

    /// A reader for the next message in the byte order of this machine.
    pub fn new() -> (r: FrameReader)
        ensures
            machine_order(r.order()),
            r.got() == Seq::<u8>::empty(),
            r.waiting(),
    {
        FrameReader::in_order(native_order())
    }

    /// What the bytes so far come to.
    pub fn step(&self) -> (r: ReadStep)
        ensures
            step_is(r, progress(self.order(), self.got())),
    {
        if self.got.len() < 4 {
            return ReadStep::Read(4 - self.got.len());
        }
        let a: u64 = self.got[0] as u64;
        let b: u64 = self.got[1] as u64;
        let c: u64 = self.got[2] as u64;
        let d: u64 = self.got[3] as u64;
        let n: u64 = match self.order {
            ByteOrder::Little => a + 256 * b + 65536 * c + 16777216 * d,
            ByteOrder::Big => d + 256 * c + 65536 * b + 16777216 * a,
        };
        if n > MAX_INCOMING as u64 {
            let mut m = "incoming message length ".to_owned();
            crate::text::push_digits(&mut m, n);
            m.append(" exceeds cap 4194304");
            return ReadStep::Fail(FrameError::InvalidData(m));
        }
        let have: usize = self.got.len() - 4;
        if have < n as usize {
            return ReadStep::Read(n as usize - have);
        }
        let body = vstd::slice::slice_to_vec(
            vstd::slice::slice_subrange(self.got.as_slice(), 4, self.got.len()),
        );
        assert(body@ =~= self.got@.skip(4));
        ReadStep::Message(body)
    }

    /// Takes what a read gave, and says what to do next.
    pub fn feed(&mut self, event: ReadEvent) -> (r: ReadStep)
        requires
            old(self).waiting(),
        ensures
            final(self).order() == old(self).order(),
            step_tells(
                r,
                final(self).order(),
                final(self).got(),
                read_on(old(self).order(), Reading::Waiting(old(self).got()), event),
            ),
            match event {
                ReadEvent::Data(bytes) => {
                    &&& final(self).got() == old(self).got() + bytes@
                    &&& step_is(r, progress(final(self).order(), final(self).got()))
                },
                ReadEvent::Eof => {
                    &&& final(self).got() == old(self).got()
                    &&& if old(self).got().len() == 0 {
                        r is Closed
                    } else {
                        r matches ReadStep::Fail(e) && e@ == cut_off(old(self).got().len())
                    }
                },
                ReadEvent::Interrupted => {
                    &&& final(self).got() == old(self).got()
                    &&& step_is(r, progress(final(self).order(), final(self).got()))
                },
                ReadEvent::Failed(m) => {
                    &&& final(self).got() == old(self).got()
                    &&& r matches ReadStep::Fail(e) && e@ == FrameErrorView::Failed(m@)
                },
            },
    {
        match event {
            ReadEvent::Data(bytes) => {
                let mut bytes = bytes;
                self.got.append(&mut bytes);
                self.step()
            },
            ReadEvent::Eof => {
                if self.got.len() == 0 {
                    ReadStep::Closed
                } else if self.got.len() < 4 {
                    ReadStep::Fail(
                        FrameError::UnexpectedEof("EOF in the middle of a length prefix"),
                    )
                } else {
                    ReadStep::Fail(FrameError::UnexpectedEof("failed to fill whole buffer"))
                }
            },
            ReadEvent::Interrupted => self.step(),
            ReadEvent::Failed(m) => ReadStep::Fail(FrameError::Failed(m)),
        }
    }
}

/// A stream of bytes in memory.
#[derive(Debug)]
pub struct ByteStream {
    bytes: Vec<u8>,
    at: usize,
}

impl View for ByteStream {
    type V = Seq<u8>;

    /// The bytes that are still to come.
    closed spec fn view(&self) -> Seq<u8> {
        self.bytes@.skip(self.at as int)
    }
}

impl ByteStream {
    /// The position lies within the bytes.
    pub closed spec fn wf(&self) -> bool {
        self.at <= self.bytes@.len()
    }

    /// A stream of these bytes.
    pub fn new(bytes: Vec<u8>) -> (r: ByteStream)
        ensures
            r.wf(),
            r@ == bytes@,
    {
        assert(bytes@.skip(0) =~= bytes@);
        ByteStream { bytes, at: 0 }
    }

    /// Takes at most `n` bytes.
    fn take(&mut self, n: usize) -> (r: Vec<u8>)
        requires
            old(self).wf(),
        ensures
            final(self).wf(),
            r@ == old(self)@.take(r@.len() as int),
            r@.len() == (if n < old(self)@.len() {
                n as int
            } else {
                old(self)@.len() as int
            }),
            final(self)@ == old(self)@.skip(r@.len() as int),
    {
        let left: usize = self.bytes.len() - self.at;
        let count: usize = if n < left {
            n
        } else {
            left
        };
        let to: usize = self.at + count;
        let r = vstd::slice::slice_to_vec(
            vstd::slice::slice_subrange(self.bytes.as_slice(), self.at, to),
        );
        assert(r@ =~= self@.take(count as int));
        self.at = to;
        assert(self@ =~= old(self)@.skip(count as int));
        r
    }
}

/// The outcome of reading one message is what stood at the front of the stream.
pub open spec fn outcome_is(
    r: Result<Option<Vec<u8>>, FrameError>,
    after: Seq<u8>,
    f: Front,
) -> bool {
    match (r, f) {
        (Ok(None), Front::End) => after.len() == 0,
        (Ok(Some(b)), Front::Message(s, rest)) => b@ == s && after == rest,
        (Err(e), Front::Fail(v, rest)) => e@ == v && after == rest,
        _ => false,
    }
}

/// Reads one message in this byte order. `Ok(None)` means that the stream ended between
/// two messages.
pub fn read_frame(order: ByteOrder, stream: &mut ByteStream) -> (r: Result<
    Option<Vec<u8>>,
    FrameError,
>)
    requires
        old(stream).wf(),
    ensures
        final(stream).wf(),
        outcome_is(r, final(stream)@, front(order, old(stream)@)),
{
    let ghost s = stream@;
    let mut reader = FrameReader::in_order(order);
    assert(reader.got() + stream@ =~= s);
    loop
        invariant
            s == old(stream)@,
            stream.wf(),
            reader.order() == order,
            reader.waiting(),
            reader.got() + stream@ == s,
            reader.got().len() <= 4 || reader.got().len() < 4 + length_at(order, reader.got()),
        decreases stream@.len(),
    {
        let ghost before = reader.got();
        let ghost left = stream@;
        let n: usize = match reader.step() {
            ReadStep::Read(n) => n,
            _ => 0,
        };
        let bytes = stream.take(n);
        let ghost piece = bytes@;
        let event = if bytes.len() == 0 {
            ReadEvent::Eof
        } else {
            ReadEvent::Data(bytes)
        };
        let step = reader.feed(event);
        proof {
            assert(left == piece + stream@) by {
                assert(left =~= left.take(piece.len() as int) + left.skip(piece.len() as int));
            }
            assert(reader.got() + stream@ =~= s);
            let got = reader.got();
            if piece.len() == 0 {
                assert(left.len() == 0);
                assert(s =~= got);
                assert(stream@ =~= seq![]);
                lemma_progress_is_front(order, got, seq![]);
            } else {
                if before.len() >= 4 {
                    assert(got[0] == before[0] && got[1] == before[1] && got[2] == before[2]
                        && got[3] == before[3]);
                }
                lemma_progress_is_front(order, got, stream@);
            }
        }
        match step {
            ReadStep::Read(_) => {},
            ReadStep::Message(b) => {
                return Ok(Some(b));
            },
            ReadStep::Closed => {
                return Ok(None);
            },
            ReadStep::Fail(e) => {
                return Err(e);
            },
        }
    }
}

/// Reads one message in the byte order of this machine. `Ok(None)` means that the stream
/// ended between two messages.
pub fn read_message(stream: &mut ByteStream) -> (r: Result<Option<Vec<u8>>, FrameError>)
    requires
        old(stream).wf(),
    ensures
        final(stream).wf(),
        exists|order: ByteOrder|
            machine_order(order) && outcome_is(
                r,
                final(stream)@,
                #[trigger] front(order, old(stream)@),
            ),
{
    let order = native_order();
    read_frame(order, stream)
}

} // verus!
