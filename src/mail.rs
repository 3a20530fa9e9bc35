//! The TLV frame exchanged with a child process over its stdin and stdout:
//! one type byte, the payload length as a big-endian `u64`, then the payload.

use vstd::prelude::*;

verus! {

/// Bytes taken by the type field.
pub const MAIL_TYPE_SIZE: usize = 1;

/// Bytes taken by the length field.
pub const MAIL_PAYLOAD_SIZE: usize = 8;

/// Bytes before the payload.
pub const HEADER_SIZE: usize = 9;

/// Type of a frame that carries a log line of the child.
pub const LOG: u8 = 0;

/// Type of a frame that carries data of the child.
pub const DATA: u8 = 1;

/// The stream of a child that a frame belongs to.
#[derive(PartialEq, Eq, Structural, Clone, Copy, Debug)]
pub enum MailKind {
    Log,
    Data,
}

/// The stream of a frame of type `typ`; frames of other types are dropped.
pub open spec fn kind_spec(typ: u8) -> Option<MailKind> {
    if typ == LOG {
        Some(MailKind::Log)
    } else if typ == DATA {
        Some(MailKind::Data)
    } else {
        None
    }
}

/// The stream of a frame of type `typ`, if it has one.
pub fn kind_of(typ: u8) -> (r: Option<MailKind>)
    ensures
        r == kind_spec(typ),
{
    if typ == LOG {
        Some(MailKind::Log)
    } else if typ == DATA {
        Some(MailKind::Data)
    } else {
        None
    }
}

/// One frame. `size` is the length of `data`.
pub struct Mail {
    pub typ: u8,
    pub size: u64,
    pub data: Vec<u8>,
}

/// What a `Mail` holds, as mathematical values.
pub struct MailView {
    pub typ: u8,
    pub size: u64,
    pub data: Seq<u8>,
}

impl View for Mail {
    type V = MailView;

    open spec fn view(&self) -> MailView {
        MailView { typ: self.typ, size: self.size, data: self.data@ }
    }
}

impl MailView {
    /// The length field agrees with the payload.
    pub open spec fn wf(self) -> bool {
        self.data.len() == self.size
    }
}

/// `x` as eight bytes, most significant first.
pub open spec fn be_bytes(x: u64) -> Seq<u8> {
    seq![
        (x >> 56u64) as u8,
        (x >> 48u64) as u8,
        (x >> 40u64) as u8,
        (x >> 32u64) as u8,
        (x >> 24u64) as u8,
        (x >> 16u64) as u8,
        (x >> 8u64) as u8,
        x as u8,
    ]
}

/// The number that eight bytes, most significant first, stand for.
pub open spec fn be_value(b: Seq<u8>) -> u64
    recommends
        b.len() == 8,
{
    (b[0] as u64) << 56u64 | (b[1] as u64) << 48u64 | (b[2] as u64) << 40u64 | (b[3] as u64)
        << 32u64 | (b[4] as u64) << 24u64 | (b[5] as u64) << 16u64 | (b[6] as u64) << 8u64 | (
    b[7] as u64)
}

/// The wire form of a frame.
pub open spec fn encode(m: MailView) -> Seq<u8> {
    seq![m.typ] + be_bytes(m.size) + m.data
}

/// The wire form of several frames, one after the other.
pub open spec fn encode_all(ms: Seq<MailView>) -> Seq<u8>
    decreases ms.len(),
{
    if ms.len() == 0 {
        Seq::empty()
    } else {
        encode(ms[0]) + encode_all(ms.drop_first())
    }
}

/// The length field of a buffer that holds a whole header.
pub open spec fn header_size(buf: Seq<u8>) -> u64 {
    be_value(buf.subrange(1, 9))
}

/// The buffer starts with a whole frame.
pub open spec fn has_frame(buf: Seq<u8>) -> bool {
    buf.len() >= 9 && buf.len() - 9 >= header_size(buf)
}

/// The frame at the start of a buffer that holds a whole one.
pub open spec fn first_frame(buf: Seq<u8>) -> MailView
    recommends
        has_frame(buf),
{
    MailView {
        typ: buf[0],
        size: header_size(buf),
        data: buf.subrange(9, 9 + header_size(buf)),
    }
}

/// What is left of a buffer after its first frame.
pub open spec fn after_frame(buf: Seq<u8>) -> Seq<u8>
    recommends
        has_frame(buf),
{
    buf.subrange(9 + header_size(buf), buf.len() as int)
}

/// The whole frames at the start of a buffer, in order.
pub open spec fn parse_frames(buf: Seq<u8>) -> Seq<MailView>
    decreases buf.len(),
{
    if has_frame(buf) {
        seq![first_frame(buf)] + parse_frames(after_frame(buf))
    } else {
        Seq::empty()
    }
}

/// What stays in a buffer once its whole frames are taken.
pub open spec fn parse_rest(buf: Seq<u8>) -> Seq<u8>
    decreases buf.len(),
{
    if has_frame(buf) {
        parse_rest(after_frame(buf))
    } else {
        buf
    }
}

/// The frames that a rolling buffer holding `pending` gives when `chunks` are
/// read one after the other and every whole frame is taken after each read.
pub open spec fn chunked_frames(pending: Seq<u8>, chunks: Seq<Seq<u8>>) -> Seq<MailView>
    decreases chunks.len(),
{
    if chunks.len() == 0 {
        Seq::empty()
    } else {
        let buf = pending + chunks[0];
        parse_frames(buf) + chunked_frames(parse_rest(buf), chunks.drop_first())
    }
}

/// The chunks joined end to end.
pub open spec fn flatten(chunks: Seq<Seq<u8>>) -> Seq<u8>
    decreases chunks.len(),
{
    if chunks.len() == 0 {
        Seq::empty()
    } else {
        chunks[0] + flatten(chunks.drop_first())
    }
}

impl Mail {
    /// A frame of the given type whose length field is that of `data`.
    pub fn new(typ: u8, data: Vec<u8>) -> (r: Mail)
        ensures
            r@ == (MailView { typ, size: data@.len() as u64, data: data@ }),
            r@.wf(),
    {
        let size = data.len() as u64;
        Mail { typ, size, data }
    }

    /// The wire form of this frame: type, length field, payload.
    pub fn as_bytes_vec(&self) -> (r: Vec<u8>)
        ensures
            r@ == encode(self@),
    {
        let mut res: Vec<u8> = Vec::new();
        res.push(self.typ);
        let s = self.size;
        res.push((s >> 56u64) as u8);
        res.push((s >> 48u64) as u8);
        res.push((s >> 40u64) as u8);
        res.push((s >> 32u64) as u8);
        res.push((s >> 24u64) as u8);
        res.push((s >> 16u64) as u8);
        res.push((s >> 8u64) as u8);
        res.push(s as u8);
        assert(res@ =~= seq![self.typ] + be_bytes(self.size));
        let mut i: usize = 0;
        while i < self.data.len()
            invariant
                i <= self.data@.len(),
                res@ =~= seq![self.typ] + be_bytes(self.size) + self.data@.subrange(0, i as int),
            decreases self.data@.len() - i,
        {
            res.push(self.data[i]);
            i = i + 1;
        }
        assert(self.data@.subrange(0, self.data@.len() as int) =~= self.data@);
        res
    }

    /// A copy of this frame.
    pub fn duplicate(&self) -> (r: Mail)
        ensures
            r@ == self@,
    {
        let mut data: Vec<u8> = Vec::new();
        let mut i: usize = 0;
        while i < self.data.len()
            invariant
                i <= self.data@.len(),
                data@ =~= self.data@.subrange(0, i as int),
            decreases self.data@.len() - i,
        {
            data.push(self.data[i]);
            i = i + 1;
        }
        assert(data@ =~= self.data@);
        Mail { typ: self.typ, size: self.size, data }
    }
}

/// The length field stored at `at`, most significant byte first.
fn read_be_u64(v: &Vec<u8>, at: usize) -> (r: u64)
    requires
        at + 8 <= v@.len(),
    ensures
        r == be_value(v@.subrange(at as int, at + 8)),
{
    let ghost b = v@.subrange(at as int, at + 8);
    let n = v.len();
    assert(at + 8 <= n);
    let b0 = v[at] as u64;
    let b1 = v[at + 1] as u64;
    let b2 = v[at + 2] as u64;
    let b3 = v[at + 3] as u64;
    let b4 = v[at + 4] as u64;
    let b5 = v[at + 5] as u64;
    let b6 = v[at + 6] as u64;
    let b7 = v[at + 7] as u64;
    assert(b[0] as u64 == b0 && b[1] as u64 == b1 && b[2] as u64 == b2 && b[3] as u64 == b3
        && b[4] as u64 == b4 && b[5] as u64 == b5 && b[6] as u64 == b6 && b[7] as u64 == b7);
    b0 << 56u64 | b1 << 48u64 | b2 << 40u64 | b3 << 32u64 | b4 << 24u64 | b5 << 16u64 | b6 << 8u64
        | b7
}

/// A rolling buffer over a byte stream: what has been read and not yet
/// taken as a frame.
pub struct FrameBuffer {
    pending: Vec<u8>,
}

impl View for FrameBuffer {
    type V = Seq<u8>;

    closed spec fn view(&self) -> Seq<u8> {
        self.pending@
    }
}

impl FrameBuffer {
    /// An empty buffer.
    pub fn new() -> (r: FrameBuffer)
        ensures
            r@ == Seq::<u8>::empty(),
    {
        FrameBuffer { pending: Vec::new() }
    }

    /// Appends bytes read from the stream.
    pub fn feed(&mut self, bytes: &[u8])
        ensures
            final(self)@ == old(self)@ + bytes@,
    {
        let ghost start = self.pending@;
        let mut i: usize = 0;
        while i < bytes.len()
            invariant
                i <= bytes@.len(),
                self.pending@ =~= start + bytes@.subrange(0, i as int),
            decreases bytes@.len() - i,
        {
            self.pending.push(bytes[i]);
            i = i + 1;
        }
        assert(bytes@.subrange(0, bytes@.len() as int) =~= bytes@);
    }

    /// Number of bytes held.
    pub fn len(&self) -> (r: usize)
        ensures
            r == self@.len(),
    {
        self.pending.len()
    }

    /// Takes the frame at the start of the buffer once all of it has been
    /// read; the bytes after it stay for the next call.
    pub fn next_mail(&mut self) -> (r: Option<Mail>)
        ensures
            has_frame(old(self)@) ==> r is Some && r->0@ == first_frame(old(self)@)
                && final(self)@ == after_frame(old(self)@),
            !has_frame(old(self)@) ==> r is None && final(self)@ == old(self)@,
    {
        let n = self.pending.len();
        if n < HEADER_SIZE {
            return None;
        }
        let size = read_be_u64(&self.pending, MAIL_TYPE_SIZE);
        if ((n - HEADER_SIZE) as u64) < size {
            return None;
        }
        let end: usize = HEADER_SIZE + size as usize;
        let ghost all = self.pending@;
        let rest = self.pending.split_off(end);
        let data = self.pending.split_off(HEADER_SIZE);
        let typ = self.pending[0];
        self.pending = rest;
        assert(data@ =~= all.subrange(9, 9 + size));
        Some(Mail { typ, size, data })
    }
}

proof fn lemma_be_round_trip(x: u64)
    ensures
        be_value(be_bytes(x)) == x,
{
    let b0 = (x >> 56u64) as u8;
    let b1 = (x >> 48u64) as u8;
    let b2 = (x >> 40u64) as u8;
    let b3 = (x >> 32u64) as u8;
    let b4 = (x >> 24u64) as u8;
    let b5 = (x >> 16u64) as u8;
    let b6 = (x >> 8u64) as u8;
    let b7 = x as u8;
    assert((b0 as u64) << 56u64 | (b1 as u64) << 48u64 | (b2 as u64) << 40u64 | (b3 as u64)
        << 32u64 | (b4 as u64) << 24u64 | (b5 as u64) << 16u64 | (b6 as u64) << 8u64 | (b7 as u64)
        == x) by (bit_vector)
        requires
            b0 == (x >> 56u64) as u8,
            b1 == (x >> 48u64) as u8,
            b2 == (x >> 40u64) as u8,
            b3 == (x >> 32u64) as u8,
            b4 == (x >> 24u64) as u8,
            b5 == (x >> 16u64) as u8,
            b6 == (x >> 8u64) as u8,
            b7 == x as u8,
    ;
}

/// A well-formed frame followed by anything parses back as that frame,
/// with the bytes after it left over.
pub proof fn lemma_frame_round_trip(m: MailView, rest: Seq<u8>)
    requires
        m.wf(),
    ensures
        has_frame(encode(m) + rest),
        first_frame(encode(m) + rest) == m,
        after_frame(encode(m) + rest) == rest,
{
    let buf = encode(m) + rest;
    lemma_be_round_trip(m.size);
    assert(buf.subrange(1, 9) =~= be_bytes(m.size));
    assert(buf.subrange(9, 9 + m.size) =~= m.data);
    assert(buf.subrange(9 + m.size, buf.len() as int) =~= rest);
}

/// Bytes added after a buffer do not change the frames that are already
/// whole in it: they are only appended to what was left over.
pub proof fn lemma_parse_append(buf: Seq<u8>, more: Seq<u8>)
    ensures
        parse_frames(buf + more) == parse_frames(buf) + parse_frames(parse_rest(buf) + more),
        parse_rest(buf + more) == parse_rest(parse_rest(buf) + more),
    decreases buf.len(),
{
    if has_frame(buf) {
        let whole = buf + more;
        assert(whole.subrange(1, 9) =~= buf.subrange(1, 9));
        assert(has_frame(whole));
        assert(whole.subrange(9, 9 + header_size(buf)) =~= buf.subrange(
            9,
            9 + header_size(buf),
        ));
        assert(first_frame(whole) == first_frame(buf));
        assert(after_frame(whole) =~= after_frame(buf) + more);
        lemma_parse_append(after_frame(buf), more);
        assert(parse_frames(whole) =~= parse_frames(buf) + parse_frames(parse_rest(buf) + more));
    } else {
        assert(parse_rest(buf) == buf);
        assert(parse_frames(buf) =~= Seq::<MailView>::empty());
        assert(parse_frames(buf + more) =~= parse_frames(buf) + parse_frames(parse_rest(buf)
            + more));
    }
}

/// Round trip: the wire form of well-formed frames parses back to exactly
/// those frames, with nothing left over.
pub proof fn lemma_decode_encode_all(ms: Seq<MailView>)
    requires
        forall|i: int| 0 <= i < ms.len() ==> (#[trigger] ms[i]).wf(),
    ensures
        parse_frames(encode_all(ms)) == ms,
        parse_rest(encode_all(ms)) == Seq::<u8>::empty(),
    decreases ms.len(),
{
    if ms.len() == 0 {
        assert(!has_frame(Seq::<u8>::empty()));
        assert(parse_frames(encode_all(ms)) =~= ms);
    } else {
        let tail = ms.drop_first();
        assert forall|i: int| 0 <= i < tail.len() implies (#[trigger] tail[i]).wf() by {
            assert(tail[i] == ms[i + 1]);
        }
        lemma_decode_encode_all(tail);
        let buf = encode_all(ms);
        assert(buf == encode(ms[0]) + encode_all(tail));
        lemma_frame_round_trip(ms[0], encode_all(tail));
        assert(has_frame(buf));
        assert(parse_frames(buf) == seq![first_frame(buf)] + parse_frames(after_frame(buf)));
        assert(parse_rest(buf) == parse_rest(after_frame(buf)));
        assert(ms =~= seq![ms[0]] + tail);
    }
}

/// However a byte stream is cut into reads, a rolling buffer gives the frames
/// that the whole stream holds, in order.
pub proof fn lemma_chunking_irrelevant(pending: Seq<u8>, chunks: Seq<Seq<u8>>)
    requires
        !has_frame(pending),
    ensures
        chunked_frames(pending, chunks) == parse_frames(pending + flatten(chunks)),
    decreases chunks.len(),
{
    if chunks.len() == 0 {
        assert(pending + flatten(chunks) =~= pending);
        assert(parse_frames(pending) =~= Seq::<MailView>::empty());
    } else {
        let buf = pending + chunks[0];
        let later = flatten(chunks.drop_first());
        lemma_rest_has_no_frame(buf);
        lemma_chunking_irrelevant(parse_rest(buf), chunks.drop_first());
        lemma_parse_append(buf, later);
        assert(pending + flatten(chunks) =~= buf + later);
    }
}

proof fn lemma_rest_has_no_frame(buf: Seq<u8>)
    ensures
        !has_frame(parse_rest(buf)),
    decreases buf.len(),
{
    if has_frame(buf) {
        lemma_rest_has_no_frame(after_frame(buf));
    }
}

/// Frames split across arbitrary reads decode to the frames that were sent.
pub proof fn lemma_stream_round_trip(ms: Seq<MailView>, chunks: Seq<Seq<u8>>)
    requires
        forall|i: int| 0 <= i < ms.len() ==> (#[trigger] ms[i]).wf(),
        flatten(chunks) == encode_all(ms),
    ensures
        chunked_frames(Seq::empty(), chunks) == ms,
{
    assert(!has_frame(Seq::<u8>::empty()));
    lemma_chunking_irrelevant(Seq::empty(), chunks);
    assert(Seq::<u8>::empty() + flatten(chunks) =~= encode_all(ms));
    lemma_decode_encode_all(ms);
}

} // verus!
