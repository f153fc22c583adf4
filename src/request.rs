use crate::error::{check_code, status_meaning, status_word, status_word_of, Error};
use crate::response::{tlv_pop, Response};
use vstd::prelude::*;
use vstd::slice::slice_subrange;

verus! {

/// The command that fetches the next frame of a chained reply.
pub const GET_RESPONSE: [u8; 4] = [0x00, 0xa5, 0x00, 0x00];

/// The bytes of a command under construction, with the `Lc` placeholder added when
/// the body is about to receive its first byte.
pub open spec fn with_lc(cmd: Seq<u8>) -> Seq<u8> {
    if cmd.len() < 5 {
        cmd.push(0)
    } else {
        cmd
    }
}

/// A TLV triple: tag, length byte, value.
pub open spec fn tlv(tag: u8, value: Seq<u8>) -> Seq<u8> {
    seq![tag, value.len() as u8] + value
}

/// The command as it goes on the wire: `Lc` holds the length of the body, modulo 256.
pub open spec fn framed(cmd: Seq<u8>) -> Seq<u8> {
    if cmd.len() >= 5 {
        cmd.update(4, ((cmd.len() - 5) % 256) as u8)
    } else {
        cmd
    }
}

/// One step of a chained exchange: the payload gathered so far, extended by a reply frame.
/// `Ok(true)` means that more frames follow.
pub open spec fn frame_step(payload: Seq<u8>, frame: Seq<u8>) -> Result<(bool, Seq<u8>), Error> {
    if frame.len() < 2 {
        Err(Error::InsufficientData)
    } else {
        match status_meaning(status_word(frame[frame.len() - 2], frame[frame.len() - 1])) {
            Ok(more) => Ok((more, payload + frame.subrange(0, frame.len() - 2))),
            Err(e) => Err(e),
        }
    }
}

fn append_bytes(buf: &mut Vec<u8>, data: &[u8])
    ensures
        final(buf)@ == old(buf)@ + data@,
{
    let mut i: usize = 0;
    while i < data.len()
        invariant
            i <= data@.len(),
            buf@ == old(buf)@ + data@.subrange(0, i as int),
        decreases data@.len() - i,
    {
        buf.push(data[i]);
        i = i + 1;
        assert(data@.subrange(0, i as int) =~= data@.subrange(0, i - 1).push(data@[i - 1]));
    }
    assert(data@.subrange(0, data@.len() as int) =~= data@);
}

/// A command APDU under construction in a caller's buffer.
pub struct Request<'a>(&'a mut Vec<u8>);

impl<'a> View for Request<'a> {
    type V = Seq<u8>;

    closed spec fn view(&self) -> Seq<u8> {
        self.0@
    }
}

impl<'a> Request<'a> {
    /// Starts a command with its four header bytes; whatever `buf` held is dropped.
    pub fn new(cla: u8, ins: u8, p1: u8, p2: u8, buf: &'a mut Vec<u8>) -> (r: Self)
        ensures
            r@ == seq![cla, ins, p1, p2],
    {
        buf.clear();
        buf.push(cla);
        buf.push(ins);
        buf.push(p1);
        buf.push(p2);
        Request(buf)
    }

    /// Appends an application identifier to the body.
    pub fn push_aid(self, aid: &[u8; 7]) -> (r: Self)
        ensures
            r@ == with_lc(self@) + aid@,
    {
        let Request(buf) = self;
        if buf.len() < 5 {
            buf.push(0x00);
        }
        append_bytes(buf, aid);
        Request(buf)
    }

    /// Appends a TLV to the body.
    pub fn push(self, tag: u8, data: &[u8]) -> (r: Self)
        requires
            data@.len() <= 255,
        ensures
            r@ == with_lc(self@) + tlv(tag, data@),
    {
        let Request(buf) = self;
        if buf.len() < 5 {
            buf.push(0x00);
        }
        buf.push(tag);
        buf.push(data.len() as u8);
        append_bytes(buf, data);
        Request(buf)
    }

    /// Writes the body length into `Lc` and opens the exchange that carries the command.
    pub fn exchange(self) -> (r: Exchange<'a>)
        ensures
            r.wf(),
            r.command() == framed(self@),
            r.payload() == Seq::<u8>::empty(),
            !r.is_started(),
    {
        let Request(buf) = self;
        let n = buf.len();
        if n >= 5 {
            buf[4] = ((n - 5) % 256) as u8;
        }
        proof {
            assert(buf@ =~= framed(self@));
        }
        Exchange { buf, mid: n, started: false }
    }
}

/// The send and receive loop of one command: which bytes go to the card next, and how
/// the reply frames add up to the payload. The command stays at the front of the buffer
/// and the payload grows behind it.
pub struct Exchange<'a> {
    buf: &'a mut Vec<u8>,
    mid: usize,
    started: bool,
}

impl<'a> Exchange<'a> {
    /// The framed command.
    pub closed spec fn command(&self) -> Seq<u8> {
        self.buf@.subrange(0, self.mid as int)
    }

    /// The payload gathered from the frames received so far.
    pub closed spec fn payload(&self) -> Seq<u8> {
        self.buf@.subrange(self.mid as int, self.buf@.len() as int)
    }

    /// Whether a frame has been received.
    pub closed spec fn is_started(&self) -> bool {
        self.started
    }

    /// The command fits in the buffer; every exchange is made and kept that way.
    pub closed spec fn wf(&self) -> bool {
        self.mid <= self.buf@.len()
    }

    /// The bytes to send next: the command itself, then GET-RESPONSE for each further frame.
    pub fn next_command(&self) -> (r: &[u8])
        requires
            self.wf(),
        ensures
            r@ == if self.is_started() {
                GET_RESPONSE@
            } else {
                self.command()
            },
    {
        if self.started {
            GET_RESPONSE.as_slice()
        } else {
            slice_subrange(self.buf.as_slice(), 0, self.mid)
        }
    }

    /// Takes in one reply frame. `Ok(true)`: send the next command for more data;
    /// `Ok(false)`: the payload is complete. On an error nothing of the frame is kept.
    pub fn receive(&mut self, frame: &[u8]) -> (r: Result<bool, Error>)
        requires
            old(self).wf(),
        ensures
            final(self).wf(),
            final(self).command() == old(self).command(),
            match frame_step(old(self).payload(), frame@) {
                Ok((more, payload)) => {
                    &&& r == Ok::<bool, Error>(more)
                    &&& final(self).payload() == payload
                    &&& final(self).is_started()
                },
                Err(e) => {
                    &&& r == Err::<bool, Error>(e)
                    &&& final(self).payload() == old(self).payload()
                    &&& final(self).is_started() == old(self).is_started()
                },
            },
    {
        let n = frame.len();
        if n < 2 {
            return Err(Error::InsufficientData);
        }
        let code = status_word_of(frame[n - 2], frame[n - 1]);
        let more = check_code(code)?;
        let ghost before = self.buf@;
        append_bytes(self.buf, slice_subrange(frame, 0, n - 2));
        self.started = true;
        proof {
            assert(self.buf@.subrange(0, self.mid as int) =~= before.subrange(0, self.mid as int));
            assert(self.buf@.subrange(self.mid as int, self.buf@.len() as int) =~= before.subrange(
                self.mid as int,
                before.len() as int,
            ) + frame@.subrange(0, n - 2));
        }
        Ok(more)
    }

    /// The completed payload, as a cursor.
    pub fn into_response(self) -> (r: Response<'a>)
        requires
            self.wf(),
        ensures
            r@ == self.payload(),
    {
        let Exchange { buf, mid, started: _ } = self;
        let b: &'a Vec<u8> = buf;
        Response(slice_subrange(b.as_slice(), mid, b.len()))
    }
}

/// A TLV reads back as its own value, leaving what follows it.
pub proof fn lemma_tlv_pop_tlv(tag: u8, value: Seq<u8>, rest: Seq<u8>)
    requires
        value.len() <= 255,
    ensures
        tlv_pop(tlv(tag, value) + rest, tag) == Ok::<(Seq<u8>, Seq<u8>), Error>((value, rest)),
{
    let s = tlv(tag, value) + rest;
    assert(s.subrange(2, 2 + value.len() as int) =~= value);
    assert(s.subrange(2 + value.len() as int, s.len() as int) =~= rest);
}

/// A command whose body fits in the length byte carries that length in `Lc`.
pub proof fn lemma_lc_is_body_length(cmd: Seq<u8>)
    requires
        5 <= cmd.len() <= 260,
    ensures
        framed(cmd)[4] == framed(cmd).len() - 5,
{
}

/// A frame made of a status word alone adds nothing to the payload, and a frame shorter
/// than a status word is `InsufficientData`.
pub proof fn lemma_status_only_frame(payload: Seq<u8>, frame: Seq<u8>)
    ensures
        frame.len() == 2 && status_meaning(status_word(frame[0], frame[1])) is Ok
            ==> (frame_step(payload, frame) matches Ok((_, p)) && p == payload),
        frame.len() < 2 ==> frame_step(payload, frame) == Err::<(bool, Seq<u8>), Error>(
            Error::InsufficientData,
        ),
{
    if frame.len() == 2 {
        assert(payload + frame.subrange(0, 0) =~= payload);
    }
}

/// Frames `p1 ‖ 61 x`, `p2 ‖ 61 y`, `p3 ‖ 90 00` add up to the payload `p1 ‖ p2 ‖ p3`,
/// the first two asking for more and the last completing the exchange.
pub proof fn lemma_chained_frames(p1: Seq<u8>, p2: Seq<u8>, p3: Seq<u8>, x: u8, y: u8)
    ensures
        frame_step(Seq::<u8>::empty(), p1 + seq![0x61u8, x]) == Ok::<(bool, Seq<u8>), Error>(
            (true, p1),
        ),
        frame_step(p1, p2 + seq![0x61u8, y]) == Ok::<(bool, Seq<u8>), Error>((true, p1 + p2)),
        frame_step(p1 + p2, p3 + seq![0x90u8, 0x00u8]) == Ok::<(bool, Seq<u8>), Error>(
            (false, p1 + p2 + p3),
        ),
{
    let f1 = p1 + seq![0x61u8, x];
    let f2 = p2 + seq![0x61u8, y];
    let f3 = p3 + seq![0x90u8, 0x00u8];
    assert(f1.subrange(0, f1.len() - 2) =~= p1);
    assert(f2.subrange(0, f2.len() - 2) =~= p2);
    assert(f3.subrange(0, f3.len() - 2) =~= p3);
    assert(Seq::<u8>::empty() + p1 =~= p1);
}

/// A body built by two pushes reads back through the cursor as the same two TLVs, in order,
/// and nothing after them.
pub proof fn lemma_push_pop_round_trip(header: Seq<u8>, t1: u8, v1: Seq<u8>, t2: u8, v2: Seq<u8>)
    requires
        header.len() == 4,
        v1.len() <= 255,
        v2.len() <= 255,
    ensures
        ({
            let cmd = framed(with_lc(with_lc(header) + tlv(t1, v1)) + tlv(t2, v2));
            let body = cmd.subrange(5, cmd.len() as int);
            &&& tlv_pop(body, t1) matches Ok((first, rest))
            &&& first == v1
            &&& tlv_pop(rest, t2) == Ok::<(Seq<u8>, Seq<u8>), Error>((v2, Seq::<u8>::empty()))
        }),
{
    let c1 = with_lc(header) + tlv(t1, v1);
    let c2 = with_lc(c1) + tlv(t2, v2);
    let cmd = framed(c2);
    let body = cmd.subrange(5, cmd.len() as int);
    assert(c1.len() >= 5);
    assert(with_lc(c1) == c1);
    assert(body =~= tlv(t1, v1) + tlv(t2, v2));
    assert(body.subrange(2, 2 + v1.len() as int) =~= v1);
    assert(body.subrange(2 + v1.len() as int, body.len() as int) =~= tlv(t2, v2));
    let rest = tlv(t2, v2);
    assert(rest.subrange(2, 2 + v2.len() as int) =~= v2);
    assert(rest.subrange(2 + v2.len() as int, rest.len() as int) =~= Seq::<u8>::empty());
}

} // verus!
