use crate::error::{check_code, status_meaning, status_word, status_word_of, Error};
use vstd::prelude::*;
use vstd::slice::slice_subrange;

verus! {

/// Reads one TLV with tag `tag` from the front of `s`: its value and what follows it.
pub open spec fn tlv_pop(s: Seq<u8>, tag: u8) -> Result<(Seq<u8>, Seq<u8>), Error> {
    if s.len() < 1 {
        Err(Error::InsufficientData)
    } else if s[0] != tag {
        Err(Error::UnexpectedTag(s[0]))
    } else if s.len() < 2 || s.len() < 2 + s[1] {
        Err(Error::InsufficientData)
    } else {
        Ok((s.subrange(2, 2 + s[1]), s.subrange(2 + s[1], s.len() as int)))
    }
}

/// The payload of a single response frame: the frame without its status word, when the
/// status word reports success or more data.
pub open spec fn frame_payload(frame: Seq<u8>) -> Result<Seq<u8>, Error> {
    if frame.len() < 2 {
        Err(Error::InsufficientData)
    } else {
        match status_meaning(status_word(frame[frame.len() - 2], frame[frame.len() - 1])) {
            Ok(_) => Ok(frame.subrange(0, frame.len() - 2)),
            Err(e) => Err(e),
        }
    }
}

/// A forward cursor over the TLV payload of a response.
#[derive(Clone, Copy)]
pub struct Response<'a>(pub &'a [u8]);

impl<'a> View for Response<'a> {
    type V = Seq<u8>;

    open spec fn view(&self) -> Seq<u8> {
        self.0@
    }
}

impl<'a> Response<'a> {
    /// Takes the status word off a single frame and checks it.
    pub fn parse(buf: &'a [u8]) -> (r: Result<Self, Error>)
        ensures
            buf@.len() < 2 ==> r == Err::<Self, Error>(Error::InsufficientData),
            match r {
                Ok(res) => frame_payload(buf@) == Ok::<Seq<u8>, Error>(res@),
                Err(e) => frame_payload(buf@) == Err::<Seq<u8>, Error>(e),
            },
    {
        let n = buf.len();
        if n < 2 {
            return Err(Error::InsufficientData);
        }
        let code = status_word_of(buf[n - 2], buf[n - 1]);
        match check_code(code) {
            Ok(_) => Ok(Response(slice_subrange(buf, 0, n - 2))),
            Err(e) => Err(e),
        }
    }

    /// Whether the cursor has consumed the whole payload.
    pub fn is_empty(&self) -> (r: bool)
        ensures
            r == (self@.len() == 0),
    {
        self.0.len() == 0
    }

    /// The tag of the next TLV, if any byte remains.
    pub fn peek(&self) -> (r: Option<u8>)
        ensures
            self@.len() == 0 ==> r == None::<u8>,
            self@.len() > 0 ==> r == Some(self@[0]),
    {
        if self.0.len() == 0 {
            None
        } else {
            Some(self.0[0])
        }
    }

    /// Reads the next TLV, which must carry `expected_tag`, and yields its value.
    /// On failure the cursor stays where it was.
    pub fn pop(&mut self, expected_tag: u8) -> (r: Result<&'a [u8], Error>)
        ensures
            match tlv_pop(old(self)@, expected_tag) {
                Ok((value, rest)) => {
                    &&& r is Ok
                    &&& r->Ok_0@ == value
                    &&& final(self)@ == rest
                },
                Err(e) => {
                    &&& r == Err::<&'a [u8], Error>(e)
                    &&& final(self)@ == old(self)@
                },
            },
    {
        let s = self.0;
        if s.len() < 1 {
            return Err(Error::InsufficientData);
        }
        let tag = s[0];
        if tag != expected_tag {
            return Err(Error::UnexpectedTag(tag));
        }
        if s.len() < 2 {
            return Err(Error::InsufficientData);
        }
        let len = s[1] as usize;
        if s.len() - 2 < len {
            return Err(Error::InsufficientData);
        }
        let data = slice_subrange(s, 2, 2 + len);
        self.0 = slice_subrange(s, 2 + len, s.len());
        Ok(data)
    }
}

/// Every value that the cursor yields is exactly as long as its length byte says, and
/// the cursor moves past the whole TLV.
pub proof fn lemma_value_length(s: Seq<u8>, tag: u8)
    ensures
        tlv_pop(s, tag) matches Ok((value, rest)) ==> {
            &&& value.len() == s[1]
            &&& s == seq![tag, s[1]] + value + rest
        },
{
    if let Ok((value, rest)) = tlv_pop(s, tag) {
        assert(s =~= seq![tag, s[1]] + value + rest);
    }
}

/// The cursor is exhausted exactly when no byte remains, and a residue too short for the
/// TLV it starts makes the next read fail with `InsufficientData`.
pub proof fn lemma_residue(s: Seq<u8>, tag: u8)
    ensures
        s.len() == 0 ==> tlv_pop(s, tag) == Err::<(Seq<u8>, Seq<u8>), Error>(
            Error::InsufficientData,
        ),
        s.len() > 0 && s[0] == tag && (s.len() < 2 || s.len() < 2 + s[1])
            ==> tlv_pop(s, tag) == Err::<(Seq<u8>, Seq<u8>), Error>(Error::InsufficientData),
{
}

/// A reply made of a status word alone, one that reports success or more data, leaves
/// nothing to read.
pub proof fn lemma_status_only(sw1: u8, sw2: u8)
    requires
        status_meaning(status_word(sw1, sw2)) is Ok,
    ensures
        frame_payload(seq![sw1, sw2]) == Ok::<Seq<u8>, Error>(Seq::<u8>::empty()),
{
    assert(seq![sw1, sw2].subrange(0, 0) =~= Seq::<u8>::empty());
}

/// A reply shorter than a status word is `InsufficientData`.
pub proof fn lemma_short_frame(frame: Seq<u8>)
    requires
        frame.len() < 2,
    ensures
        frame_payload(frame) == Err::<Seq<u8>, Error>(Error::InsufficientData),
{
}

} // verus!
