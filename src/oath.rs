use crate::error::Error;
use crate::request::{framed, lemma_tlv_pop_tlv, tlv, Exchange, Request};
use crate::response::{tlv_pop, Response};
use vstd::prelude::*;
use vstd::slice::slice_subrange;

verus! {

/// Application identifier of the OATH applet.
pub const OATH_AID: [u8; 7] = [0xa0, 0x00, 0x00, 0x05, 0x27, 0x21, 0x01];

pub const INS_SELECT: u8 = 0xa4;
pub const INS_CALCULATE: u8 = 0xa2;
/// The applet answers CALCULATE ALL under the same instruction byte as SELECT,
/// told apart by the first parameter byte.
pub const INS_CALCULATE_ALL: u8 = 0xa4;

pub const TAG_NAME: u8 = 0x71;
pub const TAG_CHALLENGE: u8 = 0x74;
pub const TAG_RESPONSE: u8 = 0x75;
pub const TAG_TRUNCATED_RESPONSE: u8 = 0x76;
pub const TAG_HOTP: u8 = 0x77;
pub const TAG_VERSION: u8 = 0x79;
pub const TAG_ALGORITHM: u8 = 0x7b;
pub const TAG_TOUCH: u8 = 0x7c;

/// The challenge that a password-protected applet sets, with its hash algorithm.
#[derive(Debug, Clone, Copy, PartialEq, Eq)]
pub struct ChallengeWithAlgorithm<'a> {
    pub challenge: &'a [u8],
    pub algorithm: u8,
}

/// A computed code: the number of digits to show, and the raw response bytes.
#[derive(Debug, Clone, Copy, PartialEq, Eq)]
pub struct ResponseWithDigits<'a> {
    pub digits: u8,
    pub response: &'a [u8],
}

/// What CALCULATE ALL reports for one credential.
#[derive(Debug, Clone, Copy, PartialEq, Eq)]
pub enum ResponseWithTag<'a> {
    /// A counter-based credential, which the card does not compute in bulk.
    Hotp,
    /// A credential that needs a touch before the card computes it.
    Touch,
    Response(ResponseWithDigits<'a>),
}

/// The reply to SELECT.
#[derive(Debug, Clone, Copy, PartialEq, Eq)]
pub struct SelectResponse<'a> {
    pub version: &'a [u8],
    pub name: &'a [u8],
    /// Present when the applet is protected by a password.
    pub challenge: Option<ChallengeWithAlgorithm<'a>>,
}

/// The reply to CALCULATE.
#[derive(Debug, Clone, Copy, PartialEq, Eq)]
pub struct CalculateResponse<'a> {
    pub response: ResponseWithDigits<'a>,
}

/// One credential of the reply to CALCULATE ALL.
#[derive(Debug, Clone, Copy, PartialEq, Eq)]
pub struct CalculateAllResponse<'a> {
    pub name: &'a [u8],
    pub response: ResponseWithTag<'a>,
}

/// The content of a [`ResponseWithTag`], as values.
pub enum EntryKind {
    Hotp,
    Touch,
    Code(u8, Seq<u8>),
}

impl<'a> View for ResponseWithDigits<'a> {
    type V = (u8, Seq<u8>);

    open spec fn view(&self) -> (u8, Seq<u8>) {
        (self.digits, self.response@)
    }
}

impl<'a> View for ResponseWithTag<'a> {
    type V = EntryKind;

    open spec fn view(&self) -> EntryKind {
        match self {
            ResponseWithTag::Hotp => EntryKind::Hotp,
            ResponseWithTag::Touch => EntryKind::Touch,
            ResponseWithTag::Response(r) => EntryKind::Code(r.digits, r.response@),
        }
    }
}

impl<'a> View for CalculateAllResponse<'a> {
    type V = (Seq<u8>, EntryKind);

    open spec fn view(&self) -> (Seq<u8>, EntryKind) {
        (self.name@, self.response@)
    }
}

impl<'a> View for SelectResponse<'a> {
    type V = (Seq<u8>, Seq<u8>, Option<(Seq<u8>, u8)>);

    open spec fn view(&self) -> (Seq<u8>, Seq<u8>, Option<(Seq<u8>, u8)>) {
        (
            self.version@,
            self.name@,
            match self.challenge {
                Some(c) => Some((c.challenge@, c.algorithm)),
                None => None,
            },
        )
    }
}

/// The tag of a computed code: truncated or full.
pub open spec fn code_tag(truncate: bool) -> u8 {
    if truncate {
        TAG_TRUNCATED_RESPONSE
    } else {
        TAG_RESPONSE
    }
}

/// The second parameter byte of CALCULATE and CALCULATE ALL.
pub open spec fn p2_of(truncate: bool) -> u8 {
    if truncate {
        1
    } else {
        0
    }
}

/// A code TLV: its first value byte is the digit count, the rest is the response; both
/// must be present.
pub open spec fn digits_grammar(s: Seq<u8>, truncate: bool) -> Result<
    ((u8, Seq<u8>), Seq<u8>),
    Error,
> {
    match tlv_pop(s, code_tag(truncate)) {
        Ok((value, rest)) => if value.len() < 2 {
            Err(Error::InsufficientData)
        } else {
            Ok(((value[0], value.subrange(1, value.len() as int)), rest))
        },
        Err(e) => Err(e),
    }
}

/// The reply to SELECT: version, name, then either nothing or exactly a challenge and
/// a one-byte algorithm.
pub open spec fn select_grammar(s: Seq<u8>) -> Result<
    (Seq<u8>, Seq<u8>, Option<(Seq<u8>, u8)>),
    Error,
> {
    match tlv_pop(s, TAG_VERSION) {
        Err(e) => Err(e),
        Ok((version, s1)) => match tlv_pop(s1, TAG_NAME) {
            Err(e) => Err(e),
            Ok((name, s2)) => if s2.len() == 0 {
                Ok((version, name, None))
            } else {
                match tlv_pop(s2, TAG_CHALLENGE) {
                    Err(e) => Err(e),
                    Ok((challenge, s3)) => match tlv_pop(s3, TAG_ALGORITHM) {
                        Err(e) => Err(e),
                        Ok((algorithm, s4)) => if algorithm.len() != 1 {
                            Err(Error::UnexpectedLength(algorithm.len() as u8))
                        } else if s4.len() != 0 {
                            Err(Error::UnexpectedTag(s4[0]))
                        } else {
                            Ok((version, name, Some((challenge, algorithm[0]))))
                        },
                    },
                }
            },
        },
    }
}

/// The reply to CALCULATE: one code TLV.
pub open spec fn calculate_grammar(s: Seq<u8>, truncate: bool) -> Result<(u8, Seq<u8>), Error> {
    match digits_grammar(s, truncate) {
        Ok((code, _)) => Ok(code),
        Err(e) => Err(e),
    }
}

/// One credential of the reply to CALCULATE ALL: a name, then a code, a HOTP marker
/// or a touch marker.
pub open spec fn entry_grammar(s: Seq<u8>, truncate: bool) -> Result<
    ((Seq<u8>, EntryKind), Seq<u8>),
    Error,
> {
    match tlv_pop(s, TAG_NAME) {
        Err(e) => Err(e),
        Ok((name, s1)) => if s1.len() > 0 && s1[0] == code_tag(truncate) {
            match digits_grammar(s1, truncate) {
                Ok(((digits, response), rest)) => Ok(
                    ((name, EntryKind::Code(digits, response)), rest),
                ),
                Err(e) => Err(e),
            }
        } else if s1.len() > 0 && s1[0] == TAG_HOTP {
            match tlv_pop(s1, TAG_HOTP) {
                Ok((_, rest)) => Ok(((name, EntryKind::Hotp), rest)),
                Err(e) => Err(e),
            }
        } else {
            match tlv_pop(s1, TAG_TOUCH) {
                Ok((_, rest)) => Ok(((name, EntryKind::Touch), rest)),
                Err(e) => Err(e),
            }
        },
    }
}

/// A successful read consumes at least the tag and the length byte.
pub proof fn lemma_tlv_pop_shrinks(s: Seq<u8>, tag: u8)
    ensures
        tlv_pop(s, tag) matches Ok((value, rest)) ==> rest.len() + 2 <= s.len(),
{
}

/// A successfully read credential consumes at least one byte, so the items end.
pub proof fn lemma_entry_shrinks(s: Seq<u8>, truncate: bool)
    ensures
        entry_grammar(s, truncate) matches Ok((_, rest)) ==> rest.len() < s.len(),
{
    lemma_tlv_pop_shrinks(s, TAG_NAME);
    if let Ok((_, s1)) = tlv_pop(s, TAG_NAME) {
        lemma_tlv_pop_shrinks(s1, code_tag(truncate));
        lemma_tlv_pop_shrinks(s1, TAG_HOTP);
        lemma_tlv_pop_shrinks(s1, TAG_TOUCH);
    }
}

/// The items that CALCULATE ALL yields for a payload, in wire order: one per credential
/// until the payload is used up, or up to and including the first malformed one.
pub open spec fn entries(s: Seq<u8>, truncate: bool) -> Seq<Result<(Seq<u8>, EntryKind), Error>>
    decreases s.len(),
{
    if s.len() == 0 {
        Seq::empty()
    } else {
        match entry_grammar(s, truncate) {
            Err(e) => seq![Err(e)],
            Ok((entry, rest)) => if rest.len() < s.len() {
                seq![Ok(entry)] + entries(rest, truncate)
            } else {
                seq![Ok(entry)]
            },
        }
    }
}

pub open spec fn entry_view(r: Result<CalculateAllResponse, Error>) -> Result<
    (Seq<u8>, EntryKind),
    Error,
> {
    match r {
        Ok(e) => Ok(e@),
        Err(e) => Err(e),
    }
}

/// What a successful read takes off the front of the bytes is one whole TLV.
pub proof fn lemma_tlv_split(s: Seq<u8>, tag: u8)
    ensures
        tlv_pop(s, tag) matches Ok((value, rest)) ==> s == tlv(tag, value) + rest,
{
    if let Ok((value, rest)) = tlv_pop(s, tag) {
        assert(s =~= tlv(tag, value) + rest);
    }
}

/// A reply to CALCULATE ALL with no credentials yields no items.
pub proof fn lemma_no_entries(truncate: bool)
    ensures
        entries(Seq::<u8>::empty(), truncate).len() == 0,
{
}

/// A reply to SELECT parses with no challenge exactly when nothing follows the name, and
/// with a challenge exactly when a challenge and a one-byte algorithm follow and nothing
/// after them.
pub proof fn lemma_select_shape(s: Seq<u8>)
    ensures
        select_grammar(s) matches Ok((v, n, None)) ==> s == tlv(TAG_VERSION, v) + tlv(TAG_NAME, n),
        select_grammar(s) matches Ok((v, n, Some((c, a)))) ==> s == tlv(TAG_VERSION, v) + tlv(
            TAG_NAME,
            n,
        ) + tlv(TAG_CHALLENGE, c) + tlv(TAG_ALGORITHM, seq![a]),
{
    if let Ok((v, s1)) = tlv_pop(s, TAG_VERSION) {
        lemma_tlv_split(s, TAG_VERSION);
        if let Ok((n, s2)) = tlv_pop(s1, TAG_NAME) {
            lemma_tlv_split(s1, TAG_NAME);
            if s2.len() == 0 {
                assert(s1 =~= tlv(TAG_NAME, n));
            } else if let Ok((c, s3)) = tlv_pop(s2, TAG_CHALLENGE) {
                lemma_tlv_split(s2, TAG_CHALLENGE);
                if let Ok((a, s4)) = tlv_pop(s3, TAG_ALGORITHM) {
                    lemma_tlv_split(s3, TAG_ALGORITHM);
                    if a.len() == 1 && s4.len() == 0 {
                        assert(a =~= seq![a[0]]);
                        assert(s3 =~= tlv(TAG_ALGORITHM, a));
                        assert(s =~= tlv(TAG_VERSION, v) + tlv(TAG_NAME, n) + tlv(TAG_CHALLENGE, c)
                            + tlv(TAG_ALGORITHM, a));
                    }
                }
            }
        }
    }
}

/// Version and name alone give no challenge, and bytes after the name must start with
/// a challenge TLV.
pub proof fn lemma_select_without_challenge(v: Seq<u8>, n: Seq<u8>, extra: Seq<u8>)
    requires
        v.len() <= 255,
        n.len() <= 255,
    ensures
        select_grammar(tlv(TAG_VERSION, v) + tlv(TAG_NAME, n)) == Ok::<_, Error>(
            (v, n, None::<(Seq<u8>, u8)>),
        ),
        extra.len() > 0 && extra[0] != TAG_CHALLENGE ==> select_grammar(
            tlv(TAG_VERSION, v) + tlv(TAG_NAME, n) + extra,
        ) == Err::<(Seq<u8>, Seq<u8>, Option<(Seq<u8>, u8)>), Error>(Error::UnexpectedTag(extra[0])),
{
    let tv = tlv(TAG_VERSION, v);
    let tn = tlv(TAG_NAME, n);
    let e = Seq::<u8>::empty();
    lemma_tlv_pop_tlv(TAG_VERSION, v, tn);
    lemma_tlv_pop_tlv(TAG_NAME, n, e);
    assert(tn + e =~= tn);
    lemma_tlv_pop_tlv(TAG_VERSION, v, tn + extra);
    assert(tv + tn + extra =~= tv + (tn + extra));
    lemma_tlv_pop_tlv(TAG_NAME, n, extra);
}

/// Version, name, a challenge and a one-byte algorithm give the challenge.
pub proof fn lemma_select_with_challenge(v: Seq<u8>, n: Seq<u8>, c: Seq<u8>, a: u8)
    requires
        v.len() <= 255,
        n.len() <= 255,
        c.len() <= 255,
    ensures
        select_grammar(
            tlv(TAG_VERSION, v) + tlv(TAG_NAME, n) + tlv(TAG_CHALLENGE, c) + tlv(TAG_ALGORITHM, seq![a]),
        ) == Ok::<_, Error>((v, n, Some((c, a)))),
{
    let tv = tlv(TAG_VERSION, v);
    let tn = tlv(TAG_NAME, n);
    let tc = tlv(TAG_CHALLENGE, c);
    let ta = tlv(TAG_ALGORITHM, seq![a]);
    let e = Seq::<u8>::empty();
    lemma_tlv_pop_tlv(TAG_VERSION, v, tn + tc + ta);
    assert(tv + tn + tc + ta =~= tv + (tn + tc + ta));
    lemma_tlv_pop_tlv(TAG_NAME, n, tc + ta);
    assert(tn + tc + ta =~= tn + (tc + ta));
    lemma_tlv_pop_tlv(TAG_CHALLENGE, c, ta);
    lemma_tlv_pop_tlv(TAG_ALGORITHM, seq![a], e);
    assert(ta + e =~= ta);
    assert(seq![a][0] == a);
}

/// Any byte after the challenge and the algorithm is refused.
pub proof fn lemma_select_surplus(v: Seq<u8>, n: Seq<u8>, c: Seq<u8>, a: u8, extra: Seq<u8>)
    requires
        v.len() <= 255,
        n.len() <= 255,
        c.len() <= 255,
        extra.len() > 0,
    ensures
        select_grammar(
            tlv(TAG_VERSION, v) + tlv(TAG_NAME, n) + tlv(TAG_CHALLENGE, c) + tlv(TAG_ALGORITHM, seq![a])
                + extra,
        ) == Err::<(Seq<u8>, Seq<u8>, Option<(Seq<u8>, u8)>), Error>(Error::UnexpectedTag(extra[0])),
{
    let tv = tlv(TAG_VERSION, v);
    let tn = tlv(TAG_NAME, n);
    let tc = tlv(TAG_CHALLENGE, c);
    let ta = tlv(TAG_ALGORITHM, seq![a]);
    lemma_tlv_pop_tlv(TAG_VERSION, v, tn + tc + ta + extra);
    assert(tv + tn + tc + ta + extra =~= tv + (tn + tc + ta + extra));
    lemma_tlv_pop_tlv(TAG_NAME, n, tc + ta + extra);
    assert(tn + tc + ta + extra =~= tn + (tc + ta + extra));
    lemma_tlv_pop_tlv(TAG_CHALLENGE, c, ta + extra);
    assert(tc + ta + extra =~= tc + (ta + extra));
    lemma_tlv_pop_tlv(TAG_ALGORITHM, seq![a], extra);
    assert(seq![a].len() == 1);
}

/// Where a search by name stops: at a credential with that name, or at a failed item.
pub open spec fn stops_search(item: Result<(Seq<u8>, EntryKind), Error>, name: Seq<u8>) -> bool {
    match item {
        Ok((n, _)) => n == name,
        Err(_) => true,
    }
}

/// Byte-wise equality of two names.
pub fn same_bytes(a: &[u8], b: &[u8]) -> (r: bool)
    ensures
        r == (a@ == b@),
{
    if a.len() != b.len() {
        return false;
    }
    let mut i: usize = 0;
    while i < a.len()
        invariant
            i <= a@.len(),
            a@.len() == b@.len(),
            forall|j: int| 0 <= j < i ==> a@[j] == b@[j],
        decreases a@.len() - i,
    {
        if a[i] != b[i] {
            return false;
        }
        i = i + 1;
    }
    assert(a@ =~= b@);
    true
}

/// SELECT of the OATH applet.
pub fn select_request<'a>(buf: &'a mut Vec<u8>) -> (r: Exchange<'a>)
    ensures
        r.command() == seq![0x00u8, 0xa4, 0x04, 0x00, 0x07, 0xa0, 0x00, 0x00, 0x05, 0x27, 0x21, 0x01],
        r.payload() == Seq::<u8>::empty(),
        !r.is_started(),
        r.wf(),
{
    let r = Request::new(0x00, INS_SELECT, 0x04, 0x00, buf).push_aid(&OATH_AID).exchange();
    proof {
        assert(r.command() =~= seq![0x00u8, 0xa4, 0x04, 0x00, 0x07, 0xa0, 0x00, 0x00, 0x05, 0x27, 0x21, 0x01]);
    }
    r
}

/// CALCULATE of one credential, by name, on a challenge.
pub fn calculate_request<'a>(truncate: bool, name: &[u8], challenge: &[u8], buf: &'a mut Vec<u8>) -> (r: Exchange<'a>)
    requires
        4 + name@.len() + challenge@.len() <= 255,
    ensures
        r.command() == framed(
            seq![0x00u8, 0xa2, 0x00, p2_of(truncate), 0x00] + tlv(TAG_NAME, name@) + tlv(TAG_CHALLENGE, challenge@),
        ),
        r.command()[4] == r.command().len() - 5,
        r.payload() == Seq::<u8>::empty(),
        !r.is_started(),
        r.wf(),
{
    let p2: u8 = if truncate { 0x01 } else { 0x00 };
    let req = Request::new(0x00, INS_CALCULATE, 0x00, p2, buf).push(TAG_NAME, name);
    let req = req.push(TAG_CHALLENGE, challenge);
    proof {
        assert(req@ =~= seq![0x00u8, 0xa2, 0x00, p2_of(truncate), 0x00] + tlv(TAG_NAME, name@) + tlv(TAG_CHALLENGE, challenge@));
    }
    req.exchange()
}

/// CALCULATE ALL on a challenge.
pub fn calculate_all_request<'a>(truncate: bool, challenge: &[u8], buf: &'a mut Vec<u8>) -> (r: Exchange<'a>)
    requires
        2 + challenge@.len() <= 255,
    ensures
        r.command() == framed(seq![0x00u8, 0xa4, 0x00, p2_of(truncate), 0x00] + tlv(TAG_CHALLENGE, challenge@)),
        r.command()[4] == r.command().len() - 5,
        r.payload() == Seq::<u8>::empty(),
        !r.is_started(),
        r.wf(),
{
    let p2: u8 = if truncate { 0x01 } else { 0x00 };
    let req = Request::new(0x00, INS_CALCULATE_ALL, 0x00, p2, buf).push(TAG_CHALLENGE, challenge);
    proof {
        assert(req@ =~= seq![0x00u8, 0xa4, 0x00, p2_of(truncate), 0x00] + tlv(TAG_CHALLENGE, challenge@));
    }
    req.exchange()
}

/// Reads a code TLV. On failure the cursor stays where it was.
pub fn pop_response_with_digits<'a>(res: &mut Response<'a>, truncate: bool) -> (r: Result<
    ResponseWithDigits<'a>,
    Error,
>)
    ensures
        match digits_grammar(old(res)@, truncate) {
            Ok((code, rest)) => {
                &&& r is Ok
                &&& r->Ok_0@ == code
                &&& final(res)@ == rest
            },
            Err(e) => {
                &&& r == Err::<ResponseWithDigits<'a>, Error>(e)
                &&& final(res)@ == old(res)@
            },
        },
{
    let mut cursor = *res;
    let tag: u8 = if truncate { TAG_TRUNCATED_RESPONSE } else { TAG_RESPONSE };
    let value = cursor.pop(tag)?;
    if value.len() < 2 {
        return Err(Error::InsufficientData);
    }
    *res = cursor;
    Ok(ResponseWithDigits { digits: value[0], response: slice_subrange(value, 1, value.len()) })
}

/// Parses the reply to SELECT.
pub fn parse_select<'a>(res: Response<'a>) -> (r: Result<SelectResponse<'a>, Error>)
    ensures
        match r {
            Ok(s) => select_grammar(res@) == Ok::<_, Error>(s@),
            Err(e) => select_grammar(res@) == Err::<(Seq<u8>, Seq<u8>, Option<(Seq<u8>, u8)>), Error>(e),
        },
{
    let mut res = res;
    let version = res.pop(TAG_VERSION)?;
    let name = res.pop(TAG_NAME)?;
    let challenge = if res.is_empty() {
        None
    } else {
        let challenge = res.pop(TAG_CHALLENGE)?;
        let algorithm = res.pop(TAG_ALGORITHM)?;
        if algorithm.len() != 1 {
            return Err(Error::UnexpectedLength(algorithm.len() as u8));
        }
        match res.peek() {
            Some(tag) => {
                return Err(Error::UnexpectedTag(tag));
            },
            None => {},
        }
        Some(ChallengeWithAlgorithm { challenge, algorithm: algorithm[0] })
    };
    Ok(SelectResponse { version, name, challenge })
}

/// Parses the reply to CALCULATE.
pub fn parse_calculate<'a>(res: Response<'a>, truncate: bool) -> (r: Result<CalculateResponse<'a>, Error>)
    ensures
        match r {
            Ok(c) => calculate_grammar(res@, truncate) == Ok::<_, Error>(c.response@),
            Err(e) => calculate_grammar(res@, truncate) == Err::<(u8, Seq<u8>), Error>(e),
        },
{
    let mut res = res;
    let response = pop_response_with_digits(&mut res, truncate)?;
    Ok(CalculateResponse { response })
}

/// Reads one credential of the reply to CALCULATE ALL. On failure the cursor may have moved.
pub fn pop_entry<'a>(res: &mut Response<'a>, truncate: bool) -> (r: Result<CalculateAllResponse<'a>, Error>)
    ensures
        match entry_grammar(old(res)@, truncate) {
            Ok((entry, rest)) => {
                &&& r is Ok
                &&& r->Ok_0@ == entry
                &&& final(res)@ == rest
            },
            Err(e) => r == Err::<CalculateAllResponse<'a>, Error>(e),
        },
{
    let name = res.pop(TAG_NAME)?;
    let code_tag: u8 = if truncate { TAG_TRUNCATED_RESPONSE } else { TAG_RESPONSE };
    let next = res.peek();
    let response = if next == Some(code_tag) {
        ResponseWithTag::Response(pop_response_with_digits(res, truncate)?)
    } else if next == Some(TAG_HOTP) {
        res.pop(TAG_HOTP)?;
        ResponseWithTag::Hotp
    } else {
        res.pop(TAG_TOUCH)?;
        ResponseWithTag::Touch
    };
    Ok(CalculateAllResponse { name, response })
}

/// The credentials of a reply to CALCULATE ALL, read one at a time in wire order.
/// After a malformed credential it yields nothing more.
pub struct CalculateAll<'a> {
    res: Response<'a>,
    truncate: bool,
    failed: bool,
}

impl<'a> CalculateAll<'a> {
    /// The items still to come.
    pub closed spec fn items(&self) -> Seq<Result<(Seq<u8>, EntryKind), Error>> {
        if self.failed {
            Seq::empty()
        } else {
            entries(self.res@, self.truncate)
        }
    }

    pub fn new(res: Response<'a>, truncate: bool) -> (r: Self)
        ensures
            r.items() == entries(res@, truncate),
    {
        CalculateAll { res, truncate, failed: false }
    }

    /// The next credential, or `None` once the reply is used up or an item has failed.
    pub fn next_entry(&mut self) -> (r: Option<Result<CalculateAllResponse<'a>, Error>>)
        ensures
            match r {
                None => old(self).items().len() == 0 && final(self).items() == old(self).items(),
                Some(item) => {
                    &&& old(self).items().len() > 0
                    &&& entry_view(item) == old(self).items()[0]
                    &&& final(self).items() == old(self).items().drop_first()
                },
            },
    {
        if self.failed || self.res.is_empty() {
            return None;
        }
        proof {
            lemma_entry_shrinks(self.res@, self.truncate);
        }
        let ghost before = self.items();
        match pop_entry(&mut self.res, self.truncate) {
            Ok(e) => {
                proof {
                    assert(self.items() =~= before.drop_first());
                }
                Some(Ok(e))
            },
            Err(e) => {
                self.failed = true;
                proof {
                    assert(self.items() =~= before.drop_first());
                }
                Some(Err(e))
            },
        }
    }
    /// The first credential named `name`, compared byte for byte, or the first failed
    /// item if that comes earlier. Everything before it is consumed.
    pub fn find_by_name(&mut self, name: &[u8]) -> (r: Option<Result<CalculateAllResponse<'a>, Error>>)
        ensures
            match r {
                None => {
                    &&& forall|i: int| 0 <= i < old(self).items().len() ==> !stops_search(
                        #[trigger] old(self).items()[i],
                        name@,
                    )
                    &&& final(self).items().len() == 0
                },
                Some(item) => exists|k: int|
                    {
                        &&& 0 <= k < old(self).items().len()
                        &&& stops_search(#[trigger] old(self).items()[k], name@)
                        &&& forall|i: int| 0 <= i < k ==> !stops_search(#[trigger] old(self).items()[i], name@)
                        &&& entry_view(item) == old(self).items()[k]
                        &&& final(self).items() == old(self).items().subrange(k + 1, old(self).items().len() as int)
                    },
            },
    {
        let ghost orig = self.items();
        let ghost mut k: int = 0;
        loop
            invariant
                orig == old(self).items(),
                0 <= k <= orig.len(),
                self.items() == orig.subrange(k, orig.len() as int),
                forall|i: int| 0 <= i < k ==> !stops_search(#[trigger] orig[i], name@),
            decreases self.items().len(),
        {
            match self.next_entry() {
                None => {
                    assert(k == orig.len());
                    return None;
                },
                Some(Err(e)) => {
                    assert(orig[k] == entry_view(Err(e)));
                    assert(stops_search(orig[k], name@));
                    assert(self.items() =~= orig.subrange(k + 1, orig.len() as int));
                    return Some(Err(e));
                },
                Some(Ok(e)) => {
                    if same_bytes(e.name, name) {
                        assert(orig[k] == entry_view(Ok(e)));
                        assert(stops_search(orig[k], name@));
                        assert(self.items() =~= orig.subrange(k + 1, orig.len() as int));
                        return Some(Ok(e));
                    }
                    proof {
                        k = k + 1;
                    }
                },
            }
        }
    }
}

} // verus!
