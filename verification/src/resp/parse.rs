//! The wire-protocol parser: an explicit cursor over a byte slice.
//!
//! `spec_parse` states, for every input and position, exactly which value
//! a frame denotes and where it ends, or which error rejects it; the
//! executable [`Parser`] is proved to agree with it in both directions.
use vstd::prelude::*;

use vstd::slice::{slice_subrange, slice_to_vec};

use crate::num::{parse_i64_field, parse_u64_field, spec_parse_sint, spec_parse_uint};
use crate::num::is_digit;
use crate::resp::{
    has_crlf, resp_view_elems, spec_serialize, spec_serialize_elems, wf, wf_elems, Resp, RespView,
    CR, LF, TAG_ARRAY, TAG_BULK, TAG_INT, TAG_SIMPLE,
};

verus! {

broadcast use vstd::std_specs::vec::group_vec_axioms;

/// Why a parse attempt was rejected.
#[derive(Clone, Copy, Debug, PartialEq, Eq, Structural)]
pub enum ProtocolError {
    /// The input ended before the frame's terminator.
    Unterminated,
    /// The first byte of the frame is not a known type tag.
    UnknownTag,
    /// A decimal field is malformed or its value does not fit.
    BadInteger,
    /// A bulk string's payload does not match its declared length.
    LengthMismatch,
}

/// Offset from `i` of the first frame terminator at or after `i`.
pub open spec fn crlf_offset(input: Seq<u8>, i: int) -> Option<nat>
    decreases input.len() - i,
{
    if i < 0 || i + 2 > input.len() {
        None
    } else if input[i] == CR && input[i + 1] == LF {
        Some(0nat)
    } else {
        match crlf_offset(input, i + 1) {
            Some(k) => Some(k + 1),
            None => None,
        }
    }
}

pub proof fn lemma_crlf_offset(input: Seq<u8>, i: int)
    requires
        i >= 0,
    ensures
        (match crlf_offset(input, i) {
            Some(k) => i + k + 2 <= input.len() && input[i + k] == CR && input[i + k + 1] == LF
                && (forall|j: int|
                #![trigger input[j]]
                i <= j < i + k ==> !(input[j] == CR && input[j + 1] == LF)),
            None => true,
        }),
    decreases input.len() - i,
{
    if i + 2 <= input.len() && !(input[i] == CR && input[i + 1] == LF) {
        lemma_crlf_offset(input, i + 1);
    }
}

pub proof fn lemma_crlf_offset_exact(input: Seq<u8>, i: int, k: nat)
    requires
        i >= 0,
        i + k + 2 <= input.len(),
        input[i + k] == CR,
        input[i + k + 1] == LF,
        forall|j: int| #![trigger input[j]] i <= j < i + k ==> !(input[j] == CR && input[j + 1] == LF),
    ensures
        crlf_offset(input, i) == Some(k),
    decreases k,
{
    if k > 0 {
        assert(!(input[i] == CR && input[i + 1] == LF));
        lemma_crlf_offset_exact(input, i + 1, (k - 1) as nat);
    }
}

/// The decimal header of a bulk string or array: digits up to the
/// terminator, yielding the value and the position after the terminator.
pub open spec fn spec_parse_count(input: Seq<u8>, i: int) -> Result<(nat, int), ProtocolError> {
    match crlf_offset(input, i) {
        Some(k) => match spec_parse_uint(input.subrange(i, i + k), u64::MAX as int) {
            Some(n) => Ok((n as nat, i + k + 2)),
            None => Err(ProtocolError::BadInteger),
        },
        None => Err(ProtocolError::Unterminated),
    }
}

/// A simple string frame after its tag: verbatim bytes up to the terminator.
pub open spec fn spec_parse_simple(input: Seq<u8>, i: int) -> Result<
    (RespView, int),
    ProtocolError,
> {
    match crlf_offset(input, i) {
        Some(k) => Ok((RespView::SimpleString(input.subrange(i, i + k)), i + k + 2)),
        None => Err(ProtocolError::Unterminated),
    }
}

/// An integer frame after its tag: an optional sign and digits up to the
/// terminator, within the range of an `i64`.
pub open spec fn spec_parse_int_frame(input: Seq<u8>, i: int) -> Result<
    (RespView, int),
    ProtocolError,
> {
    match crlf_offset(input, i) {
        Some(k) => match spec_parse_sint(
            input.subrange(i, i + k),
            i64::MIN as int,
            i64::MAX as int,
        ) {
            Some(v) => Ok((RespView::Int(v), i + k + 2)),
            None => Err(ProtocolError::BadInteger),
        },
        None => Err(ProtocolError::Unterminated),
    }
}

/// A bulk string frame after its tag: a declared length, then exactly that
/// many payload bytes, then the terminator.
pub open spec fn spec_parse_bulk(input: Seq<u8>, i: int) -> Result<
    (RespView, int),
    ProtocolError,
> {
    match spec_parse_count(input, i) {
        Ok((len, j)) => if j + len + 2 <= input.len() && input[j + len] == CR && input[j + len
            + 1] == LF {
            Ok((RespView::BulkString(input.subrange(j, j + len)), j + len + 2))
        } else {
            Err(ProtocolError::LengthMismatch)
        },
        Err(e) => Err(e),
    }
}

/// One frame at position `i`: the value it denotes and the position after
/// it, or the error that rejects it.  An array parses atomically: a failed
/// element fails the whole frame.
pub open spec fn spec_parse(input: Seq<u8>, i: int) -> Result<(RespView, int), ProtocolError>
    decreases input.len() - i, 1int,
{
    if i < 0 || i >= input.len() {
        Err(ProtocolError::Unterminated)
    } else if input[i] == TAG_SIMPLE {
        spec_parse_simple(input, i + 1)
    } else if input[i] == TAG_BULK {
        spec_parse_bulk(input, i + 1)
    } else if input[i] == TAG_INT {
        spec_parse_int_frame(input, i + 1)
    } else if input[i] == TAG_ARRAY {
        match spec_parse_count(input, i + 1) {
            Ok((n, j)) => if i < j <= input.len() {
                match spec_parse_elems(input, j, n) {
                    Ok((vs, end)) => Ok((RespView::Array(vs), end)),
                    Err(e) => Err(e),
                }
            } else {
                // Never reached: the count header ends past its own tag.
                Err(ProtocolError::Unterminated)
            },
            Err(e) => Err(e),
        }
    } else {
        Err(ProtocolError::UnknownTag)
    }
}

/// `n` consecutive frames starting at `i`.
pub open spec fn spec_parse_elems(input: Seq<u8>, i: int, n: nat) -> Result<
    (Seq<RespView>, int),
    ProtocolError,
>
    decreases input.len() - i, 2int,
{
    if n == 0 {
        Ok((Seq::empty(), i))
    } else {
        match spec_parse(input, i) {
            Ok((v, j)) => if i < j <= input.len() {
                match spec_parse_elems(input, j, (n - 1) as nat) {
                    Ok((vs, end)) => Ok((seq![v] + vs, end)),
                    Err(e) => Err(e),
                }
            } else {
                // Never reached: a frame consumes at least one byte.
                Err(ProtocolError::Unterminated)
            },
            Err(e) => Err(e),
        }
    }
}

/// An explicit cursor over a byte slice; parsing consumes from the front
/// and never reads the network directly.
pub struct Parser<'a> {
    input: &'a [u8],
    idx: usize,
}

impl<'a> Parser<'a> {
    /// The bytes the cursor ranges over.
    pub closed spec fn bytes(&self) -> Seq<u8> {
        self.input@
    }

    /// The cursor's current position.
    pub closed spec fn pos(&self) -> int {
        self.idx as int
    }

    pub fn new(input: &'a [u8]) -> (p: Parser<'a>)
        ensures
            p.bytes() == input@,
            p.pos() == 0,
    {
        Parser { input, idx: 0 }
    }

    /// The position after `idx` when the byte at `idx` is `c`.
    fn swallow_char(&self, c: u8, idx: usize) -> (r: Option<usize>)
        ensures
            r is Some <==> (idx < self.bytes().len() && self.bytes()[idx as int] == c),
            r matches Some(j) ==> j == idx + 1,
    {
        if idx < self.input.len() && self.input[idx] == c {
            Some(idx + 1)
        } else {
            None
        }
    }

    /// The position after the frame terminator when one stands at `idx`.
    fn swallow_crlf(&self, idx: usize) -> (r: Option<usize>)
        ensures
            r is Some <==> (idx + 2 <= self.bytes().len() && self.bytes()[idx as int] == CR
                && self.bytes()[idx + 1] == LF),
            r matches Some(j) ==> j == idx + 2,
    {
        match self.swallow_char(CR, idx) {
            Some(j) => self.swallow_char(LF, j),
            None => None,
        }
    }

    /// The position of the first frame terminator at or after `start`.
    fn peek_til_crlf(&self, start: usize) -> (r: Option<usize>)
        ensures
            (match crlf_offset(self.bytes(), start as int) {
                Some(k) => r matches Some(p) && p as int == start + k,
                None => r is None,
            }),
    {
        let n = self.input.len();
        let mut cur = start;
        if cur > n {
            return None;
        }
        loop
            invariant
                start <= cur <= n,
                n == self.bytes().len(),
                (crlf_offset(self.bytes(), start as int) == (match crlf_offset(
                    self.bytes(),
                    cur as int,
                ) {
                    Some(k) => Some((k + cur - start) as nat),
                    None => None::<nat>,
                })),
            decreases n - cur,
        {
            if cur < n && cur + 1 < n {
                if self.input[cur] == CR && self.input[cur + 1] == LF {
                    return Some(cur);
                }
            } else {
                return None;
            }
            cur = cur + 1;
        }
    }

    /// Parses the frame at the cursor; on success the cursor stands after
    /// the frame, on failure it is unchanged.
    pub fn parse(&mut self) -> (r: Result<Resp, ProtocolError>)
        ensures
            final(self).bytes() == old(self).bytes(),
            (match r {
                Ok(v) => spec_parse(old(self).bytes(), old(self).pos()) == Ok::<
                    (RespView, int),
                    ProtocolError,
                >((v@, final(self).pos())) && old(self).pos() < final(self).pos() <= old(
                    self,
                ).bytes().len(),
                Err(e) => spec_parse(old(self).bytes(), old(self).pos()) == Err::<
                    (RespView, int),
                    ProtocolError,
                >(e) && final(self).pos() == old(self).pos(),
            }),
        decreases self.bytes().len() - self.pos(), 1int,
    {
        if self.idx >= self.input.len() {
            return Err(ProtocolError::Unterminated);
        }
        let tag = self.input[self.idx];
        if tag == TAG_SIMPLE {
            self.parse_simple_string()
        } else if tag == TAG_BULK {
            self.parse_bulk_string()
        } else if tag == TAG_INT {
            self.parse_int()
        } else if tag == TAG_ARRAY {
            self.parse_array()
        } else {
            Err(ProtocolError::UnknownTag)
        }
    }

    /// Parses a simple string frame standing at the cursor.
    fn parse_simple_string(&mut self) -> (r: Result<Resp, ProtocolError>)
        requires
            old(self).pos() < old(self).bytes().len(),
            old(self).bytes()[old(self).pos()] == TAG_SIMPLE,
        ensures
            final(self).bytes() == old(self).bytes(),
            (match r {
                Ok(v) => spec_parse(old(self).bytes(), old(self).pos()) == Ok::<
                    (RespView, int),
                    ProtocolError,
                >((v@, final(self).pos())) && old(self).pos() < final(self).pos() <= old(
                    self,
                ).bytes().len(),
                Err(e) => spec_parse(old(self).bytes(), old(self).pos()) == Err::<
                    (RespView, int),
                    ProtocolError,
                >(e) && final(self).pos() == old(self).pos(),
            }),
    {
        let n = self.input.len();
        let start = self.idx + 1;
        proof {
            lemma_crlf_offset(self.bytes(), start as int);
        }
        match self.peek_til_crlf(start) {
            Some(p) => {
                let payload = slice_to_vec(slice_subrange(self.input, start, p));
                self.idx = p + 2;
                Ok(Resp::SimpleString(payload))
            },
            None => Err(ProtocolError::Unterminated),
        }
    }

    /// Parses an integer frame standing at the cursor.
    fn parse_int(&mut self) -> (r: Result<Resp, ProtocolError>)
        requires
            old(self).pos() < old(self).bytes().len(),
            old(self).bytes()[old(self).pos()] == TAG_INT,
        ensures
            final(self).bytes() == old(self).bytes(),
            (match r {
                Ok(v) => spec_parse(old(self).bytes(), old(self).pos()) == Ok::<
                    (RespView, int),
                    ProtocolError,
                >((v@, final(self).pos())) && old(self).pos() < final(self).pos() <= old(
                    self,
                ).bytes().len(),
                Err(e) => spec_parse(old(self).bytes(), old(self).pos()) == Err::<
                    (RespView, int),
                    ProtocolError,
                >(e) && final(self).pos() == old(self).pos(),
            }),
    {
        let n = self.input.len();
        let start = self.idx + 1;
        proof {
            lemma_crlf_offset(self.bytes(), start as int);
        }
        match self.peek_til_crlf(start) {
            Some(p) => {
                match parse_i64_field(self.input, start, p) {
                    Some(v) => {
                        self.idx = p + 2;
                        Ok(Resp::Int(v))
                    },
                    None => Err(ProtocolError::BadInteger),
                }
            },
            None => Err(ProtocolError::Unterminated),
        }
    }

    /// Parses a bulk string frame standing at the cursor.
    fn parse_bulk_string(&mut self) -> (r: Result<Resp, ProtocolError>)
        requires
            old(self).pos() < old(self).bytes().len(),
            old(self).bytes()[old(self).pos()] == TAG_BULK,
        ensures
            final(self).bytes() == old(self).bytes(),
            (match r {
                Ok(v) => spec_parse(old(self).bytes(), old(self).pos()) == Ok::<
                    (RespView, int),
                    ProtocolError,
                >((v@, final(self).pos())) && old(self).pos() < final(self).pos() <= old(
                    self,
                ).bytes().len(),
                Err(e) => spec_parse(old(self).bytes(), old(self).pos()) == Err::<
                    (RespView, int),
                    ProtocolError,
                >(e) && final(self).pos() == old(self).pos(),
            }),
    {
        let n = self.input.len();
        let start = self.idx + 1;
        proof {
            lemma_crlf_offset(self.bytes(), start as int);
        }
        match self.peek_til_crlf(start) {
            Some(p) => {
                match parse_u64_field(self.input, start, p) {
                    Some(len64) => {
                        let payload_start = p + 2;
                        let avail = self.input.len() - payload_start;
                        if len64 > avail as u64 {
                            return Err(ProtocolError::LengthMismatch);
                        }
                        let str_end = payload_start + len64 as usize;
                        match self.swallow_crlf(str_end) {
                            Some(after) => {
                                let payload = slice_to_vec(
                                    slice_subrange(self.input, payload_start, str_end),
                                );
                                self.idx = after;
                                Ok(Resp::BulkString(payload))
                            },
                            None => Err(ProtocolError::LengthMismatch),
                        }
                    },
                    None => Err(ProtocolError::BadInteger),
                }
            },
            None => Err(ProtocolError::Unterminated),
        }
    }

    /// Parses an array frame standing at the cursor.  A failure while
    /// parsing any element rolls the cursor back to the array's start.
    #[verifier::loop_isolation(false)]
    fn parse_array(&mut self) -> (r: Result<Resp, ProtocolError>)
        requires
            old(self).pos() < old(self).bytes().len(),
            old(self).bytes()[old(self).pos()] == TAG_ARRAY,
        ensures
            final(self).bytes() == old(self).bytes(),
            (match r {
                Ok(v) => spec_parse(old(self).bytes(), old(self).pos()) == Ok::<
                    (RespView, int),
                    ProtocolError,
                >((v@, final(self).pos())) && old(self).pos() < final(self).pos() <= old(
                    self,
                ).bytes().len(),
                Err(e) => spec_parse(old(self).bytes(), old(self).pos()) == Err::<
                    (RespView, int),
                    ProtocolError,
                >(e) && final(self).pos() == old(self).pos(),
            }),
        decreases self.bytes().len() - self.pos(), 0int,
    {
        let ghost input = self.bytes();
        let ghost pos0 = self.pos();
        let n = self.input.len();
        let start = self.idx + 1;
        proof {
            lemma_crlf_offset(self.bytes(), start as int);
        }
        let p = match self.peek_til_crlf(start) {
            Some(p) => p,
            None => {
                return Err(ProtocolError::Unterminated);
            },
        };
        let count = match parse_u64_field(self.input, start, p) {
            Some(c) => c,
            None => {
                return Err(ProtocolError::BadInteger);
            },
        };
        let saved = self.idx;
        let ghost j0 = p as int + 2;
        proof {
            assert(spec_parse_count(input, pos0 + 1) == Ok::<(nat, int), ProtocolError>(
                (count as nat, j0),
            ));
        }
        self.idx = p + 2;
        let mut elems: Vec<Resp> = Vec::new();
        let mut remaining: u64 = count;
        loop
            invariant
                self.bytes() == input,
                remaining <= count,
                j0 <= self.pos() <= input.len(),
                (match spec_parse_elems(input, self.pos(), remaining as nat) {
                    Ok((vs, end)) => spec_parse_elems(input, j0, count as nat) == Ok::<
                        (Seq<RespView>, int),
                        ProtocolError,
                    >((resp_view_elems(elems@) + vs, end)),
                    Err(e) => spec_parse_elems(input, j0, count as nat) == Err::<
                        (Seq<RespView>, int),
                        ProtocolError,
                    >(e),
                }),
            decreases remaining,
        {
            if remaining == 0 {
                break;
            }
            let ghost cur = self.pos();
            let ghost done = resp_view_elems(elems@);
            match self.parse() {
                Ok(v) => {
                    proof {
                        crate::resp::lemma_view_elems_push(elems@, v);
                        match spec_parse_elems(input, self.pos(), (remaining - 1) as nat) {
                            Ok((vs2, end)) => {
                                assert(spec_parse_elems(input, cur, remaining as nat) == Ok::<
                                    (Seq<RespView>, int),
                                    ProtocolError,
                                >((seq![v@] + vs2, end)));
                                assert(done.push(v@) + vs2 =~= done + (seq![v@] + vs2));
                            },
                            Err(_) => {},
                        }
                    }
                    elems.push(v);
                    remaining = remaining - 1;
                },
                Err(e) => {
                    self.idx = saved;
                    return Err(e);
                },
            }
        }
        proof {
            assert(spec_parse_elems(input, self.pos(), 0nat) == Ok::<
                (Seq<RespView>, int),
                ProtocolError,
            >((Seq::empty(), self.pos())));
            assert(resp_view_elems(elems@) + Seq::<RespView>::empty() =~= resp_view_elems(
                elems@,
            ));
        }
        Ok(Resp::Array(elems))
    }
}

pub proof fn lemma_serialize_nonempty(v: RespView)
    ensures
        spec_serialize(v).len() >= 1,
{
    match v {
        RespView::SimpleString(s) => {},
        RespView::BulkString(s) => {},
        RespView::File(b) => {},
        RespView::Int(n) => {},
        RespView::Array(elems) => {},
    }
}

proof fn lemma_subrange_index(input: Seq<u8>, i: int, s: Seq<u8>)
    requires
        0 <= i,
        i + s.len() <= input.len(),
        input.subrange(i, i + s.len()) == s,
    ensures
        forall|t: int| #![trigger s[t]] 0 <= t < s.len() ==> input[i + t] == s[t],
{
    assert forall|t: int| #![trigger s[t]] 0 <= t < s.len() implies input[i + t] == s[t] by {
        assert(input.subrange(i, i + s.len())[t] == input[i + t]);
    }
}

/// Parsing reads back exactly what the serializer wrote: wherever the
/// serialization of a well-formed value stands in a larger input, the
/// parser returns that value and stops right after it.
pub proof fn lemma_parse_of_serialize(v: RespView, input: Seq<u8>, i: int)
    requires
        wf(v),
        0 <= i,
        i + spec_serialize(v).len() <= input.len(),
        input.subrange(i, i + spec_serialize(v).len()) == spec_serialize(v),
    ensures
        spec_parse(input, i) == Ok::<(RespView, int), ProtocolError>(
            (v, i + spec_serialize(v).len()),
        ),
    decreases v,
{
    let ser = spec_serialize(v);
    lemma_subrange_index(input, i, ser);
    match v {
        RespView::SimpleString(s) => {
            // ser == seq![TAG_SIMPLE] + s + crlf()
            assert(ser[0] == TAG_SIMPLE);
            assert(input[i] == TAG_SIMPLE);
            let k = s.len() as int;
            assert(ser[1 + k] == CR);
            assert(ser[1 + k + 1] == LF);
            assert forall|j: int|
                #![trigger input[j]]
                i + 1 <= j < i + 1 + k implies !(input[j] == CR && input[j + 1] == LF) by {
                assert(input[j] == ser[j - i]);
                assert(ser[j - i] == s[j - i - 1]);
                if input[j] == CR && input[j + 1] == LF {
                    if j < i + k {
                        assert(ser[j - i + 1] == s[j - i]);
                        assert(s[j - i - 1] == CR && s[j - i] == LF);
                        assert(has_crlf(s));
                    } else {
                        assert(input[j + 1] == ser[j + 1 - i]);
                        assert(ser[1 + k] == CR);
                    }
                }
            }
            lemma_crlf_offset_exact(input, i + 1, k as nat);
            assert(input.subrange(i + 1, i + 1 + k as int) =~= s) by {
                assert forall|t: int| 0 <= t < k implies input.subrange(
                    i + 1,
                    i + 1 + k as int,
                )[t] == s[t] by {
                    assert(input[i + (t + 1)] == ser[t + 1]);
                    assert(ser[t + 1] == s[t]);
                }
            }
        },
        RespView::Int(n) => {
            assert(ser[0] == TAG_INT);
            assert(input[i] == TAG_INT);
            let d = crate::num::dec_sdigits(n);
            if n < 0 {
                crate::num::lemma_dec_digits((-n) as nat);
                assert(d[0] == crate::num::MINUS);
                assert(forall|t: int| 0 <= t < d.len() ==> #[trigger] d[t] != CR && d[t] != LF);
            } else {
                crate::num::lemma_dec_digits(n as nat);
                assert(forall|t: int| 0 <= t < d.len() ==> #[trigger] d[t] != CR && d[t] != LF);
            }
            let k = d.len() as int;
            assert(ser[1 + k] == CR);
            assert(ser[1 + k + 1] == LF);
            assert forall|j: int|
                #![trigger input[j]]
                i + 1 <= j < i + 1 + k implies !(input[j] == CR && input[j + 1] == LF) by {
                assert(input[j] == ser[j - i]);
                assert(ser[j - i] == d[j - i - 1]);
            }
            lemma_crlf_offset_exact(input, i + 1, k as nat);
            assert(input.subrange(i + 1, i + 1 + k as int) =~= d) by {
                assert forall|t: int| 0 <= t < k implies input.subrange(
                    i + 1,
                    i + 1 + k as int,
                )[t] == d[t] by {
                    assert(input[i + (t + 1)] == ser[t + 1]);
                    assert(ser[t + 1] == d[t]);
                }
            }
            crate::num::lemma_parse_sint_dec(n, i64::MIN as int, i64::MAX as int);
        },
        RespView::BulkString(s) => {
            assert(ser[0] == TAG_BULK);
            assert(input[i] == TAG_BULK);
            let d = crate::num::dec_digits(s.len());
            crate::num::lemma_dec_digits(s.len());
            let k = d.len() as int;
            assert(ser[1 + k] == CR);
            assert(ser[1 + k + 1] == LF);
            assert forall|j: int|
                #![trigger input[j]]
                i + 1 <= j < i + 1 + k implies !(input[j] == CR && input[j + 1] == LF) by {
                assert(input[j] == ser[j - i]);
                assert(ser[j - i] == d[j - i - 1]);
                assert(is_digit(d[j - i - 1]));
            }
            lemma_crlf_offset_exact(input, i + 1, k as nat);
            assert(input.subrange(i + 1, i + 1 + k as int) =~= d) by {
                assert forall|t: int| 0 <= t < k implies input.subrange(
                    i + 1,
                    i + 1 + k as int,
                )[t] == d[t] by {
                    assert(input[i + (t + 1)] == ser[t + 1]);
                    assert(ser[t + 1] == d[t]);
                }
            }
            crate::num::lemma_parse_uint_dec(s.len(), u64::MAX as int);
            let j = i + 1 + k + 2;
            let ll = s.len() as int;
            assert(spec_parse_count(input, i + 1) == Ok::<(nat, int), ProtocolError>(
                (s.len(), j),
            ));
            assert(ser[1 + k + 2 + ll] == CR);
            assert(ser[1 + k + 2 + ll + 1] == LF);
            assert(input[j + ll] == CR);
            assert(input[j + ll + 1] == LF);
            assert(input.subrange(j, j + ll) =~= s) by {
                assert forall|t: int| 0 <= t < ll implies input.subrange(j, j + ll)[t]
                    == s[t] by {
                    assert(input[i + (1 + k + 2 + t)] == ser[1 + k + 2 + t]);
                    assert(ser[1 + k + 2 + t] == s[t]);
                }
            }
        },
        RespView::File(b) => {
            // Raw payloads are write-only; `wf` rules them out.
            assert(false);
        },
        RespView::Array(elems) => {
            assert(ser[0] == TAG_ARRAY);
            assert(input[i] == TAG_ARRAY);
            let d = crate::num::dec_digits(elems.len());
            crate::num::lemma_dec_digits(elems.len());
            let k = d.len() as int;
            assert(ser[1 + k] == CR);
            assert(ser[1 + k + 1] == LF);
            assert forall|j: int|
                #![trigger input[j]]
                i + 1 <= j < i + 1 + k implies !(input[j] == CR && input[j + 1] == LF) by {
                assert(input[j] == ser[j - i]);
                assert(ser[j - i] == d[j - i - 1]);
                assert(is_digit(d[j - i - 1]));
            }
            lemma_crlf_offset_exact(input, i + 1, k as nat);
            assert(input.subrange(i + 1, i + 1 + k as int) =~= d) by {
                assert forall|t: int| 0 <= t < k implies input.subrange(
                    i + 1,
                    i + 1 + k as int,
                )[t] == d[t] by {
                    assert(input[i + (t + 1)] == ser[t + 1]);
                    assert(ser[t + 1] == d[t]);
                }
            }
            crate::num::lemma_parse_uint_dec(elems.len(), u64::MAX as int);
            let j0 = i + 1 + k + 2;
            assert(spec_parse_count(input, i + 1) == Ok::<(nat, int), ProtocolError>(
                (elems.len(), j0),
            ));
            let body = spec_serialize_elems(elems);
            assert(input.subrange(j0, j0 + body.len()) =~= body) by {
                assert forall|t: int| 0 <= t < body.len() implies input.subrange(
                    j0,
                    j0 + body.len(),
                )[t] == body[t] by {
                    assert(input[i + (1 + k + 2 + t)] == ser[1 + k + 2 + t]);
                    assert(ser[1 + k + 2 + t] == body[t]);
                }
            }
            lemma_parse_elems_of_serialize(elems, input, j0);
        },
    }
}

/// As `lemma_parse_of_serialize`, for a run of consecutive values.
pub proof fn lemma_parse_elems_of_serialize(vs: Seq<RespView>, input: Seq<u8>, i: int)
    requires
        wf_elems(vs),
        0 <= i,
        i + spec_serialize_elems(vs).len() <= input.len(),
        input.subrange(i, i + spec_serialize_elems(vs).len()) == spec_serialize_elems(vs),
    ensures
        spec_parse_elems(input, i, vs.len()) == Ok::<(Seq<RespView>, int), ProtocolError>(
            (vs, i + spec_serialize_elems(vs).len()),
        ),
    decreases vs,
{
    if vs.len() == 0 {
        assert(vs =~= Seq::<RespView>::empty());
    } else {
        let ser = spec_serialize_elems(vs);
        lemma_subrange_index(input, i, ser);
        let head = spec_serialize(vs[0]);
        let tail = spec_serialize_elems(vs.drop_first());
        assert(ser == head + tail);
        lemma_serialize_nonempty(vs[0]);
        assert(input.subrange(i, i + head.len()) =~= head) by {
            assert forall|t: int| 0 <= t < head.len() implies input.subrange(
                i,
                i + head.len(),
            )[t] == head[t] by {
                assert(input[i + t] == ser[t]);
                assert(ser[t] == head[t]);
            }
        }
        lemma_parse_of_serialize(vs[0], input, i);
        let j = i + head.len();
        assert(input.subrange(j, j + tail.len()) =~= tail) by {
            assert forall|t: int| 0 <= t < tail.len() implies input.subrange(
                j,
                j + tail.len(),
            )[t] == tail[t] by {
                assert(input[i + (head.len() + t)] == ser[head.len() + t]);
                assert(ser[head.len() + t] == tail[t]);
            }
        }
        lemma_parse_elems_of_serialize(vs.drop_first(), input, j);
        assert(seq![vs[0]] + vs.drop_first() =~= vs);
    }
}

/// Round trip: serializing any well-formed value and parsing the result
/// yields that same value, consuming exactly the serialized bytes.
pub proof fn lemma_round_trip(v: RespView)
    requires
        wf(v),
    ensures
        spec_parse(spec_serialize(v), 0) == Ok::<(RespView, int), ProtocolError>(
            (v, spec_serialize(v).len() as int),
        ),
{
    let s = spec_serialize(v);
    assert(s.subrange(0, s.len() as int) =~= s);
    lemma_parse_of_serialize(v, s, 0);
}

} // verus!
