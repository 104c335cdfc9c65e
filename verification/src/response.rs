//! Typed responses and their byte-exact wire encodings.
//!
//! `Sequence` serializes as the plain concatenation of its members with no
//! extra framing: the protocol's one deliberate special case, used when a
//! resynchronization line is followed back-to-back by a raw snapshot.
use vstd::prelude::*;

use crate::raw::{bytes_content, bytes_len, bytes_to_vec};
use crate::resp::{spec_serialize, Resp, RespView, CR, LF, TAG_BULK};
use crate::num::u64_to_digits;

verus! {

broadcast use vstd::std_specs::vec::group_vec_axioms;

/// A typed response to one command.
pub enum Response {
    OK,
    Pong,
    Null,
    SimpleString(Vec<u8>),
    BulkString(Vec<u8>),
    File(bytes::Bytes),
    Sequence(Vec<Response>),
}

/// The mathematical shape of a response.
#[verifier::ext_equal]
pub enum ResponseView {
    OK,
    Pong,
    Null,
    SimpleString(Seq<u8>),
    BulkString(Seq<u8>),
    File(Seq<u8>),
    Sequence(Seq<ResponseView>),
}

pub open spec fn response_view(r: Response) -> ResponseView
    decreases r,
{
    match r {
        Response::OK => ResponseView::OK,
        Response::Pong => ResponseView::Pong,
        Response::Null => ResponseView::Null,
        Response::SimpleString(s) => ResponseView::SimpleString(s@),
        Response::BulkString(s) => ResponseView::BulkString(s@),
        Response::File(b) => ResponseView::File(bytes_content(b)),
        Response::Sequence(rs) => ResponseView::Sequence(response_view_elems(rs@)),
    }
}

pub open spec fn response_view_elems(s: Seq<Response>) -> Seq<ResponseView>
    decreases s,
{
    if s.len() == 0 {
        Seq::empty()
    } else {
        seq![response_view(s[0])] + response_view_elems(s.drop_first())
    }
}

impl View for Response {
    type V = ResponseView;

    open spec fn view(&self) -> ResponseView {
        response_view(*self)
    }
}

pub proof fn lemma_response_view_elems(s: Seq<Response>)
    ensures
        response_view_elems(s).len() == s.len(),
        forall|i: int|
            #![trigger response_view_elems(s)[i]]
            #![trigger s[i]]
            0 <= i < s.len() ==> response_view_elems(s)[i] == response_view(s[i]),
    decreases s,
{
    if s.len() > 0 {
        lemma_response_view_elems(s.drop_first());
        assert forall|i: int| 0 <= i < s.len() implies response_view_elems(s)[i]
            == response_view(#[trigger] s[i]) by {
            if i > 0 {
                assert(s.drop_first()[i - 1] == s[i]);
                assert(response_view_elems(s)[i] == response_view_elems(s.drop_first())[i - 1]);
            }
        }
    }
}

/// As bytes: the reply `OK`.
pub open spec fn lit_ok() -> Seq<u8> {
    seq![0x4fu8, 0x4bu8]
}

/// As bytes: the reply `PONG`.
pub open spec fn lit_pong() -> Seq<u8> {
    seq![0x50u8, 0x4fu8, 0x4eu8, 0x47u8]
}

fn lit_ok_vec() -> (v: Vec<u8>)
    ensures
        v@ == lit_ok(),
{
    let mut v: Vec<u8> = Vec::new();
    v.push(0x4fu8);
    v.push(0x4bu8);
    proof {
        assert(v@ =~= lit_ok());
    }
    v
}

fn lit_pong_vec() -> (v: Vec<u8>)
    ensures
        v@ == lit_pong(),
{
    let mut v: Vec<u8> = Vec::new();
    v.push(0x50u8);
    v.push(0x4fu8);
    v.push(0x4eu8);
    v.push(0x47u8);
    proof {
        assert(v@ =~= lit_pong());
    }
    v
}

/// The static placeholder snapshot: an empty persisted dataset, not a
/// computed snapshot of live store contents.
pub open spec fn spec_empty_rdb() -> Seq<u8> {
    seq![
        0x52u8, 0x45u8, 0x44u8, 0x49u8, 0x53u8, 0x30u8, 0x30u8, 0x31u8, 0x31u8, 0xfau8,
        0x09u8, 0x72u8, 0x65u8, 0x64u8, 0x69u8, 0x73u8, 0x2du8, 0x76u8, 0x65u8, 0x72u8,
        0x05u8, 0x37u8, 0x2eu8, 0x32u8, 0x2eu8, 0x30u8, 0xfau8, 0x0au8, 0x72u8, 0x65u8,
        0x64u8, 0x69u8, 0x73u8, 0x2du8, 0x62u8, 0x69u8, 0x74u8, 0x73u8, 0xc0u8, 0x40u8,
        0xfau8, 0x05u8, 0x63u8, 0x74u8, 0x69u8, 0x6du8, 0x65u8, 0xc2u8, 0x6du8, 0x08u8,
        0xbcu8, 0x65u8, 0xfau8, 0x08u8, 0x75u8, 0x73u8, 0x65u8, 0x64u8, 0x2du8, 0x6du8,
        0x65u8, 0x6du8, 0xc2u8, 0xb0u8, 0xc4u8, 0x10u8, 0x00u8, 0xfau8, 0x08u8, 0x61u8,
        0x6fu8, 0x66u8, 0x2du8, 0x62u8, 0x61u8, 0x73u8, 0x65u8, 0xc0u8, 0x00u8, 0xffu8,
        0xf0u8, 0x6eu8, 0x3bu8, 0xfeu8, 0xc0u8, 0xffu8, 0x5au8, 0xa2u8
    ]
}

/// The static placeholder snapshot as a fresh byte string.
#[verifier::rlimit(50)]
pub fn empty_rdb() -> (r: Vec<u8>)
    ensures
        r@ == spec_empty_rdb(),
{
    let mut v: Vec<u8> = Vec::new();
    v.push(0x52u8);
    v.push(0x45u8);
    v.push(0x44u8);
    v.push(0x49u8);
    v.push(0x53u8);
    v.push(0x30u8);
    v.push(0x30u8);
    v.push(0x31u8);
    v.push(0x31u8);
    v.push(0xfau8);
    v.push(0x09u8);
    v.push(0x72u8);
    v.push(0x65u8);
    v.push(0x64u8);
    v.push(0x69u8);
    v.push(0x73u8);
    v.push(0x2du8);
    v.push(0x76u8);
    v.push(0x65u8);
    v.push(0x72u8);
    v.push(0x05u8);
    v.push(0x37u8);
    v.push(0x2eu8);
    v.push(0x32u8);
    v.push(0x2eu8);
    v.push(0x30u8);
    v.push(0xfau8);
    v.push(0x0au8);
    v.push(0x72u8);
    v.push(0x65u8);
    v.push(0x64u8);
    v.push(0x69u8);
    v.push(0x73u8);
    v.push(0x2du8);
    v.push(0x62u8);
    v.push(0x69u8);
    v.push(0x74u8);
    v.push(0x73u8);
    v.push(0xc0u8);
    v.push(0x40u8);
    v.push(0xfau8);
    v.push(0x05u8);
    v.push(0x63u8);
    v.push(0x74u8);
    v.push(0x69u8);
    v.push(0x6du8);
    v.push(0x65u8);
    v.push(0xc2u8);
    v.push(0x6du8);
    v.push(0x08u8);
    v.push(0xbcu8);
    v.push(0x65u8);
    v.push(0xfau8);
    v.push(0x08u8);
    v.push(0x75u8);
    v.push(0x73u8);
    v.push(0x65u8);
    v.push(0x64u8);
    v.push(0x2du8);
    v.push(0x6du8);
    v.push(0x65u8);
    v.push(0x6du8);
    v.push(0xc2u8);
    v.push(0xb0u8);
    v.push(0xc4u8);
    v.push(0x10u8);
    v.push(0x00u8);
    v.push(0xfau8);
    v.push(0x08u8);
    v.push(0x61u8);
    v.push(0x6fu8);
    v.push(0x66u8);
    v.push(0x2du8);
    v.push(0x62u8);
    v.push(0x61u8);
    v.push(0x73u8);
    v.push(0x65u8);
    v.push(0xc0u8);
    v.push(0x00u8);
    v.push(0xffu8);
    v.push(0xf0u8);
    v.push(0x6eu8);
    v.push(0x3bu8);
    v.push(0xfeu8);
    v.push(0xc0u8);
    v.push(0xffu8);
    v.push(0x5au8);
    v.push(0xa2u8);
    proof {
        assert(v@ =~= spec_empty_rdb());
    }
    v
}

/// The absent-value reply: a bulk string of declared length -1.
pub open spec fn spec_null_bytes() -> Seq<u8> {
    seq![TAG_BULK, 0x2du8, 0x31u8, CR, LF]
}

/// The bytes a response puts on the wire.
pub open spec fn spec_response_bytes(v: ResponseView) -> Seq<u8>
    decreases v,
{
    match v {
        ResponseView::OK => spec_serialize(RespView::SimpleString(lit_ok())),
        ResponseView::Pong => spec_serialize(RespView::SimpleString(lit_pong())),
        ResponseView::Null => spec_null_bytes(),
        ResponseView::SimpleString(s) => spec_serialize(RespView::SimpleString(s)),
        ResponseView::BulkString(s) => spec_serialize(RespView::BulkString(s)),
        ResponseView::File(b) => spec_serialize(RespView::File(b)),
        ResponseView::Sequence(rs) => spec_response_bytes_elems(rs),
    }
}

/// The concatenation of the serializations of consecutive responses.
pub open spec fn spec_response_bytes_elems(rs: Seq<ResponseView>) -> Seq<u8>
    decreases rs,
{
    if rs.len() == 0 {
        Seq::empty()
    } else {
        spec_response_bytes(rs[0]) + spec_response_bytes_elems(rs.drop_first())
    }
}

pub proof fn lemma_response_bytes_elems_push(rs: Seq<ResponseView>, v: ResponseView)
    ensures
        spec_response_bytes_elems(rs.push(v)) == spec_response_bytes_elems(rs)
            + spec_response_bytes(v),
    decreases rs,
{
    if rs.len() == 0 {
        assert(rs.push(v)[0] == v);
        assert(rs.push(v).drop_first() =~= Seq::<ResponseView>::empty());
        assert(spec_response_bytes_elems(rs.push(v)) == spec_response_bytes(v)
            + spec_response_bytes_elems(rs.push(v).drop_first()));
        assert(spec_response_bytes_elems(Seq::<ResponseView>::empty()) == Seq::<u8>::empty());
        assert(spec_response_bytes(v) + Seq::<u8>::empty() =~= Seq::<u8>::empty()
            + spec_response_bytes(v));
    } else {
        assert(rs.push(v).drop_first() =~= rs.drop_first().push(v));
        assert(rs.push(v)[0] == rs[0]);
        lemma_response_bytes_elems_push(rs.drop_first(), v);
        assert(spec_response_bytes_elems(rs.push(v)) == spec_response_bytes(rs[0]) + (
        spec_response_bytes_elems(rs.drop_first()) + spec_response_bytes(v)));
        assert(spec_response_bytes(rs[0]) + (spec_response_bytes_elems(rs.drop_first())
            + spec_response_bytes(v)) =~= (spec_response_bytes(rs[0])
            + spec_response_bytes_elems(rs.drop_first())) + spec_response_bytes(v));
    }
}

impl Response {
    /// Serializes the response into wire bytes.
    #[verifier::loop_isolation(false)]
    pub fn serialize(&self) -> (r: Vec<u8>)
        ensures
            r@ == spec_response_bytes(self@),
        decreases *self,
    {
        match self {
            Response::OK => {
                let v = Resp::SimpleString(lit_ok_vec());
                v.serialize()
            },
            Response::Pong => {
                let v = Resp::SimpleString(lit_pong_vec());
                v.serialize()
            },
            Response::Null => {
                let mut out: Vec<u8> = Vec::new();
                out.push(TAG_BULK);
                out.push(0x2du8);
                out.push(0x31u8);
                out.push(CR);
                out.push(LF);
                proof {
                    assert(out@ =~= spec_null_bytes());
                }
                out
            },
            Response::SimpleString(s) => {
                let v = Resp::SimpleString(vstd::slice::slice_to_vec(s.as_slice()));
                v.serialize()
            },
            Response::BulkString(s) => {
                let v = Resp::BulkString(vstd::slice::slice_to_vec(s.as_slice()));
                v.serialize()
            },
            Response::File(b) => {
                let mut out: Vec<u8> = Vec::new();
                out.push(TAG_BULK);
                let len = bytes_len(b);
                let mut len_digits = u64_to_digits(len as u64);
                out.append(&mut len_digits);
                out.push(CR);
                out.push(LF);
                let mut payload = bytes_to_vec(b);
                out.append(&mut payload);
                proof {
                    assert(out@ =~= spec_serialize(RespView::File(bytes_content(*b))));
                }
                out
            },
            Response::Sequence(rs) => {
                let ghost views = response_view_elems(rs@);
                proof {
                    lemma_response_view_elems(rs@);
                    assert(views.subrange(0, 0) =~= Seq::<ResponseView>::empty());
                }
                let mut out: Vec<u8> = Vec::new();
                let n = rs.len();
                let mut i: usize = 0;
                while i < n
                    invariant
                        0 <= i <= n,
                        out@ == spec_response_bytes_elems(views.subrange(0, i as int)),
                    decreases n - i,
                {
                    let mut piece = rs[i].serialize();
                    out.append(&mut piece);
                    proof {
                        lemma_response_bytes_elems_push(
                            views.subrange(0, i as int),
                            views[i as int],
                        );
                        assert(views.subrange(0, i + 1) =~= views.subrange(0, i as int).push(
                            views[i as int],
                        ));
                    }
                    i = i + 1;
                }
                proof {
                    assert(views.subrange(0, n as int) =~= views);
                }
                out
            },
        }
    }
}

} // verus!
