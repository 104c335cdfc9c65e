//! The wire-level value tree and its serialization.
//!
//! A frame is one of: a simple string (`+...\r\n`), a bulk string
//! (`$<len>\r\n<payload>\r\n`), an integer (`:<digits>\r\n`), an array
//! (`*<count>\r\n` followed by the elements), or a raw length-framed
//! payload (`$<len>\r\n<bytes>` with no trailing terminator, used only
//! for snapshot transfer).
pub mod parse;

use vstd::prelude::*;

use crate::num::{dec_digits, dec_sdigits, i64_to_digits, u64_to_digits};
use crate::raw::{bytes_content, bytes_len, bytes_to_vec};

verus! {

broadcast use vstd::std_specs::vec::group_vec_axioms;

/// ASCII carriage return.
pub const CR: u8 = 0x0d;

/// ASCII line feed.
pub const LF: u8 = 0x0a;

/// Tag of a simple string frame, '+'.
pub const TAG_SIMPLE: u8 = 0x2b;

/// Tag of a bulk string frame, '$'.
pub const TAG_BULK: u8 = 0x24;

/// Tag of an integer frame, ':'.
pub const TAG_INT: u8 = 0x3a;

/// Tag of an array frame, '*'.
pub const TAG_ARRAY: u8 = 0x2a;

/// The frame terminator.
pub open spec fn crlf() -> Seq<u8> {
    seq![CR, LF]
}

/// A parsed or to-be-serialized wire value.
#[derive(Debug)]
pub enum Resp {
    SimpleString(Vec<u8>),
    BulkString(Vec<u8>),
    File(bytes::Bytes),
    Int(i64),
    Array(Vec<Resp>),
}

/// The mathematical shape of a wire value.
#[verifier::ext_equal]
pub enum RespView {
    SimpleString(Seq<u8>),
    BulkString(Seq<u8>),
    File(Seq<u8>),
    Int(int),
    Array(Seq<RespView>),
}

pub open spec fn resp_view(r: Resp) -> RespView
    decreases r,
{
    match r {
        Resp::SimpleString(s) => RespView::SimpleString(s@),
        Resp::BulkString(s) => RespView::BulkString(s@),
        Resp::File(b) => RespView::File(bytes_content(b)),
        Resp::Int(n) => RespView::Int(n as int),
        Resp::Array(elems) => RespView::Array(resp_view_elems(elems@)),
    }
}

pub open spec fn resp_view_elems(s: Seq<Resp>) -> Seq<RespView>
    decreases s,
{
    if s.len() == 0 {
        Seq::empty()
    } else {
        seq![resp_view(s[0])] + resp_view_elems(s.drop_first())
    }
}

impl View for Resp {
    type V = RespView;

    open spec fn view(&self) -> RespView {
        resp_view(*self)
    }
}

pub proof fn lemma_view_elems(s: Seq<Resp>)
    ensures
        resp_view_elems(s).len() == s.len(),
        forall|i: int|
            #![trigger resp_view_elems(s)[i]]
            #![trigger s[i]]
            0 <= i < s.len() ==> resp_view_elems(s)[i] == resp_view(s[i]),
    decreases s,
{
    if s.len() > 0 {
        lemma_view_elems(s.drop_first());
        assert forall|i: int| 0 <= i < s.len() implies resp_view_elems(s)[i] == resp_view(
            #[trigger] s[i],
        ) by {
            if i > 0 {
                assert(s.drop_first()[i - 1] == s[i]);
                assert(resp_view_elems(s)[i] == resp_view_elems(s.drop_first())[i - 1]);
            }
        }
    }
}

pub proof fn lemma_view_elems_push(s: Seq<Resp>, v: Resp)
    ensures
        resp_view_elems(s.push(v)) == resp_view_elems(s).push(resp_view(v)),
{
    lemma_view_elems(s.push(v));
    lemma_view_elems(s);
    assert forall|i: int| 0 <= i < resp_view_elems(s.push(v)).len() implies resp_view_elems(
        s.push(v),
    )[i] == resp_view_elems(s).push(resp_view(v))[i] by {
        assert(resp_view_elems(s.push(v))[i] == resp_view(s.push(v)[i]));
        if i < s.len() {
            assert(s.push(v)[i] == s[i]);
            assert(resp_view_elems(s)[i] == resp_view(s[i]));
        } else {
            assert(s.push(v)[i] == v);
        }
    }
    assert(resp_view_elems(s.push(v)) =~= resp_view_elems(s).push(resp_view(v)));
}

/// The sequence contains the frame terminator as literal payload.
pub open spec fn has_crlf(s: Seq<u8>) -> bool {
    exists|i: int| #![trigger s[i]] 0 <= i && i + 1 < s.len() && s[i] == CR && s[i + 1] == LF
}

/// The bytes of a serialized value.
pub open spec fn spec_serialize(v: RespView) -> Seq<u8>
    decreases v,
{
    match v {
        RespView::SimpleString(s) => seq![TAG_SIMPLE] + s + crlf(),
        RespView::BulkString(s) => seq![TAG_BULK] + dec_digits(s.len()) + crlf() + s + crlf(),
        RespView::File(b) => seq![TAG_BULK] + dec_digits(b.len()) + crlf() + b,
        RespView::Int(n) => seq![TAG_INT] + dec_sdigits(n) + crlf(),
        RespView::Array(elems) => seq![TAG_ARRAY] + dec_digits(elems.len()) + crlf()
            + spec_serialize_elems(elems),
    }
}

/// The concatenation of the serializations of a sequence of values.
pub open spec fn spec_serialize_elems(elems: Seq<RespView>) -> Seq<u8>
    decreases elems,
{
    if elems.len() == 0 {
        Seq::empty()
    } else {
        spec_serialize(elems[0]) + spec_serialize_elems(elems.drop_first())
    }
}

pub proof fn lemma_serialize_elems_push(elems: Seq<RespView>, v: RespView)
    ensures
        spec_serialize_elems(elems.push(v)) == spec_serialize_elems(elems) + spec_serialize(v),
    decreases elems,
{
    if elems.len() == 0 {
        assert(elems.push(v)[0] == v);
        assert(elems.push(v).drop_first() =~= Seq::<RespView>::empty());
        assert(spec_serialize_elems(elems.push(v)) == spec_serialize(v) + spec_serialize_elems(
            elems.push(v).drop_first(),
        ));
        assert(spec_serialize_elems(Seq::<RespView>::empty()) == Seq::<u8>::empty());
        assert(spec_serialize(v) + Seq::<u8>::empty() =~= Seq::<u8>::empty() + spec_serialize(v));
    } else {
        assert(elems.push(v).drop_first() =~= elems.drop_first().push(v));
        assert(elems.push(v)[0] == elems[0]);
        lemma_serialize_elems_push(elems.drop_first(), v);
        assert(spec_serialize_elems(elems.push(v)) == spec_serialize(elems[0]) + (
        spec_serialize_elems(elems.drop_first()) + spec_serialize(v)));
        assert(spec_serialize(elems[0]) + (spec_serialize_elems(elems.drop_first())
            + spec_serialize(v)) =~= (spec_serialize(elems[0]) + spec_serialize_elems(
            elems.drop_first(),
        )) + spec_serialize(v));
    }
}

/// A value the serializer can emit and the parser will read back: raw
/// payloads are write-only, a simple string must not contain the frame
/// terminator, and every length must be expressible on the wire.
pub open spec fn wf(v: RespView) -> bool
    decreases v,
{
    match v {
        RespView::SimpleString(s) => !has_crlf(s) && s.len() <= u64::MAX,
        RespView::BulkString(s) => s.len() <= u64::MAX,
        RespView::File(_) => false,
        RespView::Int(n) => i64::MIN <= n <= i64::MAX,
        RespView::Array(elems) => elems.len() <= u64::MAX && wf_elems(elems),
    }
}

pub open spec fn wf_elems(elems: Seq<RespView>) -> bool
    decreases elems,
{
    if elems.len() == 0 {
        true
    } else {
        wf(elems[0]) && wf_elems(elems.drop_first())
    }
}

impl Resp {
    /// The payload of a string-typed value; absent for any other shape.
    pub fn into_string(self) -> (r: Option<Vec<u8>>)
        ensures
            (match self@ {
                RespView::SimpleString(s) => r matches Some(v) && v@ == s,
                RespView::BulkString(s) => r matches Some(v) && v@ == s,
                _ => r is None,
            }),
    {
        match self {
            Resp::SimpleString(s) => Some(s),
            Resp::BulkString(s) => Some(s),
            _ => None,
        }
    }

    /// Serializes the value into wire bytes.
    #[verifier::loop_isolation(false)]
    pub fn serialize(&self) -> (r: Vec<u8>)
        ensures
            r@ == spec_serialize(self@),
        decreases *self,
    {
        match self {
            Resp::SimpleString(s) => {
                let mut out: Vec<u8> = Vec::new();
                out.push(TAG_SIMPLE);
                out.extend_from_slice(s.as_slice());
                out.push(CR);
                out.push(LF);
                proof {
                    assert(out@ =~= spec_serialize(self@));
                }
                out
            },
            Resp::BulkString(s) => {
                let mut out: Vec<u8> = Vec::new();
                out.push(TAG_BULK);
                let mut len_digits = u64_to_digits(s.len() as u64);
                out.append(&mut len_digits);
                out.push(CR);
                out.push(LF);
                out.extend_from_slice(s.as_slice());
                out.push(CR);
                out.push(LF);
                proof {
                    assert(out@ =~= spec_serialize(self@));
                }
                out
            },
            Resp::File(b) => {
                let mut out: Vec<u8> = Vec::new();
                out.push(TAG_BULK);
                let len = bytes_len(b);
                let mut len_digits = u64_to_digits(len as u64);
                out.append(&mut len_digits);
                out.push(CR);
                out.push(LF);
                let mut payload = bytes_to_vec(b);
                out.append(&mut payload);
                proof {
                    assert(out@ =~= spec_serialize(self@));
                }
                out
            },
            Resp::Int(n) => {
                let mut out: Vec<u8> = Vec::new();
                out.push(TAG_INT);
                let mut digits = i64_to_digits(*n);
                out.append(&mut digits);
                out.push(CR);
                out.push(LF);
                proof {
                    assert(out@ =~= spec_serialize(self@));
                }
                out
            },
            Resp::Array(elems) => {
                let ghost views = resp_view_elems(elems@);
                proof {
                    lemma_view_elems(elems@);
                }
                let mut out: Vec<u8> = Vec::new();
                out.push(TAG_ARRAY);
                let mut len_digits = u64_to_digits(elems.len() as u64);
                out.append(&mut len_digits);
                out.push(CR);
                out.push(LF);
                let ghost header = out@;
                proof {
                    assert(views.subrange(0, 0) =~= Seq::<RespView>::empty());
                    assert(out@ =~= header + spec_serialize_elems(views.subrange(0, 0)));
                }
                let n = elems.len();
                let mut i: usize = 0;
                while i < n
                    invariant
                        n == elems.len(),
                        0 <= i <= n,
                        views == resp_view_elems(elems@),
                        views.len() == elems@.len(),
                        forall|j: int|
                            0 <= j < elems@.len() ==> views[j] == resp_view(#[trigger] elems@[j]),
                        header == seq![TAG_ARRAY] + dec_digits(elems@.len() as nat) + crlf(),
                        out@ == header + spec_serialize_elems(views.subrange(0, i as int)),
                    decreases n - i,
                {
                    let mut piece = elems[i].serialize();
                    out.append(&mut piece);
                    proof {
                        lemma_serialize_elems_push(views.subrange(0, i as int), views[i as int]);
                        assert(views.subrange(0, i + 1) =~= views.subrange(0, i as int).push(
                            views[i as int],
                        ));
                    }
                    i = i + 1;
                }
                proof {
                    assert(views.subrange(0, n as int) =~= views);
                    assert(out@ =~= spec_serialize(self@));
                }
                out
            },
        }
    }
}

} // verus!
