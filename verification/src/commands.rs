//! The domain-level command model: a closed set of typed commands built
//! from a request tree, and the outbound encoding of the subset a replica
//! sends to its primary.
use vstd::prelude::*;

use vstd::slice::slice_to_vec;

use crate::bytesutil::{ascii_lower, slice_eq, to_ascii_lower};
use crate::num::{
    i64_to_digits, parse_i64_field, parse_u64_field, spec_parse_sint, spec_parse_uint,
    u64_to_digits, dec_digits, dec_sdigits,
};
use crate::resp::{
    lemma_view_elems, lemma_view_elems_push, resp_view, resp_view_elems, spec_serialize, Resp,
    RespView,
};
use crate::resp::parse::{spec_parse, ProtocolError};
use crate::config::parse_u32_field;

verus! {

broadcast use vstd::std_specs::vec::group_vec_axioms;

/// Why a well-formed frame is not a command.
#[derive(Clone, Copy, Debug, PartialEq, Eq, Structural)]
pub enum CommandError {
    /// The top-level value is not an array.
    ExpectedArray,
    /// An element of the request array is not string-typed.
    ExpectedString,
    /// The request array is empty.
    NoCommand,
    /// `echo` without its argument.
    NoArgument,
    /// `set` or `get` without a key.
    NoKey,
    /// `set` without a value.
    NoValue,
    /// `replconf` without a subcommand.
    NoSubcommand,
    /// `replconf listening-port` without the port.
    NoListeningPort,
    /// `replconf listening-port` with a port that is not a `u32`.
    BadListeningPort,
    /// `replconf capa` without the capability value.
    MissingCapability,
    /// A `replconf capa` list interrupted by something other than `capa`.
    ExpectedCapa,
    /// A `replconf` subcommand this server does not know.
    UnknownSubcommand,
    /// `psync` without the replica id.
    NoReplicaId,
    /// `psync` without the offset.
    NoOffset,
    /// `psync` with an offset that is not an `i64`.
    BadOffset,
    /// A command name this server does not know.
    Unsupported,
}

/// A typed command.
#[derive(Debug)]
pub enum Command {
    Ping,
    Echo(Vec<u8>),
    SetValue { key: Vec<u8>, value: Vec<u8>, expiry: Option<u64> },
    Get(Vec<u8>),
    Info(Option<Vec<u8>>),
    ReplConf(ReplConf),
    Psync { replica_id: Vec<u8>, offset: i64 },
}

/// The two `REPLCONF` forms a replica sends during its handshake.
#[derive(Debug)]
pub enum ReplConf {
    ListeningPort(u32),
    Capa(Vec<Vec<u8>>),
}

/// The mathematical shape of a command.
pub enum CommandView {
    Ping,
    Echo(Seq<u8>),
    SetValue { key: Seq<u8>, value: Seq<u8>, expiry: Option<u64> },
    Get(Seq<u8>),
    Info(Option<Seq<u8>>),
    ReplConf(ReplConfView),
    Psync { replica_id: Seq<u8>, offset: i64 },
}

/// The mathematical shape of a `REPLCONF` payload.
pub enum ReplConfView {
    ListeningPort(u32),
    Capa(Seq<Seq<u8>>),
}

impl View for ReplConf {
    type V = ReplConfView;

    open spec fn view(&self) -> ReplConfView {
        match self {
            ReplConf::ListeningPort(p) => ReplConfView::ListeningPort(*p),
            ReplConf::Capa(capas) => ReplConfView::Capa(capas.deep_view()),
        }
    }
}

impl View for Command {
    type V = CommandView;

    open spec fn view(&self) -> CommandView {
        match self {
            Command::Ping => CommandView::Ping,
            Command::Echo(a) => CommandView::Echo(a@),
            Command::SetValue { key, value, expiry } => CommandView::SetValue {
                key: key@,
                value: value@,
                expiry: *expiry,
            },
            Command::Get(k) => CommandView::Get(k@),
            Command::Info(s) => CommandView::Info(
                match s {
                    Some(v) => Some(v@),
                    None => None,
                },
            ),
            Command::ReplConf(rc) => CommandView::ReplConf(rc@),
            Command::Psync { replica_id, offset } => CommandView::Psync {
                replica_id: replica_id@,
                offset: *offset,
            },
        }
    }
}

/// As bytes: the command name `ping`.
pub open spec fn lit_ping() -> Seq<u8> {
    seq![0x70u8, 0x69u8, 0x6eu8, 0x67u8]
}

fn lit_ping_vec() -> (v: Vec<u8>)
    ensures
        v@ == lit_ping(),
{
    let mut v: Vec<u8> = Vec::new();
    v.push(0x70u8);
    v.push(0x69u8);
    v.push(0x6eu8);
    v.push(0x67u8);
    proof {
        assert(v@ =~= lit_ping());
    }
    v
}

/// As bytes: the command name `echo`.
pub open spec fn lit_echo() -> Seq<u8> {
    seq![0x65u8, 0x63u8, 0x68u8, 0x6fu8]
}

fn lit_echo_vec() -> (v: Vec<u8>)
    ensures
        v@ == lit_echo(),
{
    let mut v: Vec<u8> = Vec::new();
    v.push(0x65u8);
    v.push(0x63u8);
    v.push(0x68u8);
    v.push(0x6fu8);
    proof {
        assert(v@ =~= lit_echo());
    }
    v
}

/// As bytes: the command name `set`.
pub open spec fn lit_set() -> Seq<u8> {
    seq![0x73u8, 0x65u8, 0x74u8]
}

fn lit_set_vec() -> (v: Vec<u8>)
    ensures
        v@ == lit_set(),
{
    let mut v: Vec<u8> = Vec::new();
    v.push(0x73u8);
    v.push(0x65u8);
    v.push(0x74u8);
    proof {
        assert(v@ =~= lit_set());
    }
    v
}

/// As bytes: the command name `get`.
pub open spec fn lit_get() -> Seq<u8> {
    seq![0x67u8, 0x65u8, 0x74u8]
}

fn lit_get_vec() -> (v: Vec<u8>)
    ensures
        v@ == lit_get(),
{
    let mut v: Vec<u8> = Vec::new();
    v.push(0x67u8);
    v.push(0x65u8);
    v.push(0x74u8);
    proof {
        assert(v@ =~= lit_get());
    }
    v
}

/// As bytes: the command name `info`.
pub open spec fn lit_info() -> Seq<u8> {
    seq![0x69u8, 0x6eu8, 0x66u8, 0x6fu8]
}

fn lit_info_vec() -> (v: Vec<u8>)
    ensures
        v@ == lit_info(),
{
    let mut v: Vec<u8> = Vec::new();
    v.push(0x69u8);
    v.push(0x6eu8);
    v.push(0x66u8);
    v.push(0x6fu8);
    proof {
        assert(v@ =~= lit_info());
    }
    v
}

/// As bytes: the command name `replconf`.
pub open spec fn lit_replconf() -> Seq<u8> {
    seq![0x72u8, 0x65u8, 0x70u8, 0x6cu8, 0x63u8, 0x6fu8, 0x6eu8, 0x66u8]
}

fn lit_replconf_vec() -> (v: Vec<u8>)
    ensures
        v@ == lit_replconf(),
{
    let mut v: Vec<u8> = Vec::new();
    v.push(0x72u8);
    v.push(0x65u8);
    v.push(0x70u8);
    v.push(0x6cu8);
    v.push(0x63u8);
    v.push(0x6fu8);
    v.push(0x6eu8);
    v.push(0x66u8);
    proof {
        assert(v@ =~= lit_replconf());
    }
    v
}

/// As bytes: the command name `psync`.
pub open spec fn lit_psync() -> Seq<u8> {
    seq![0x70u8, 0x73u8, 0x79u8, 0x6eu8, 0x63u8]
}

fn lit_psync_vec() -> (v: Vec<u8>)
    ensures
        v@ == lit_psync(),
{
    let mut v: Vec<u8> = Vec::new();
    v.push(0x70u8);
    v.push(0x73u8);
    v.push(0x79u8);
    v.push(0x6eu8);
    v.push(0x63u8);
    proof {
        assert(v@ =~= lit_psync());
    }
    v
}

/// As bytes: the `SET` option introducing a time-to-live.
pub open spec fn lit_px() -> Seq<u8> {
    seq![0x70u8, 0x78u8]
}

fn lit_px_vec() -> (v: Vec<u8>)
    ensures
        v@ == lit_px(),
{
    let mut v: Vec<u8> = Vec::new();
    v.push(0x70u8);
    v.push(0x78u8);
    proof {
        assert(v@ =~= lit_px());
    }
    v
}

/// As bytes: the `REPLCONF` subcommand naming the replica's port.
pub open spec fn lit_listening_port() -> Seq<u8> {
    seq![0x6cu8, 0x69u8, 0x73u8, 0x74u8, 0x65u8, 0x6eu8, 0x69u8, 0x6eu8, 0x67u8, 0x2du8, 0x70u8, 0x6fu8, 0x72u8, 0x74u8]
}

fn lit_listening_port_vec() -> (v: Vec<u8>)
    ensures
        v@ == lit_listening_port(),
{
    let mut v: Vec<u8> = Vec::new();
    v.push(0x6cu8);
    v.push(0x69u8);
    v.push(0x73u8);
    v.push(0x74u8);
    v.push(0x65u8);
    v.push(0x6eu8);
    v.push(0x69u8);
    v.push(0x6eu8);
    v.push(0x67u8);
    v.push(0x2du8);
    v.push(0x70u8);
    v.push(0x6fu8);
    v.push(0x72u8);
    v.push(0x74u8);
    proof {
        assert(v@ =~= lit_listening_port());
    }
    v
}

/// As bytes: the `REPLCONF` subcommand naming a capability.
pub open spec fn lit_capa() -> Seq<u8> {
    seq![0x63u8, 0x61u8, 0x70u8, 0x61u8]
}

fn lit_capa_vec() -> (v: Vec<u8>)
    ensures
        v@ == lit_capa(),
{
    let mut v: Vec<u8> = Vec::new();
    v.push(0x63u8);
    v.push(0x61u8);
    v.push(0x70u8);
    v.push(0x61u8);
    proof {
        assert(v@ =~= lit_capa());
    }
    v
}

/// As bytes: the name under which `PING` is sent out (capitalization is cosmetic).
pub open spec fn lit_ping_sent() -> Seq<u8> {
    seq![0x50u8, 0x69u8, 0x6eu8, 0x67u8]
}

fn lit_ping_sent_vec() -> (v: Vec<u8>)
    ensures
        v@ == lit_ping_sent(),
{
    let mut v: Vec<u8> = Vec::new();
    v.push(0x50u8);
    v.push(0x69u8);
    v.push(0x6eu8);
    v.push(0x67u8);
    proof {
        assert(v@ =~= lit_ping_sent());
    }
    v
}

/// As bytes: the name under which `REPLCONF` is sent out (capitalization is cosmetic).
pub open spec fn lit_replconf_sent() -> Seq<u8> {
    seq![0x52u8, 0x65u8, 0x70u8, 0x6cu8, 0x63u8, 0x6fu8, 0x6eu8, 0x66u8]
}

fn lit_replconf_sent_vec() -> (v: Vec<u8>)
    ensures
        v@ == lit_replconf_sent(),
{
    let mut v: Vec<u8> = Vec::new();
    v.push(0x52u8);
    v.push(0x65u8);
    v.push(0x70u8);
    v.push(0x6cu8);
    v.push(0x63u8);
    v.push(0x6fu8);
    v.push(0x6eu8);
    v.push(0x66u8);
    proof {
        assert(v@ =~= lit_replconf_sent());
    }
    v
}

/// As bytes: the name under which `PSYNC` is sent out (capitalization is cosmetic).
pub open spec fn lit_psync_sent() -> Seq<u8> {
    seq![0x50u8, 0x73u8, 0x79u8, 0x6eu8, 0x63u8]
}

fn lit_psync_sent_vec() -> (v: Vec<u8>)
    ensures
        v@ == lit_psync_sent(),
{
    let mut v: Vec<u8> = Vec::new();
    v.push(0x50u8);
    v.push(0x73u8);
    v.push(0x79u8);
    v.push(0x6eu8);
    v.push(0x63u8);
    proof {
        assert(v@ =~= lit_psync_sent());
    }
    v
}


/// The token list of a request: every element must be string-typed.
pub open spec fn spec_tokens(elems: Seq<RespView>) -> Option<Seq<Seq<u8>>>
    decreases elems,
{
    if elems.len() == 0 {
        Some(Seq::empty())
    } else {
        match elems[0] {
            RespView::SimpleString(s) => match spec_tokens(elems.drop_first()) {
                Some(rest) => Some(seq![s] + rest),
                None => None,
            },
            RespView::BulkString(s) => match spec_tokens(elems.drop_first()) {
                Some(rest) => Some(seq![s] + rest),
                None => None,
            },
            _ => None,
        }
    }
}

/// The capability values of a `replconf capa` tail: `capa <value>` pairs
/// from `i` to the end.
pub open spec fn spec_capa_pairs(toks: Seq<Seq<u8>>, i: int) -> Result<Seq<Seq<u8>>, CommandError>
    decreases toks.len() - i,
{
    if i >= toks.len() || i < 0 {
        Ok(Seq::empty())
    } else if ascii_lower(toks[i]) != lit_capa() {
        Err(CommandError::ExpectedCapa)
    } else if i + 1 >= toks.len() {
        Err(CommandError::MissingCapability)
    } else {
        match spec_capa_pairs(toks, i + 2) {
            Ok(rest) => Ok(seq![toks[i + 1]] + rest),
            Err(e) => Err(e),
        }
    }
}

/// The command a token list denotes.  The first token, lower-cased,
/// selects the command; trailing tokens beyond what a command consumes
/// are ignored.
pub open spec fn spec_command_of_tokens(toks: Seq<Seq<u8>>) -> Result<CommandView, CommandError> {
    if toks.len() == 0 {
        Err(CommandError::NoCommand)
    } else {
        let name = ascii_lower(toks[0]);
        if name == lit_ping() {
            Ok(CommandView::Ping)
        } else if name == lit_echo() {
            if toks.len() < 2 {
                Err(CommandError::NoArgument)
            } else {
                Ok(CommandView::Echo(toks[1]))
            }
        } else if name == lit_set() {
            if toks.len() < 2 {
                Err(CommandError::NoKey)
            } else if toks.len() < 3 {
                Err(CommandError::NoValue)
            } else {
                let expiry = if toks.len() >= 5 && ascii_lower(toks[3]) == lit_px() {
                    match spec_parse_uint(toks[4], u64::MAX as int) {
                        Some(t) => Some(t as u64),
                        None => None,
                    }
                } else {
                    None
                };
                Ok(CommandView::SetValue { key: toks[1], value: toks[2], expiry })
            }
        } else if name == lit_get() {
            if toks.len() < 2 {
                Err(CommandError::NoKey)
            } else {
                Ok(CommandView::Get(toks[1]))
            }
        } else if name == lit_info() {
            Ok(CommandView::Info(
                if toks.len() >= 2 {
                    Some(toks[1])
                } else {
                    None
                },
            ))
        } else if name == lit_replconf() {
            if toks.len() < 2 {
                Err(CommandError::NoSubcommand)
            } else {
                let sub = ascii_lower(toks[1]);
                if sub == lit_listening_port() {
                    if toks.len() < 3 {
                        Err(CommandError::NoListeningPort)
                    } else {
                        match spec_parse_uint(toks[2], u32::MAX as int) {
                            Some(p) => Ok(CommandView::ReplConf(ReplConfView::ListeningPort(
                                p as u32,
                            ))),
                            None => Err(CommandError::BadListeningPort),
                        }
                    }
                } else if sub == lit_capa() {
                    if toks.len() < 3 {
                        Err(CommandError::MissingCapability)
                    } else {
                        match spec_capa_pairs(toks, 3) {
                            Ok(rest) => Ok(CommandView::ReplConf(ReplConfView::Capa(
                                seq![toks[2]] + rest,
                            ))),
                            Err(e) => Err(e),
                        }
                    }
                } else {
                    Err(CommandError::UnknownSubcommand)
                }
            }
        } else if name == lit_psync() {
            if toks.len() < 2 {
                Err(CommandError::NoReplicaId)
            } else if toks.len() < 3 {
                Err(CommandError::NoOffset)
            } else {
                match spec_parse_sint(toks[2], i64::MIN as int, i64::MAX as int) {
                    Some(o) => Ok(CommandView::Psync { replica_id: toks[1], offset: o as i64 }),
                    None => Err(CommandError::BadOffset),
                }
            }
        } else {
            Err(CommandError::Unsupported)
        }
    }
}

/// The command a request tree denotes: it must be an array of
/// string-typed elements.
pub open spec fn spec_command_of(v: RespView) -> Result<CommandView, CommandError> {
    match v {
        RespView::Array(elems) => match spec_tokens(elems) {
            Some(toks) => spec_command_of_tokens(toks),
            None => Err(CommandError::ExpectedString),
        },
        _ => Err(CommandError::ExpectedArray),
    }
}

impl Command {
    /// Builds the typed command a request tree denotes.
    #[verifier::loop_isolation(false)]
    pub fn from_resp(req: &Resp) -> (r: Result<Command, CommandError>)
        ensures
            (match r {
                Ok(c) => spec_command_of(req@) == Ok::<CommandView, CommandError>(c@),
                Err(e) => spec_command_of(req@) == Err::<CommandView, CommandError>(e),
            }),
    {
        let elems = match req {
            Resp::Array(elems) => elems,
            _ => {
                return Err(CommandError::ExpectedArray);
            },
        };
        let ghost velems = resp_view_elems(elems@);
        proof {
            lemma_view_elems(elems@);
            assert(velems.skip(0) =~= velems);
        }
        let mut toks: Vec<Vec<u8>> = Vec::new();
        let n = elems.len();
        let mut i: usize = 0;
        while i < n
            invariant
                0 <= i <= n,
                toks.deep_view().len() == i,
                (match spec_tokens(velems.skip(i as int)) {
                    Some(rest) => spec_tokens(velems) == Some(toks.deep_view() + rest),
                    None => spec_tokens(velems) is None,
                }),
            decreases n - i,
        {
            proof {
                assert(velems.skip(i as int)[0] == velems[i as int]);
                assert(velems.skip(i as int).drop_first() =~= velems.skip(i as int + 1));
            }
            let tok = match &elems[i] {
                Resp::SimpleString(s) => slice_to_vec(s.as_slice()),
                Resp::BulkString(s) => slice_to_vec(s.as_slice()),
                _ => {
                    return Err(CommandError::ExpectedString);
                },
            };
            let ghost before = toks.deep_view();
            toks.push(tok);
            proof {
                assert(toks.deep_view() =~~= before.push(tok@));
                match spec_tokens(velems.skip(i as int + 1)) {
                    Some(rest2) => {
                        assert(before + (seq![tok@] + rest2) =~= before.push(tok@) + rest2);
                    },
                    None => {},
                }
            }
            i = i + 1;
        }
        proof {
            assert(velems.skip(n as int) =~= Seq::<RespView>::empty());
            assert(toks.deep_view() + Seq::<Seq<u8>>::empty() =~= toks.deep_view());
        }
        Self::from_tokens(&toks)
    }

    /// Builds the command a token list denotes.
    #[verifier::loop_isolation(false)]
    fn from_tokens(toks: &Vec<Vec<u8>>) -> (r: Result<Command, CommandError>)
        ensures
            (match r {
                Ok(c) => spec_command_of_tokens(toks.deep_view()) == Ok::<
                    CommandView,
                    CommandError,
                >(c@),
                Err(e) => spec_command_of_tokens(toks.deep_view()) == Err::<
                    CommandView,
                    CommandError,
                >(e),
            }),
    {
        let ghost ts = toks.deep_view();
        proof {
            assert forall|k: int| 0 <= k < ts.len() implies ts[k] == toks@[k]@ by {
                assert(ts[k] =~= toks@[k]@);
            }
        }
        if toks.len() == 0 {
            return Err(CommandError::NoCommand);
        }
        let name = to_ascii_lower(toks[0].as_slice());
        if slice_eq(name.as_slice(), lit_ping_vec().as_slice()) {
            Ok(Command::Ping)
        } else if slice_eq(name.as_slice(), lit_echo_vec().as_slice()) {
            if toks.len() < 2 {
                return Err(CommandError::NoArgument);
            }
            Ok(Command::Echo(slice_to_vec(toks[1].as_slice())))
        } else if slice_eq(name.as_slice(), lit_set_vec().as_slice()) {
            if toks.len() < 2 {
                return Err(CommandError::NoKey);
            }
            if toks.len() < 3 {
                return Err(CommandError::NoValue);
            }
            let mut expiry: Option<u64> = None;
            if toks.len() >= 5 {
                let third = to_ascii_lower(toks[3].as_slice());
                if slice_eq(third.as_slice(), lit_px_vec().as_slice()) {
                    let val = &toks[4];
                    match parse_u64_field(val.as_slice(), 0, val.len()) {
                        Some(t) => {
                            proof {
                                assert(val@.subrange(0, val@.len() as int) =~= val@);
                            }
                            expiry = Some(t);
                        },
                        None => {
                            proof {
                                assert(val@.subrange(0, val@.len() as int) =~= val@);
                            }
                        },
                    }
                }
            }
            Ok(Command::SetValue {
                key: slice_to_vec(toks[1].as_slice()),
                value: slice_to_vec(toks[2].as_slice()),
                expiry,
            })
        } else if slice_eq(name.as_slice(), lit_get_vec().as_slice()) {
            if toks.len() < 2 {
                return Err(CommandError::NoKey);
            }
            Ok(Command::Get(slice_to_vec(toks[1].as_slice())))
        } else if slice_eq(name.as_slice(), lit_info_vec().as_slice()) {
            if toks.len() >= 2 {
                Ok(Command::Info(Some(slice_to_vec(toks[1].as_slice()))))
            } else {
                Ok(Command::Info(None))
            }
        } else if slice_eq(name.as_slice(), lit_replconf_vec().as_slice()) {
            if toks.len() < 2 {
                return Err(CommandError::NoSubcommand);
            }
            let sub = to_ascii_lower(toks[1].as_slice());
            if slice_eq(sub.as_slice(), lit_listening_port_vec().as_slice()) {
                if toks.len() < 3 {
                    return Err(CommandError::NoListeningPort);
                }
                let val = &toks[2];
                match parse_u32_field(val.as_slice(), 0, val.len()) {
                    Some(p) => {
                        proof {
                            assert(val@.subrange(0, val@.len() as int) =~= val@);
                        }
                        Ok(Command::ReplConf(ReplConf::ListeningPort(p)))
                    },
                    None => {
                        proof {
                            assert(val@.subrange(0, val@.len() as int) =~= val@);
                        }
                        Err(CommandError::BadListeningPort)
                    },
                }
            } else if slice_eq(sub.as_slice(), lit_capa_vec().as_slice()) {
                if toks.len() < 3 {
                    return Err(CommandError::MissingCapability);
                }
                let mut capas: Vec<Vec<u8>> = Vec::new();
                capas.push(slice_to_vec(toks[2].as_slice()));
                proof {
                    assert(capas.deep_view() =~~= seq![ts[2]]);
                }
                let n = toks.len();
                let mut i: usize = 3;
                while i < n
                    invariant
                        3 <= i <= n,
                        n == ts.len(),
                        capas.deep_view().len() >= 1,
                        capas.deep_view()[0] == ts[2],
                        (match spec_capa_pairs(ts, i as int) {
                            Ok(rest) => spec_capa_pairs(ts, 3) == Ok::<
                                Seq<Seq<u8>>,
                                CommandError,
                            >(capas.deep_view().skip(1) + rest),
                            Err(e) => spec_capa_pairs(ts, 3) == Err::<
                                Seq<Seq<u8>>,
                                CommandError,
                            >(e),
                        }),
                    decreases n - i,
                {
                    let word = to_ascii_lower(toks[i].as_slice());
                    if !slice_eq(word.as_slice(), lit_capa_vec().as_slice()) {
                        return Err(CommandError::ExpectedCapa);
                    }
                    if i + 1 >= n {
                        return Err(CommandError::MissingCapability);
                    }
                    let ghost before = capas.deep_view();
                    capas.push(slice_to_vec(toks[i + 1].as_slice()));
                    proof {
                        assert(capas.deep_view() =~= before.push(ts[i as int + 1]));
                        match spec_capa_pairs(ts, i as int + 2) {
                            Ok(rest2) => {
                                assert(before.skip(1) + (seq![ts[i as int + 1]] + rest2)
                                    =~= capas.deep_view().skip(1) + rest2);
                            },
                            Err(_) => {},
                        }
                    }
                    i = i + 2;
                }
                proof {
                    assert(capas.deep_view().skip(1) + Seq::<Seq<u8>>::empty()
                        =~= capas.deep_view().skip(1));
                    assert(seq![ts[2]] + capas.deep_view().skip(1) =~= capas.deep_view());
                }
                Ok(Command::ReplConf(ReplConf::Capa(capas)))
            } else {
                Err(CommandError::UnknownSubcommand)
            }
        } else if slice_eq(name.as_slice(), lit_psync_vec().as_slice()) {
            if toks.len() < 2 {
                return Err(CommandError::NoReplicaId);
            }
            if toks.len() < 3 {
                return Err(CommandError::NoOffset);
            }
            let val = &toks[2];
            match parse_i64_field(val.as_slice(), 0, val.len()) {
                Some(o) => {
                    proof {
                        assert(val@.subrange(0, val@.len() as int) =~= val@);
                    }
                    Ok(Command::Psync { replica_id: slice_to_vec(toks[1].as_slice()), offset: o })
                },
                None => {
                    proof {
                        assert(val@.subrange(0, val@.len() as int) =~= val@);
                    }
                    Err(CommandError::BadOffset)
                },
            }
        } else {
            Err(CommandError::Unsupported)
        }
    }
}

/// The `capa <value>` token pairs of an outbound capability list.
pub open spec fn spec_capa_request_tokens(capas: Seq<Seq<u8>>) -> Seq<Seq<u8>>
    decreases capas,
{
    if capas.len() == 0 {
        Seq::empty()
    } else {
        seq![lit_capa(), capas[0]] + spec_capa_request_tokens(capas.drop_first())
    }
}

proof fn lemma_capa_request_tokens_push(capas: Seq<Seq<u8>>, c: Seq<u8>)
    ensures
        spec_capa_request_tokens(capas.push(c)) == spec_capa_request_tokens(capas)
            + seq![lit_capa(), c],
    decreases capas,
{
    if capas.len() == 0 {
        assert(capas.push(c)[0] == c);
        assert(capas.push(c).drop_first() =~= Seq::<Seq<u8>>::empty());
        assert(spec_capa_request_tokens(Seq::<Seq<u8>>::empty()) == Seq::<Seq<u8>>::empty());
        assert(spec_capa_request_tokens(capas.push(c)) == seq![lit_capa(), c]
            + Seq::<Seq<u8>>::empty());
        assert(spec_capa_request_tokens(capas.push(c)) =~~= spec_capa_request_tokens(capas)
            + seq![lit_capa(), c]);
    } else {
        assert(capas.push(c)[0] == capas[0]);
        assert(capas.push(c).drop_first() =~= capas.drop_first().push(c));
        lemma_capa_request_tokens_push(capas.drop_first(), c);
        assert(spec_capa_request_tokens(capas.push(c)) == seq![lit_capa(), capas[0]] + (
        spec_capa_request_tokens(capas.drop_first()) + seq![lit_capa(), c]));
        assert(spec_capa_request_tokens(capas.push(c)) =~~= spec_capa_request_tokens(capas)
            + seq![lit_capa(), c]);
    }
}

/// The request tokens a command sends on the wire (replica to primary):
/// only `PING`, `REPLCONF` and `PSYNC` are ever sent.
pub open spec fn spec_request_tokens(c: CommandView) -> Seq<Seq<u8>> {
    match c {
        CommandView::Ping => seq![lit_ping_sent()],
        CommandView::ReplConf(ReplConfView::ListeningPort(p)) => seq![
            lit_replconf_sent(),
            lit_listening_port(),
            dec_digits(p as nat),
        ],
        CommandView::ReplConf(ReplConfView::Capa(capas)) => seq![lit_replconf_sent()]
            + spec_capa_request_tokens(capas),
        CommandView::Psync { replica_id, offset } => seq![
            lit_psync_sent(),
            replica_id,
            dec_sdigits(offset as int),
        ],
        _ => Seq::empty(),
    }
}

/// The given tokens, each as a bulk string value.
pub open spec fn bulk_views(toks: Seq<Seq<u8>>) -> Seq<RespView> {
    toks.map_values(|t: Seq<u8>| RespView::BulkString(t))
}

/// An array of bulk strings holding the given tokens.
pub open spec fn bulk_array_view(toks: Seq<Seq<u8>>) -> RespView {
    RespView::Array(bulk_views(toks))
}

impl Command {
    /// Serializes the command as the array-of-bulk-strings request a
    /// replica writes to its primary.
    #[verifier::loop_isolation(false)]
    pub fn serialize(&self) -> (r: Vec<u8>)
        requires
            (*self matches Command::Ping) || (*self matches Command::ReplConf(_)) || (
            *self matches Command::Psync { .. }),
        ensures
            r@ == spec_serialize(bulk_array_view(spec_request_tokens(self@))),
    {
        let mut parts: Vec<Resp> = Vec::new();
        match self {
            Command::Ping => {
                parts.push(Resp::BulkString(lit_ping_sent_vec()));
            },
            Command::ReplConf(ReplConf::ListeningPort(port)) => {
                parts.push(Resp::BulkString(lit_replconf_sent_vec()));
                parts.push(Resp::BulkString(lit_listening_port_vec()));
                parts.push(Resp::BulkString(u64_to_digits(*port as u64)));
            },
            Command::ReplConf(ReplConf::Capa(capas)) => {
                parts.push(Resp::BulkString(lit_replconf_sent_vec()));
                let n = capas.len();
                let mut i: usize = 0;
                proof {
                    assert(capas.deep_view().take(0) =~= Seq::<Seq<u8>>::empty());
                    assert(spec_capa_request_tokens(Seq::<Seq<u8>>::empty())
                        == Seq::<Seq<u8>>::empty());
                    lemma_view_elems(parts@);
                    assert(resp_view_elems(parts@) =~~= bulk_views(
                        seq![lit_replconf_sent()] + spec_capa_request_tokens(
                            capas.deep_view().take(0),
                        ),
                    ));
                }
                while i < n
                    invariant
                        0 <= i <= n,
                        n == capas@.len(),
                        resp_view_elems(parts@) == bulk_views(
                            seq![lit_replconf_sent()] + spec_capa_request_tokens(
                                capas.deep_view().take(i as int),
                            ),
                        ),
                    decreases n - i,
                {
                    let ghost prefix = capas.deep_view().take(i as int);
                    let ghost before = parts@;
                    parts.push(Resp::BulkString(lit_capa_vec()));
                    parts.push(Resp::BulkString(slice_to_vec(capas[i].as_slice())));
                    proof {
                        assert(capas.deep_view()[i as int] =~= capas@[i as int]@);
                        assert(capas.deep_view().take(i as int + 1) =~= prefix.push(
                            capas.deep_view()[i as int],
                        ));
                        lemma_capa_request_tokens_push(prefix, capas.deep_view()[i as int]);
                        lemma_view_elems(parts@);
                        lemma_view_elems(before);
                        assert(resp_view_elems(parts@) =~~= bulk_views(
                            seq![lit_replconf_sent()] + spec_capa_request_tokens(
                                capas.deep_view().take(i as int + 1),
                            ),
                        ));
                    }
                    i = i + 1;
                }
                proof {
                    assert(capas.deep_view().take(n as int) =~= capas.deep_view());
                }
            },
            Command::Psync { replica_id, offset } => {
                parts.push(Resp::BulkString(lit_psync_sent_vec()));
                parts.push(Resp::BulkString(slice_to_vec(replica_id.as_slice())));
                parts.push(Resp::BulkString(i64_to_digits(*offset)));
            },
            _ => {
                // The precondition admits only the handshake subset.
                proof {
                    assert(false);
                }
            },
        }
        proof {
            lemma_view_elems(parts@);
            assert(resp_view_elems(parts@) =~~= bulk_views(spec_request_tokens(self@)));
        }
        let arr = Resp::Array(parts);
        arr.serialize()
    }
}

/// Why a raw request was rejected: either the frame is malformed, or the
/// frame is sound but is not a command.
#[derive(Clone, Copy, Debug, PartialEq, Eq, Structural)]
pub enum RequestError {
    Protocol(ProtocolError),
    Command(CommandError),
}

/// The command one raw request denotes: the first frame of the input,
/// which must be an array of strings; bytes after the frame are ignored.
pub open spec fn spec_parse_command(input: Seq<u8>) -> Result<CommandView, RequestError> {
    match spec_parse(input, 0) {
        Ok((v, _)) => match spec_command_of(v) {
            Ok(c) => Ok(c),
            Err(e) => Err(RequestError::Command(e)),
        },
        Err(e) => Err(RequestError::Protocol(e)),
    }
}

impl Resp {
    /// Parses one request frame from raw bytes and builds its command.
    pub fn parse_command(input: &[u8]) -> (r: Result<Command, RequestError>)
        ensures
            (match r {
                Ok(c) => spec_parse_command(input@) == Ok::<CommandView, RequestError>(c@),
                Err(e) => spec_parse_command(input@) == Err::<CommandView, RequestError>(e),
            }),
    {
        let mut parser = crate::resp::parse::Parser::new(input);
        match parser.parse() {
            Ok(v) => {
                match Command::from_resp(&v) {
                    Ok(c) => Ok(c),
                    Err(e) => Err(RequestError::Command(e)),
                }
            },
            Err(e) => Err(RequestError::Protocol(e)),
        }
    }
}

} // verus!
