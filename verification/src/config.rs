//! The startup configuration: a listening port and, for a replica, the
//! primary it bootstraps from.  Constructed once from the argument list,
//! read-only afterwards.
use vstd::prelude::*;

use crate::num::{parse_u64_field, spec_parse_uint};
use crate::bytesutil::slice_eq;

verus! {

/// Why an argument list was rejected.
#[derive(Clone, Copy, Debug, PartialEq, Eq, Structural)]
pub enum ConfigError {
    /// A flag stands last, without the value it needs.
    MissingValue,
    /// A port field is not a decimal number a `u32` holds.
    BadPort,
    /// A flag this server does not know.
    UnknownArgument,
}

/// Where a primary listens.
#[derive(Debug)]
pub struct HostAddr {
    pub host: Vec<u8>,
    pub port: u32,
}

/// The mathematical content of a host address.
pub struct HostAddrView {
    pub host: Seq<u8>,
    pub port: u32,
}

impl View for HostAddr {
    type V = HostAddrView;

    open spec fn view(&self) -> HostAddrView {
        HostAddrView { host: self.host@, port: self.port }
    }
}

/// The process-wide configuration: fixed at startup, never mutated.
#[derive(Debug)]
pub struct Config {
    pub port: u32,
    pub master: Option<HostAddr>,
    pub master_replid: Vec<u8>,
    pub master_repl_offset: i64,
}

/// The mathematical content of a configuration.
pub struct ConfigView {
    pub port: u32,
    pub master: Option<HostAddrView>,
    pub master_replid: Seq<u8>,
    pub master_repl_offset: i64,
}

impl View for Config {
    type V = ConfigView;

    open spec fn view(&self) -> ConfigView {
        ConfigView {
            port: self.port,
            master: match self.master {
                Some(ref h) => Some(h@),
                None => None,
            },
            master_replid: self.master_replid@,
            master_repl_offset: self.master_repl_offset,
        }
    }
}

/// The flag introducing the listening port.
pub open spec fn lit_port_flag() -> Seq<u8> {
    seq![0x2du8, 0x2du8, 0x70u8, 0x6fu8, 0x72u8, 0x74u8]
}

/// The flag naming the primary this node replicates.
pub open spec fn lit_replicaof_flag() -> Seq<u8> {
    seq![0x2du8, 0x2du8, 0x72u8, 0x65u8, 0x70u8, 0x6cu8, 0x69u8, 0x63u8, 0x61u8, 0x6fu8, 0x66u8]
}

/// The node's replication id: a fixed forty-character opaque identifier,
/// stable across the process lifetime.
pub open spec fn spec_replid() -> Seq<u8> {
    seq![0x38u8, 0x33u8, 0x37u8, 0x31u8, 0x62u8, 0x34u8, 0x66u8, 0x62u8, 0x31u8, 0x31u8, 0x35u8, 0x35u8, 0x62u8, 0x37u8, 0x31u8, 0x66u8, 0x34u8, 0x61u8, 0x30u8, 0x34u8, 0x64u8, 0x33u8, 0x65u8, 0x31u8, 0x62u8, 0x63u8, 0x33u8, 0x65u8, 0x31u8, 0x38u8, 0x63u8, 0x34u8, 0x61u8, 0x39u8, 0x39u8, 0x30u8, 0x61u8, 0x65u8, 0x65u8, 0x62u8]
}

/// What an argument list denotes, starting from the defaults given:
/// `--port <p>` sets the listening port, `--replicaof <host> <port>` names
/// the primary; anything else is rejected.
pub open spec fn spec_parse_args(
    args: Seq<Seq<u8>>,
    port: u32,
    master: Option<HostAddrView>,
) -> Result<(u32, Option<HostAddrView>), ConfigError>
    decreases args.len(),
{
    if args.len() == 0 {
        Ok((port, master))
    } else if args[0] == lit_port_flag() {
        if args.len() < 2 {
            Err(ConfigError::MissingValue)
        } else {
            match spec_parse_uint(args[1], u32::MAX as int) {
                Some(p) => spec_parse_args(args.skip(2), p as u32, master),
                None => Err(ConfigError::BadPort),
            }
        }
    } else if args[0] == lit_replicaof_flag() {
        if args.len() < 3 {
            Err(ConfigError::MissingValue)
        } else {
            match spec_parse_uint(args[2], u32::MAX as int) {
                Some(p) => spec_parse_args(
                    args.skip(3),
                    port,
                    Some(HostAddrView { host: args[1], port: p as u32 }),
                ),
                None => Err(ConfigError::BadPort),
            }
        }
    } else {
        Err(ConfigError::UnknownArgument)
    }
}

/// Reads an unsigned decimal field that must fit a `u32`.
pub fn parse_u32_field(s: &[u8], start: usize, end: usize) -> (r: Option<u32>)
    requires
        start <= end <= s@.len(),
    ensures
        (match r {
            Some(v) => spec_parse_uint(s@.subrange(start as int, end as int), u32::MAX as int)
                == Some(v as int),
            None => spec_parse_uint(s@.subrange(start as int, end as int), u32::MAX as int)
                is None,
        }),
{
    match parse_u64_field(s, start, end) {
        Some(v) => {
            if v <= u32::MAX as u64 {
                Some(v as u32)
            } else {
                None
            }
        },
        None => None,
    }
}

/// The fixed replication id as a fresh byte string.
pub fn replid_value() -> (r: Vec<u8>)
    ensures
        r@ == spec_replid(),
        r@.len() == 40,
{
    let mut v: Vec<u8> = Vec::new();
        v.push(0x38u8);
        v.push(0x33u8);
        v.push(0x37u8);
        v.push(0x31u8);
        v.push(0x62u8);
        v.push(0x34u8);
        v.push(0x66u8);
        v.push(0x62u8);
        v.push(0x31u8);
        v.push(0x31u8);
        v.push(0x35u8);
        v.push(0x35u8);
        v.push(0x62u8);
        v.push(0x37u8);
        v.push(0x31u8);
        v.push(0x66u8);
        v.push(0x34u8);
        v.push(0x61u8);
        v.push(0x30u8);
        v.push(0x34u8);
        v.push(0x64u8);
        v.push(0x33u8);
        v.push(0x65u8);
        v.push(0x31u8);
        v.push(0x62u8);
        v.push(0x63u8);
        v.push(0x33u8);
        v.push(0x65u8);
        v.push(0x31u8);
        v.push(0x38u8);
        v.push(0x63u8);
        v.push(0x34u8);
        v.push(0x61u8);
        v.push(0x39u8);
        v.push(0x39u8);
        v.push(0x30u8);
        v.push(0x61u8);
        v.push(0x65u8);
        v.push(0x65u8);
        v.push(0x62u8);
    proof {
        assert(v@ =~= spec_replid());
    }
    v
}

/// The flag `--port` as a byte string.
fn port_flag_value() -> (r: Vec<u8>)
    ensures
        r@ == lit_port_flag(),
{
    let mut v: Vec<u8> = Vec::new();
    v.push(0x2du8);
    v.push(0x2du8);
    v.push(0x70u8);
    v.push(0x6fu8);
    v.push(0x72u8);
    v.push(0x74u8);
    proof {
        assert(v@ =~= lit_port_flag());
    }
    v
}

/// The flag `--replicaof` as a byte string.
fn replicaof_flag_value() -> (r: Vec<u8>)
    ensures
        r@ == lit_replicaof_flag(),
{
    let mut v: Vec<u8> = Vec::new();
    v.push(0x2du8);
    v.push(0x2du8);
    v.push(0x72u8);
    v.push(0x65u8);
    v.push(0x70u8);
    v.push(0x6cu8);
    v.push(0x69u8);
    v.push(0x63u8);
    v.push(0x61u8);
    v.push(0x6fu8);
    v.push(0x66u8);
    proof {
        assert(v@ =~= lit_replicaof_flag());
    }
    v
}

impl Config {
    /// Builds the configuration an argument list denotes (the program
    /// name already stripped): port 6379 unless `--port` says otherwise,
    /// no primary unless `--replicaof` names one, and the fixed
    /// replication id at offset zero.
    #[verifier::loop_isolation(false)]
    pub fn new(args: &Vec<Vec<u8>>) -> (r: Result<Config, ConfigError>)
        ensures
            (match r {
                Ok(c) => spec_parse_args(args.deep_view(), 6379u32, None) == Ok::<
                    (u32, Option<HostAddrView>),
                    ConfigError,
                >((c@.port, c@.master)) && c@.master_replid == spec_replid()
                    && c@.master_repl_offset == 0,
                Err(e) => spec_parse_args(args.deep_view(), 6379u32, None) == Err::<
                    (u32, Option<HostAddrView>),
                    ConfigError,
                >(e),
            }),
    {
        let ghost all = args.deep_view();
        let port_flag = port_flag_value();
        let replicaof_flag = replicaof_flag_value();
        let mut port: u32 = 6379;
        let mut master: Option<HostAddr> = None;
        let n = args.len();
        let mut i: usize = 0;
        proof {
            assert(all.skip(0) =~= all);
        }
        while i < n
            invariant
                n == args@.len(),
                all == args.deep_view(),
                all.len() == n,
                0 <= i <= n,
                spec_parse_args(all, 6379u32, None) == spec_parse_args(
                    all.skip(i as int),
                    port,
                    match master {
                        Some(ref h) => Some(h@),
                        None => None,
                    },
                ),
            decreases n - i,
        {
            proof {
                assert(all[i as int] =~= args@[i as int]@);
                assert(all.skip(i as int)[0] == all[i as int]);
            }
            let arg = &args[i];
            if slice_eq(arg.as_slice(), port_flag.as_slice()) {
                if i + 1 >= n {
                    return Err(ConfigError::MissingValue);
                }
                proof {
                    assert(all.skip(i as int)[1] == all[i as int + 1]);
                    assert(all[i as int + 1] =~= args@[i as int + 1]@);
                }
                let val = &args[i + 1];
                match parse_u32_field(val.as_slice(), 0, val.len()) {
                    Some(p) => {
                        proof {
                            assert(val@.subrange(0, val@.len() as int) =~= val@);
                            assert(all.skip(i as int).skip(2) =~= all.skip(i as int + 2));
                        }
                        port = p;
                        i = i + 2;
                    },
                    None => {
                        proof {
                            assert(val@.subrange(0, val@.len() as int) =~= val@);
                        }
                        return Err(ConfigError::BadPort);
                    },
                }
            } else if slice_eq(arg.as_slice(), replicaof_flag.as_slice()) {
                if n - i < 3 {
                    return Err(ConfigError::MissingValue);
                }
                proof {
                    assert(all.skip(i as int)[1] == all[i as int + 1]);
                    assert(all[i as int + 1] =~= args@[i as int + 1]@);
                    assert(all.skip(i as int)[2] == all[i as int + 2]);
                    assert(all[i as int + 2] =~= args@[i as int + 2]@);
                }
                let host = vstd::slice::slice_to_vec(args[i + 1].as_slice());
                let val = &args[i + 2];
                match parse_u32_field(val.as_slice(), 0, val.len()) {
                    Some(p) => {
                        proof {
                            assert(val@.subrange(0, val@.len() as int) =~= val@);
                            assert(all.skip(i as int).skip(3) =~= all.skip(i as int + 3));
                        }
                        master = Some(HostAddr { host, port: p });
                        i = i + 3;
                    },
                    None => {
                        proof {
                            assert(val@.subrange(0, val@.len() as int) =~= val@);
                        }
                        return Err(ConfigError::BadPort);
                    },
                }
            } else {
                return Err(ConfigError::UnknownArgument);
            }
        }
        proof {
            assert(all.skip(n as int) =~= Seq::<Seq<u8>>::empty());
        }
        let master_replid = replid_value();
        Ok(Config { port, master, master_replid, master_repl_offset: 0 })
    }

    /// A copy with the same content.
    pub fn clone(&self) -> (r: Config)
        ensures
            r@ == self@,
    {
        let master = match &self.master {
            Some(h) => Some(
                HostAddr { host: vstd::slice::slice_to_vec(h.host.as_slice()), port: h.port },
            ),
            None => None,
        };
        let r = Config {
            port: self.port,
            master,
            master_replid: vstd::slice::slice_to_vec(self.master_replid.as_slice()),
            master_repl_offset: self.master_repl_offset,
        };
        proof {
            assert(r@.master == self@.master);
        }
        r
    }
}

} // verus!
