//! Executing one typed command against the store and the node's
//! replication identity, producing the exact reply bytes.
use vstd::prelude::*;

use vstd::slice::slice_to_vec;

use crate::commands::{Command, CommandView};
use crate::config::{Config, ConfigView};
use crate::num::i64_to_digits;
use crate::raw::bytes_from_slice;
use crate::response::{
    empty_rdb, lemma_response_view_elems, response_view_elems, spec_empty_rdb,
    spec_response_bytes, Response, ResponseView,
};
use crate::store::{item_at, spec_lookup, Store, StoreError, StoreItemView};

verus! {

broadcast use vstd::std_specs::vec::group_vec_axioms;

/// As bytes: the role a node without a configured primary reports (`master`).
pub open spec fn lit_role_master() -> Seq<u8> {
    seq![0x6du8, 0x61u8, 0x73u8, 0x74u8, 0x65u8, 0x72u8]
}

fn lit_role_master_vec() -> (v: Vec<u8>)
    ensures
        v@ == lit_role_master(),
{
    let mut v: Vec<u8> = Vec::new();
    v.push(0x6du8);
    v.push(0x61u8);
    v.push(0x73u8);
    v.push(0x74u8);
    v.push(0x65u8);
    v.push(0x72u8);
    proof {
        assert(v@ =~= lit_role_master());
    }
    v
}

/// As bytes: the role a node configured with a primary reports (`slave`).
pub open spec fn lit_role_slave() -> Seq<u8> {
    seq![0x73u8, 0x6cu8, 0x61u8, 0x76u8, 0x65u8]
}

fn lit_role_slave_vec() -> (v: Vec<u8>)
    ensures
        v@ == lit_role_slave(),
{
    let mut v: Vec<u8> = Vec::new();
    v.push(0x73u8);
    v.push(0x6cu8);
    v.push(0x61u8);
    v.push(0x76u8);
    v.push(0x65u8);
    proof {
        assert(v@ =~= lit_role_slave());
    }
    v
}

/// As bytes: the section header and first field of the `INFO` block (`# Replication\nrole:`).
pub open spec fn lit_info_head() -> Seq<u8> {
    seq![0x23u8, 0x20u8, 0x52u8, 0x65u8, 0x70u8, 0x6cu8, 0x69u8, 0x63u8, 0x61u8, 0x74u8, 0x69u8, 0x6fu8, 0x6eu8, 0x0au8, 0x72u8, 0x6fu8, 0x6cu8, 0x65u8, 0x3au8]
}

fn lit_info_head_vec() -> (v: Vec<u8>)
    ensures
        v@ == lit_info_head(),
{
    let mut v: Vec<u8> = Vec::new();
    v.push(0x23u8);
    v.push(0x20u8);
    v.push(0x52u8);
    v.push(0x65u8);
    v.push(0x70u8);
    v.push(0x6cu8);
    v.push(0x69u8);
    v.push(0x63u8);
    v.push(0x61u8);
    v.push(0x74u8);
    v.push(0x69u8);
    v.push(0x6fu8);
    v.push(0x6eu8);
    v.push(0x0au8);
    v.push(0x72u8);
    v.push(0x6fu8);
    v.push(0x6cu8);
    v.push(0x65u8);
    v.push(0x3au8);
    proof {
        assert(v@ =~= lit_info_head());
    }
    v
}

/// As bytes: the `INFO` field naming the replication id (`\nmaster_replid:`).
pub open spec fn lit_info_replid() -> Seq<u8> {
    seq![0x0au8, 0x6du8, 0x61u8, 0x73u8, 0x74u8, 0x65u8, 0x72u8, 0x5fu8, 0x72u8, 0x65u8, 0x70u8, 0x6cu8, 0x69u8, 0x64u8, 0x3au8]
}

fn lit_info_replid_vec() -> (v: Vec<u8>)
    ensures
        v@ == lit_info_replid(),
{
    let mut v: Vec<u8> = Vec::new();
    v.push(0x0au8);
    v.push(0x6du8);
    v.push(0x61u8);
    v.push(0x73u8);
    v.push(0x74u8);
    v.push(0x65u8);
    v.push(0x72u8);
    v.push(0x5fu8);
    v.push(0x72u8);
    v.push(0x65u8);
    v.push(0x70u8);
    v.push(0x6cu8);
    v.push(0x69u8);
    v.push(0x64u8);
    v.push(0x3au8);
    proof {
        assert(v@ =~= lit_info_replid());
    }
    v
}

/// As bytes: the `INFO` field naming the replication offset (`\nmaster_repl_offset:`).
pub open spec fn lit_info_offset() -> Seq<u8> {
    seq![0x0au8, 0x6du8, 0x61u8, 0x73u8, 0x74u8, 0x65u8, 0x72u8, 0x5fu8, 0x72u8, 0x65u8, 0x70u8, 0x6cu8, 0x5fu8, 0x6fu8, 0x66u8, 0x66u8, 0x73u8, 0x65u8, 0x74u8, 0x3au8]
}

fn lit_info_offset_vec() -> (v: Vec<u8>)
    ensures
        v@ == lit_info_offset(),
{
    let mut v: Vec<u8> = Vec::new();
    v.push(0x0au8);
    v.push(0x6du8);
    v.push(0x61u8);
    v.push(0x73u8);
    v.push(0x74u8);
    v.push(0x65u8);
    v.push(0x72u8);
    v.push(0x5fu8);
    v.push(0x72u8);
    v.push(0x65u8);
    v.push(0x70u8);
    v.push(0x6cu8);
    v.push(0x5fu8);
    v.push(0x6fu8);
    v.push(0x66u8);
    v.push(0x66u8);
    v.push(0x73u8);
    v.push(0x65u8);
    v.push(0x74u8);
    v.push(0x3au8);
    proof {
        assert(v@ =~= lit_info_offset());
    }
    v
}

/// As bytes: the resynchronization reply's leading word (`FULLRESYNC `).
pub open spec fn lit_fullresync() -> Seq<u8> {
    seq![0x46u8, 0x55u8, 0x4cu8, 0x4cu8, 0x52u8, 0x45u8, 0x53u8, 0x59u8, 0x4eu8, 0x43u8, 0x20u8]
}

fn lit_fullresync_vec() -> (v: Vec<u8>)
    ensures
        v@ == lit_fullresync(),
{
    let mut v: Vec<u8> = Vec::new();
    v.push(0x46u8);
    v.push(0x55u8);
    v.push(0x4cu8);
    v.push(0x4cu8);
    v.push(0x52u8);
    v.push(0x45u8);
    v.push(0x53u8);
    v.push(0x59u8);
    v.push(0x4eu8);
    v.push(0x43u8);
    v.push(0x20u8);
    proof {
        assert(v@ =~= lit_fullresync());
    }
    v
}


/// The role this node reports: `master` without a configured primary,
/// `slave` with one.
pub open spec fn spec_role(cfg: ConfigView) -> Seq<u8> {
    if cfg.master is None {
        lit_role_master()
    } else {
        lit_role_slave()
    }
}

/// The `INFO` reply body: a single replication block of newline-separated
/// `key:value` lines, the same for every requested section.
pub open spec fn spec_info_payload(cfg: ConfigView) -> Seq<u8> {
    lit_info_head() + spec_role(cfg) + lit_info_replid() + cfg.master_replid + lit_info_offset()
        + crate::num::dec_sdigits(cfg.master_repl_offset as int)
}

/// The resynchronization line `FULLRESYNC <replid> <offset>`.
pub open spec fn spec_fullresync_line(cfg: ConfigView) -> Seq<u8> {
    lit_fullresync() + cfg.master_replid + seq![0x20u8] + crate::num::dec_sdigits(
        cfg.master_repl_offset as int,
    )
}

/// What one command does, executed at time `now`: the store afterwards,
/// and the reply.
pub open spec fn spec_handle(
    cmd: CommandView,
    m: Map<Seq<u8>, StoreItemView>,
    cfg: ConfigView,
    now: u64,
) -> (Map<Seq<u8>, StoreItemView>, ResponseView) {
    match cmd {
        CommandView::Ping => (m, ResponseView::Pong),
        CommandView::Echo(a) => (m, ResponseView::BulkString(a)),
        CommandView::SetValue { key, value, expiry } => (
            m.insert(key, item_at(value, expiry, now)),
            ResponseView::OK,
        ),
        CommandView::Get(key) => (
            m,
            match spec_lookup(m, key, now as u128) {
                Some(v) => ResponseView::BulkString(v),
                None => ResponseView::Null,
            },
        ),
        CommandView::Info(_) => (m, ResponseView::BulkString(spec_info_payload(cfg))),
        CommandView::ReplConf(_) => (m, ResponseView::OK),
        CommandView::Psync { .. } => (
            m,
            ResponseView::Sequence(
                seq![
                    ResponseView::SimpleString(spec_fullresync_line(cfg)),
                    ResponseView::File(spec_empty_rdb()),
                ],
            ),
        ),
    }
}

/// Executing `cmd` at time `now` on store `m` leaves store `m2` and puts
/// `bytes` on the wire.
pub open spec fn spec_handle_outcome(
    cmd: CommandView,
    m: Map<Seq<u8>, StoreItemView>,
    cfg: ConfigView,
    now: u64,
    m2: Map<Seq<u8>, StoreItemView>,
    bytes: Seq<u8>,
) -> bool {
    m2 == spec_handle(cmd, m, cfg, now).0 && bytes == spec_response_bytes(
        spec_handle(cmd, m, cfg, now).1,
    )
}

/// Executing `cmd` on store `m` at some single moment of the clock leaves
/// store `m2` and puts `bytes` on the wire.
pub open spec fn spec_handled_at_some_time(
    cmd: CommandView,
    m: Map<Seq<u8>, StoreItemView>,
    cfg: ConfigView,
    m2: Map<Seq<u8>, StoreItemView>,
    bytes: Seq<u8>,
) -> bool {
    exists|now: u64| #[trigger] spec_handle_outcome(cmd, m, cfg, now, m2, bytes)
}

/// Executes commands against one store handle and the fixed
/// configuration.
pub struct CommandHandler {
    store: Store,
    config: Config,
}

impl CommandHandler {
    /// The mapping the handler's store holds.
    pub closed spec fn store_map(&self) -> Map<Seq<u8>, StoreItemView> {
        self.store@
    }

    /// The configuration the handler reads.
    pub closed spec fn config_view(&self) -> ConfigView {
        self.config@
    }

    pub closed spec fn wf(&self) -> bool {
        self.store.wf()
    }

    /// Hands the store back, for the caller that keeps it behind the
    /// connection lock between requests.
    pub fn into_store(self) -> (s: Store)
        ensures
            s@ == self.store_map(),
            self.wf() ==> s.wf(),
    {
        self.store
    }

    pub fn new(store: Store, config: Config) -> (h: CommandHandler)
        requires
            store.wf(),
        ensures
            h.wf(),
            h.store_map() == store@,
            h.config_view() == config@,
    {
        CommandHandler { store, config }
    }

    /// The `INFO` reply body for this node.
    fn info_payload(&self) -> (r: Vec<u8>)
        ensures
            r@ == spec_info_payload(self.config_view()),
    {
        let mut v = lit_info_head_vec();
        let role = match &self.config.master {
            None => lit_role_master_vec(),
            Some(_) => lit_role_slave_vec(),
        };
        v.extend_from_slice(role.as_slice());
        let mut part = lit_info_replid_vec();
        v.append(&mut part);
        v.extend_from_slice(self.config.master_replid.as_slice());
        let mut part = lit_info_offset_vec();
        v.append(&mut part);
        let mut digits = i64_to_digits(self.config.master_repl_offset);
        v.append(&mut digits);
        proof {
            assert(v@ =~= spec_info_payload(self.config_view()));
        }
        v
    }

    /// The `FULLRESYNC <replid> <offset>` line for this node.
    fn fullresync_line(&self) -> (r: Vec<u8>)
        ensures
            r@ == spec_fullresync_line(self.config_view()),
    {
        let mut v = lit_fullresync_vec();
        v.extend_from_slice(self.config.master_replid.as_slice());
        v.push(0x20u8);
        let mut digits = i64_to_digits(self.config.master_repl_offset);
        v.append(&mut digits);
        proof {
            assert(v@ =~= spec_fullresync_line(self.config_view()));
        }
        v
    }

    /// Executes one command as of time `now` and returns the exact reply
    /// bytes.  Total: every command is answered.
    pub fn handle_command_at(&mut self, cmd: Command, now: u64) -> (r: Vec<u8>)
        requires
            old(self).wf(),
        ensures
            final(self).wf(),
            final(self).config_view() == old(self).config_view(),
            spec_handle_outcome(
                cmd@,
                old(self).store_map(),
                old(self).config_view(),
                now,
                final(self).store_map(),
                r@,
            ),
    {
        let ghost cv = cmd@;
        match cmd {
            Command::Ping => Response::Pong.serialize(),
            Command::Echo(a) => Response::BulkString(a).serialize(),
            Command::SetValue { key, value, expiry } => {
                self.store.insert_at(key.as_slice(), value.as_slice(), expiry, now);
                Response::OK.serialize()
            },
            Command::Get(key) => {
                match self.store.get_at(key.as_slice(), now as u128) {
                    Some(v) => Response::BulkString(v).serialize(),
                    None => Response::Null.serialize(),
                }
            },
            Command::Info(_) => {
                let payload = self.info_payload();
                Response::BulkString(payload).serialize()
            },
            Command::ReplConf(_) => Response::OK.serialize(),
            Command::Psync { .. } => {
                let line = self.fullresync_line();
                let snapshot = bytes_from_slice(empty_rdb().as_slice());
                let mut rs: Vec<Response> = Vec::new();
                rs.push(Response::SimpleString(line));
                rs.push(Response::File(snapshot));
                let resp = Response::Sequence(rs);
                proof {
                    lemma_response_view_elems(rs@);
                    assert(response_view_elems(rs@) =~~= seq![
                        ResponseView::SimpleString(spec_fullresync_line(self.config_view())),
                        ResponseView::File(spec_empty_rdb()),
                    ]);
                }
                resp.serialize()
            },
        }
    }

    /// Executes one command at the current clock time.  Only `SET` with a
    /// time-to-live and `GET` of an item that carries one read the clock,
    /// so only they can fail, and only with a clock error.
    pub fn handle_command(&mut self, cmd: Command) -> (r: Result<Vec<u8>, StoreError>)
        requires
            old(self).wf(),
        ensures
            final(self).wf(),
            final(self).config_view() == old(self).config_view(),
            (match r {
                Ok(bytes) => spec_handled_at_some_time(
                    cmd@,
                    old(self).store_map(),
                    old(self).config_view(),
                    final(self).store_map(),
                    bytes@,
                ),
                Err(e) => e == StoreError::Clock && final(self).store_map() == old(
                    self,
                ).store_map() && ((cmd@ matches CommandView::SetValue { .. }) || (
                cmd@ matches CommandView::Get(_))),
            }),
            (cmd@ matches CommandView::SetValue { expiry: None, .. }) ==> r is Ok,
            (cmd@ matches CommandView::Get(k) && (!old(self).store_map().contains_key(k) || old(
                self,
            ).store_map()[k].expiry is None)) ==> r is Ok,
    {
        let ghost cv = cmd@;
        let ghost m0 = self.store@;
        match cmd {
            Command::SetValue { key, value, expiry } => {
                match self.store.insert(key.as_slice(), value.as_slice(), expiry) {
                    Ok(_) => {
                        let bytes = Response::OK.serialize();
                        proof {
                            let w = choose|w: u64|
                                self.store@ == m0.insert(
                                    key@,
                                    #[trigger] item_at(value@, expiry, w),
                                );
                            assert(self.store@ == m0.insert(key@, item_at(value@, expiry, w)));
                            assert(spec_handle_outcome(
                                cv,
                                m0,
                                self.config@,
                                w,
                                self.store@,
                                bytes@,
                            ));
                            assert(spec_handled_at_some_time(
                                cv,
                                m0,
                                self.config@,
                                self.store@,
                                bytes@,
                            ));
                        }
                        Ok(bytes)
                    },
                    Err(e) => Err(e),
                }
            },
            Command::Get(key) => {
                match self.store.get(key.as_slice()) {
                    Ok(opt) => {
                        let ghost w = choose|w: u64|
                            crate::store::view_opt(opt) == #[trigger] spec_lookup(
                                m0,
                                key@,
                                w as u128,
                            );
                        proof {
                            assert(crate::store::view_opt(opt) == spec_lookup(
                                m0,
                                key@,
                                w as u128,
                            ));
                        }
                        match opt {
                            Some(v) => {
                                let bytes = Response::BulkString(v).serialize();
                                proof {
                                    assert(spec_handle_outcome(
                                        cv,
                                        m0,
                                        self.config@,
                                        w,
                                        self.store@,
                                        bytes@,
                                    ));
                                    assert(spec_handled_at_some_time(
                                        cv,
                                        m0,
                                        self.config@,
                                        self.store@,
                                        bytes@,
                                    ));
                                }
                                Ok(bytes)
                            },
                            None => {
                                let bytes = Response::Null.serialize();
                                proof {
                                    assert(spec_handle_outcome(
                                        cv,
                                        m0,
                                        self.config@,
                                        w,
                                        self.store@,
                                        bytes@,
                                    ));
                                    assert(spec_handled_at_some_time(
                                        cv,
                                        m0,
                                        self.config@,
                                        self.store@,
                                        bytes@,
                                    ));
                                }
                                Ok(bytes)
                            },
                        }
                    },
                    Err(e) => Err(e),
                }
            },
            Command::Ping => {
                let bytes = self.handle_command_at(Command::Ping, 0);
                proof {
                    assert(spec_handle_outcome(cv, m0, self.config@, 0u64, self.store@, bytes@));
                    assert(spec_handled_at_some_time(cv, m0, self.config@, self.store@, bytes@));
                }
                Ok(bytes)
            },
            Command::Echo(a) => {
                let bytes = self.handle_command_at(Command::Echo(a), 0);
                proof {
                    assert(spec_handle_outcome(cv, m0, self.config@, 0u64, self.store@, bytes@));
                    assert(spec_handled_at_some_time(cv, m0, self.config@, self.store@, bytes@));
                }
                Ok(bytes)
            },
            Command::Info(s) => {
                let bytes = self.handle_command_at(Command::Info(s), 0);
                proof {
                    assert(spec_handle_outcome(cv, m0, self.config@, 0u64, self.store@, bytes@));
                    assert(spec_handled_at_some_time(cv, m0, self.config@, self.store@, bytes@));
                }
                Ok(bytes)
            },
            Command::ReplConf(rc) => {
                let bytes = self.handle_command_at(Command::ReplConf(rc), 0);
                proof {
                    assert(spec_handle_outcome(cv, m0, self.config@, 0u64, self.store@, bytes@));
                    assert(spec_handled_at_some_time(cv, m0, self.config@, self.store@, bytes@));
                }
                Ok(bytes)
            },
            Command::Psync { replica_id, offset } => {
                let bytes = self.handle_command_at(Command::Psync { replica_id, offset }, 0);
                proof {
                    assert(spec_handle_outcome(cv, m0, self.config@, 0u64, self.store@, bytes@));
                    assert(spec_handled_at_some_time(cv, m0, self.config@, self.store@, bytes@));
                }
                Ok(bytes)
            },
        }
    }
}

/// `PSYNC` leaves the store untouched and answers with exactly two
/// back-to-back frames and no framing around them: the line
/// `+FULLRESYNC <replid> <offset>\r\n`, then the placeholder snapshot,
/// bulk-framed but with no trailing terminator.  With the offset a fresh
/// configuration carries, the line ends in ` 0`.
pub proof fn lemma_psync_reply(
    replica_id: Seq<u8>,
    offset: i64,
    m: Map<Seq<u8>, StoreItemView>,
    cfg: ConfigView,
    now: u64,
)
    ensures
        spec_handle(CommandView::Psync { replica_id, offset }, m, cfg, now).0 == m,
        spec_response_bytes(spec_handle(CommandView::Psync { replica_id, offset }, m, cfg, now).1)
            == seq![crate::resp::TAG_SIMPLE] + spec_fullresync_line(cfg) + crate::resp::crlf()
            + seq![crate::resp::TAG_BULK] + crate::num::dec_digits(spec_empty_rdb().len())
            + crate::resp::crlf() + spec_empty_rdb(),
        cfg.master_repl_offset == 0 ==> spec_fullresync_line(cfg) == lit_fullresync()
            + cfg.master_replid + seq![0x20u8, 0x30u8],
{
    let line = ResponseView::SimpleString(spec_fullresync_line(cfg));
    let snapshot = ResponseView::File(spec_empty_rdb());
    let rs = seq![line, snapshot];
    assert(rs.drop_first() =~= seq![snapshot]);
    assert(seq![snapshot].drop_first() =~= Seq::<ResponseView>::empty());
    assert(crate::response::spec_response_bytes_elems(Seq::<ResponseView>::empty())
        == Seq::<u8>::empty());
    assert(rs[0] == line);
    assert(seq![snapshot][0] == snapshot);
    assert(crate::response::spec_response_bytes_elems(seq![snapshot]) == spec_response_bytes(
        snapshot,
    ) + crate::response::spec_response_bytes_elems(seq![snapshot].drop_first()));
    assert(crate::response::spec_response_bytes_elems(rs) == spec_response_bytes(rs[0])
        + crate::response::spec_response_bytes_elems(rs.drop_first()));
    assert(crate::response::spec_response_bytes_elems(rs) == spec_response_bytes(line) + (
    spec_response_bytes(snapshot) + Seq::<u8>::empty()));
    assert(spec_response_bytes(line) + (spec_response_bytes(snapshot) + Seq::<u8>::empty())
        =~= (seq![crate::resp::TAG_SIMPLE] + spec_fullresync_line(cfg) + crate::resp::crlf())
        + (seq![crate::resp::TAG_BULK] + crate::num::dec_digits(spec_empty_rdb().len())
        + crate::resp::crlf() + spec_empty_rdb()));
    assert((seq![crate::resp::TAG_SIMPLE] + spec_fullresync_line(cfg) + crate::resp::crlf()) + (
    seq![crate::resp::TAG_BULK] + crate::num::dec_digits(spec_empty_rdb().len())
        + crate::resp::crlf() + spec_empty_rdb()) =~= seq![crate::resp::TAG_SIMPLE]
        + spec_fullresync_line(cfg) + crate::resp::crlf() + seq![crate::resp::TAG_BULK]
        + crate::num::dec_digits(spec_empty_rdb().len()) + crate::resp::crlf()
        + spec_empty_rdb());
    if cfg.master_repl_offset == 0 {
        assert(crate::num::dec_sdigits(0) == seq![0x30u8]) by {
            assert(crate::num::dec_digits(0nat) =~= seq![0x30u8]);
        }
        assert(spec_fullresync_line(cfg) =~= lit_fullresync() + cfg.master_replid + seq![
            0x20u8,
            0x30u8,
        ]);
    }
}

/// A read of a key that was never set answers with the absent reply
/// `$-1\r\n`, never with an error, and leaves the store unchanged.
pub proof fn lemma_get_absent(
    m: Map<Seq<u8>, StoreItemView>,
    key: Seq<u8>,
    cfg: ConfigView,
    now: u64,
)
    requires
        !m.contains_key(key),
    ensures
        spec_handle(CommandView::Get(key), m, cfg, now) == (m, ResponseView::Null),
        spec_response_bytes(ResponseView::Null) == crate::response::spec_null_bytes(),
{
}

/// A `REPLCONF` with any well-formed arguments is always answered
/// `+OK\r\n`, whatever its payload, and leaves the store unchanged.
pub proof fn lemma_replconf_ok(
    rc: crate::commands::ReplConfView,
    m: Map<Seq<u8>, StoreItemView>,
    cfg: ConfigView,
    now: u64,
)
    ensures
        spec_handle(CommandView::ReplConf(rc), m, cfg, now) == (m, ResponseView::OK),
        spec_response_bytes(ResponseView::OK) == seq![0x2bu8, 0x4fu8, 0x4bu8, 0x0du8, 0x0au8],
{
    assert(spec_response_bytes(ResponseView::OK) =~= seq![0x2bu8, 0x4fu8, 0x4bu8, 0x0du8, 0x0au8]);
}

/// `INFO` reports `role:master` exactly when no primary is configured
/// and `role:slave` exactly when one is; the reply always carries the
/// configured replication id, an opaque identifier of fixed length, and
/// the store is untouched.  Every requested section gets the same block.
pub proof fn lemma_info_reports_role(
    section: Option<Seq<u8>>,
    m: Map<Seq<u8>, StoreItemView>,
    cfg: ConfigView,
    now: u64,
)
    ensures
        spec_handle(CommandView::Info(section), m, cfg, now) == (
            m,
            ResponseView::BulkString(spec_info_payload(cfg)),
        ),
        (spec_role(cfg) == lit_role_master()) <==> (cfg.master is None),
        (spec_role(cfg) == lit_role_slave()) <==> (cfg.master is Some),
        crate::config::spec_replid().len() == 40,
{
    assert(lit_role_master().len() != lit_role_slave().len());
}

} // verus!
