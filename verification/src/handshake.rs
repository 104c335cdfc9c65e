//! The replica-side bootstrap: a strictly sequential four-step sequence
//! of requests against a primary.  Each stage writes one request and
//! consumes one reply (whose content this design does not inspect); no
//! step is retried, and a failure abandons the handshake.
use vstd::prelude::*;

use crate::commands::{
    bulk_array_view, spec_request_tokens, Command, CommandView, ReplConf, ReplConfView,
};
use crate::resp::spec_serialize;

verus! {

/// Where a replica stands in its bootstrap against the primary.
#[derive(Clone, Copy, Debug, PartialEq, Eq, Structural)]
pub enum HandshakeStage {
    Ping,
    ListeningPort,
    Capabilities,
    Psync,
    Done,
}

/// As bytes: the one capability a replica announces (`psync2`).
pub open spec fn lit_psync2() -> Seq<u8> {
    seq![0x70u8, 0x73u8, 0x79u8, 0x6eu8, 0x63u8, 0x32u8]
}

/// As bytes: the sentinel replica id announcing no previous state (`?`).
pub open spec fn lit_unknown_replica() -> Seq<u8> {
    seq![0x3fu8]
}

/// The command each stage sends: `PING`, the listening port, the
/// `psync2` capability, then a full-resync request with the sentinel
/// id `?` and offset -1; the terminal stage sends nothing.
pub open spec fn spec_stage_command(stage: HandshakeStage, listen_port: u32) -> Option<
    CommandView,
> {
    match stage {
        HandshakeStage::Ping => Some(CommandView::Ping),
        HandshakeStage::ListeningPort => Some(
            CommandView::ReplConf(ReplConfView::ListeningPort(listen_port)),
        ),
        HandshakeStage::Capabilities => Some(
            CommandView::ReplConf(ReplConfView::Capa(seq![lit_psync2()])),
        ),
        HandshakeStage::Psync => Some(
            CommandView::Psync { replica_id: lit_unknown_replica(), offset: -1i64 },
        ),
        HandshakeStage::Done => None,
    }
}

impl HandshakeStage {
    /// The stage a fresh handshake starts in.
    pub fn start() -> (s: HandshakeStage)
        ensures
            s == HandshakeStage::Ping,
    {
        HandshakeStage::Ping
    }

    /// The stage that follows once this stage's reply has been consumed.
    pub fn advance(&self) -> (n: HandshakeStage)
        ensures
            n == (match *self {
                HandshakeStage::Ping => HandshakeStage::ListeningPort,
                HandshakeStage::ListeningPort => HandshakeStage::Capabilities,
                HandshakeStage::Capabilities => HandshakeStage::Psync,
                HandshakeStage::Psync => HandshakeStage::Done,
                HandshakeStage::Done => HandshakeStage::Done,
            }),
    {
        match self {
            HandshakeStage::Ping => HandshakeStage::ListeningPort,
            HandshakeStage::ListeningPort => HandshakeStage::Capabilities,
            HandshakeStage::Capabilities => HandshakeStage::Psync,
            HandshakeStage::Psync => HandshakeStage::Done,
            HandshakeStage::Done => HandshakeStage::Done,
        }
    }

    /// The exact request bytes this stage writes to the primary, if any.
    pub fn request(&self, listen_port: u32) -> (r: Option<Vec<u8>>)
        ensures
            (match spec_stage_command(*self, listen_port) {
                Some(c) => r matches Some(v) && v@ == spec_serialize(
                    bulk_array_view(spec_request_tokens(c)),
                ),
                None => r is None,
            }),
    {
        match self {
            HandshakeStage::Ping => Some(Command::Ping.serialize()),
            HandshakeStage::ListeningPort => {
                let c = Command::ReplConf(ReplConf::ListeningPort(listen_port));
                Some(c.serialize())
            },
            HandshakeStage::Capabilities => {
                let mut capa: Vec<u8> = Vec::new();
                capa.push(0x70u8);
                capa.push(0x73u8);
                capa.push(0x79u8);
                capa.push(0x6eu8);
                capa.push(0x63u8);
                capa.push(0x32u8);
                proof {
                    assert(capa@ =~= lit_psync2());
                }
                let mut capas: Vec<Vec<u8>> = Vec::new();
                capas.push(capa);
                let c = Command::ReplConf(ReplConf::Capa(capas));
                proof {
                    assert(c@ == spec_stage_command(*self, listen_port)->0) by {
                        assert(capas.deep_view() =~~= seq![lit_psync2()]);
                    }
                }
                Some(c.serialize())
            },
            HandshakeStage::Psync => {
                let mut rid: Vec<u8> = Vec::new();
                rid.push(0x3fu8);
                proof {
                    assert(rid@ =~= lit_unknown_replica());
                }
                let c = Command::Psync { replica_id: rid, offset: -1 };
                Some(c.serialize())
            },
            HandshakeStage::Done => None,
        }
    }
}

} // verus!
