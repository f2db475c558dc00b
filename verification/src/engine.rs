use vstd::prelude::*;
use vstd::string::StrSliceExecFns;
use vstd::string::StringSliceAdditionalSpecFns;

use crate::command::{parse_command, CmdModel, Command};
use crate::resp::{
    encode_reply, parse_at, reply_encoding, DecodeErr, ParseOut, Reply, ReplyModel, ValModel,
    MAX_DEPTH,
};
use crate::store::{
    config_get_spec, get_result, map_after_get, set_px_spec, set_spec, ConfigLookup,
    ConfigLookupModel, Store, StoreModel,
};

verus! {

// ---------------------------------------------------------------------------
// Command execution
//
// One logical step per decoded command: the command is applied to the store
// at the current instant and a reply is produced. Nothing here performs any
// input or output; the connection loop around the library moves the bytes.
// ---------------------------------------------------------------------------

/// The reply a command earns and the store it leaves behind.
pub open spec fn execute_spec(cmd: CmdModel, st: StoreModel, now: u64) -> (ReplyModel, StoreModel) {
    match cmd {
        CmdModel::PING => (ReplyModel::Simple("PONG".spec_bytes()), st),
        CmdModel::ECHO(m) => (ReplyModel::Bulk(m), st),
        CmdModel::GET(k) => (
            match get_result(st.map, k, now) {
                Some(v) => ReplyModel::Bulk(v),
                None => ReplyModel::NullBulk,
            },
            StoreModel { map: map_after_get(st.map, k, now), config: st.config },
        ),
        CmdModel::SET(k, v) => (
            ReplyModel::Simple("OK".spec_bytes()),
            StoreModel { map: set_spec(st.map, k, v), config: st.config },
        ),
        CmdModel::SETPX(k, v, ttl) => (
            ReplyModel::Simple("OK".spec_bytes()),
            StoreModel { map: set_px_spec(st.map, k, v, ttl, now), config: st.config },
        ),
        CmdModel::CONFIGGET(name) => (
            match config_get_spec(st.config, name) {
                ConfigLookupModel::Value(v) => ReplyModel::ConfigPair(name, v),
                ConfigLookupModel::NotFound => ReplyModel::NullBulk,
                ConfigLookupModel::NoConfig => ReplyModel::SimpleError(
                    "no configuration was supplied at startup".spec_bytes(),
                ),
            },
            st,
        ),
        CmdModel::INVALID(m) => (ReplyModel::SimpleError(m), st),
    }
}

/// Apply one command to the store at time `now_ms` and produce its reply.
///
/// A malformed request (`INVALID`) earns an error line, never a dropped
/// connection; a missing configuration is likewise reported to the client.
pub fn execute_command(cmd: Command, store: &mut Store, now_ms: u64) -> (r: Reply)
    requires
        old(store).wf(),
    ensures
        final(store).wf(),
        r.model() == execute_spec(cmd.model(), old(store).model(), now_ms).0,
        final(store).model() == execute_spec(cmd.model(), old(store).model(), now_ms).1,
{
    match cmd {
        Command::PING => Reply::Simple("PONG".as_bytes_vec()),
        Command::ECHO(m) => Reply::Bulk(m),
        Command::GET(k) => match store.get(&k, now_ms) {
            Some(v) => Reply::Bulk(v),
            None => Reply::NullBulk,
        },
        Command::SET(k, v) => {
            store.set(&k, v);
            Reply::Simple("OK".as_bytes_vec())
        },
        Command::SETPX(k, v, ttl) => {
            store.set_with_expiry(&k, v, ttl, now_ms);
            Reply::Simple("OK".as_bytes_vec())
        },
        Command::CONFIGGET(name) => match store.config_get(&name) {
            ConfigLookup::Value(v) => Reply::ConfigPair(name, v),
            ConfigLookup::NotFound => Reply::NullBulk,
            ConfigLookup::NoConfig => Reply::SimpleError(
                "no configuration was supplied at startup".as_bytes_vec(),
            ),
        },
        Command::INVALID(m) => Reply::SimpleError(m),
    }
}

/// Decode the next request at the front of the buffer and derive its
/// command.
pub fn get_next_command(input: &Vec<u8>, pos: usize) -> (r: Result<(Command, usize), DecodeErr>)
    requires
        pos <= input.len(),
    ensures
        match parse_at(input@, pos as int, MAX_DEPTH as nat) {
            ParseOut::Val(v, c) => r matches Ok(p) && p.0.model() == parse_command(v) && p.1 == c
                && pos + p.1 <= input.len(),
            ParseOut::Incomplete => r == Err::<(Command, usize), DecodeErr>(DecodeErr::Incomplete),
            ParseOut::Bad => r == Err::<(Command, usize), DecodeErr>(DecodeErr::Protocol),
        },
{
    match crate::resp::decode_value(input, pos, MAX_DEPTH) {
        Ok((v, c)) => Ok((Command::from_data(&v), c)),
        Err(e) => Err(e),
    }
}

/// What the connection task should do next.
#[derive(Debug, Clone, PartialEq, Eq)]
pub enum StepOutcome {
    /// Write these bytes back, then drop this many consumed input bytes.
    Reply(Vec<u8>, usize),
    /// The buffer holds only a prefix of a request: read more bytes first.
    NeedMore,
    /// Clean end of stream between requests: close the connection quietly.
    Disconnected,
    /// Malformed protocol data, or a stream that ended mid-request: close
    /// the connection.
    ProtocolError,
}

/// Handle the front of a connection's buffer: decode one request, run it
/// against the store at time `now_ms`, and hand back the encoded reply with
/// the number of input bytes consumed. `eof` says the stream has ended and
/// no further bytes will come; only then does an incomplete buffer mean a
/// disconnect (if it is empty) or a truncated request (if it is not).
pub fn session_step(input: &Vec<u8>, eof: bool, store: &mut Store, now_ms: u64) -> (r: StepOutcome)
    requires
        old(store).wf(),
    ensures
        final(store).wf(),
        match parse_at(input@, 0, MAX_DEPTH as nat) {
            ParseOut::Val(v, c) => {
                let out = execute_spec(parse_command(v), old(store).model(), now_ms);
                &&& final(store).model() == out.1
                &&& r matches StepOutcome::Reply(bytes, used) && bytes@ == reply_encoding(out.0)
                    && used == c
            },
            ParseOut::Incomplete => {
                &&& final(store).model() == old(store).model()
                &&& r == (if !eof {
                    StepOutcome::NeedMore
                } else if input@.len() == 0 {
                    StepOutcome::Disconnected
                } else {
                    StepOutcome::ProtocolError
                })
            },
            ParseOut::Bad => {
                &&& final(store).model() == old(store).model()
                &&& r == StepOutcome::ProtocolError
            },
        },
{
    match get_next_command(input, 0) {
        Ok((cmd, used)) => {
            let reply = execute_command(cmd, store, now_ms);
            let bytes = encode_reply(&reply);
            StepOutcome::Reply(bytes, used)
        },
        Err(DecodeErr::Incomplete) => {
            if !eof {
                StepOutcome::NeedMore
            } else if input.len() == 0 {
                StepOutcome::Disconnected
            } else {
                StepOutcome::ProtocolError
            }
        },
        Err(DecodeErr::Protocol) => StepOutcome::ProtocolError,
    }
}

/// A request that decodes but fails validation earns an error-line reply
/// and leaves the store untouched: the connection is answered, not dropped.
pub proof fn lemma_invalid_request_is_answered(v: ValModel, st: StoreModel, now: u64)
    requires
        parse_command(v) is INVALID,
    ensures
        execute_spec(parse_command(v), st, now).0 is SimpleError,
        execute_spec(parse_command(v), st, now).1 == st,
{
}

} // verus!


