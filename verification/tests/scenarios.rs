use miniredis::command::Command;
use miniredis::engine::{session_step, StepOutcome};
use miniredis::resp::DataType;
use miniredis::store::Store;

/// Run one request against the store and return the reply bytes, checking
/// that the whole request was consumed.
fn reply_at(store: &mut Store, request: &[u8], now_ms: u64) -> Vec<u8> {
    let input = request.to_vec();
    match session_step(&input, false, store, now_ms) {
        StepOutcome::Reply(bytes, used) => {
            assert_eq!(used, input.len());
            bytes
        }
        other => panic!("expected a reply, got {:?}", other),
    }
}

fn reply(store: &mut Store, request: &[u8]) -> Vec<u8> {
    reply_at(store, request, 0)
}

#[test]
fn ping_replies_pong() {
    let mut store = Store::new();
    let out = reply(&mut store, b"*1\r\n$4\r\nPING\r\n");
    assert_eq!(out, b"+PONG\r\n".to_vec());
}

#[test]
fn echo_replies_payload() {
    let mut store = Store::new();
    let out = reply(&mut store, b"*2\r\n$4\r\nECHO\r\n$3\r\nhey\r\n");
    assert_eq!(out, b"$3\r\nhey\r\n".to_vec());
}

#[test]
fn echo_replies_empty_payload() {
    let mut store = Store::new();
    let out = reply(&mut store, b"*2\r\n$4\r\nECHO\r\n$0\r\n\r\n");
    assert_eq!(out, b"$0\r\n\r\n".to_vec());
}

#[test]
fn set_then_get_over_the_wire() {
    let mut store = Store::new();
    let out = reply(&mut store, b"*3\r\n$3\r\nSET\r\n$3\r\nfoo\r\n$3\r\nbar\r\n");
    assert_eq!(out, b"+OK\r\n".to_vec());
    let out = reply(&mut store, b"*2\r\n$3\r\nGET\r\n$3\r\nfoo\r\n");
    assert_eq!(out, b"$3\r\nbar\r\n".to_vec());
}

#[test]
fn get_of_unset_key_replies_null_bulk() {
    let mut store = Store::new();
    let out = reply(&mut store, b"*2\r\n$3\r\nGET\r\n$3\r\nfoo\r\n");
    assert_eq!(out, b"$-1\r\n".to_vec());
}

#[test]
fn set_px_then_get_after_expiry_replies_null_bulk() {
    let mut store = Store::new();
    let out = reply_at(
        &mut store,
        b"*5\r\n$3\r\nSET\r\n$1\r\nk\r\n$1\r\nv\r\n$2\r\npx\r\n$3\r\n100\r\n",
        1000,
    );
    assert_eq!(out, b"+OK\r\n".to_vec());
    let out = reply_at(&mut store, b"*2\r\n$3\r\nGET\r\n$1\r\nk\r\n", 1100);
    assert_eq!(out, b"$1\r\nv\r\n".to_vec());
    let out = reply_at(&mut store, b"*2\r\n$3\r\nGET\r\n$1\r\nk\r\n", 1101);
    assert_eq!(out, b"$-1\r\n".to_vec());
}

#[test]
fn set_px_zero_then_immediate_get_replies_null_bulk() {
    let mut store = Store::new();
    let out = reply_at(
        &mut store,
        b"*5\r\n$3\r\nSET\r\n$1\r\nk\r\n$1\r\nv\r\n$2\r\npx\r\n$1\r\n0\r\n",
        1000,
    );
    assert_eq!(out, b"+OK\r\n".to_vec());
    // The very same clock reading: the key is already gone.
    let out = reply_at(&mut store, b"*2\r\n$3\r\nGET\r\n$1\r\nk\r\n", 1000);
    assert_eq!(out, b"$-1\r\n".to_vec());
}

#[test]
fn command_names_are_case_folded() {
    let mut store = Store::new();
    let out = reply(&mut store, b"*3\r\n$3\r\nSeT\r\n$1\r\nk\r\n$1\r\nv\r\n");
    assert_eq!(out, b"+OK\r\n".to_vec());
    let out = reply(&mut store, b"*2\r\n$3\r\ngEt\r\n$1\r\nk\r\n");
    assert_eq!(out, b"$1\r\nv\r\n".to_vec());
}

#[test]
fn echo_without_arguments_is_an_error_reply() {
    let mut store = Store::new();
    let out = reply(&mut store, b"*1\r\n$4\r\nECHO\r\n");
    assert_eq!(
        out,
        b"-Invalid data type for command. must be an array of length 2\r\n".to_vec()
    );
}

#[test]
fn set_without_value_is_an_error_reply() {
    let mut store = Store::new();
    let out = reply(&mut store, b"*2\r\n$3\r\nSET\r\n$1\r\nk\r\n");
    assert_eq!(
        out,
        b"-Invalid data type for command. must be an array of length 3 or 5\r\n".to_vec()
    );
}

#[test]
fn ping_with_arguments_is_an_error_reply() {
    let mut store = Store::new();
    let out = reply(&mut store, b"*2\r\n$4\r\nPING\r\n$1\r\nx\r\n");
    assert_eq!(
        out,
        b"-Invalid data type for command. must be an array of length 1\r\n".to_vec()
    );
}

#[test]
fn unknown_command_is_an_error_reply_not_a_drop() {
    let mut store = Store::new();
    let out = reply(&mut store, b"*1\r\n$4\r\nBLAH\r\n");
    assert_eq!(out, b"-unknown command\r\n".to_vec());
    // The connection continues: the next request still earns a reply.
    let out = reply(&mut store, b"*1\r\n$4\r\nPING\r\n");
    assert_eq!(out, b"+PONG\r\n".to_vec());
}

#[test]
fn non_array_request_is_an_error_reply() {
    let mut store = Store::new();
    let out = reply(&mut store, b"+PING\r\n");
    assert_eq!(
        out,
        b"-Invalid data type for command. must be an array\r\n".to_vec()
    );
}

#[test]
fn empty_array_request_is_an_error_reply() {
    let mut store = Store::new();
    let out = reply(&mut store, b"*0\r\n");
    assert_eq!(
        out,
        b"-Invalid data type for command. must be a non-empty array\r\n".to_vec()
    );
}

#[test]
fn command_name_must_be_a_bulk_string() {
    let mut store = Store::new();
    let out = reply(&mut store, b"*1\r\n:1\r\n");
    assert_eq!(
        out,
        b"-Invalid data type for command. must be a bulk string\r\n".to_vec()
    );
}

#[test]
fn set_option_other_than_px_is_an_error_reply() {
    let mut store = Store::new();
    let out = reply(
        &mut store,
        b"*5\r\n$3\r\nSET\r\n$1\r\nk\r\n$1\r\nv\r\n$2\r\nex\r\n$3\r\n100\r\n",
    );
    assert_eq!(
        out,
        b"-Invalid argument for command. PX is only accepted argument name\r\n".to_vec()
    );
}

#[test]
fn px_option_is_case_sensitive() {
    let mut store = Store::new();
    let out = reply(
        &mut store,
        b"*5\r\n$3\r\nSET\r\n$1\r\nk\r\n$1\r\nv\r\n$2\r\nPX\r\n$3\r\n100\r\n",
    );
    assert_eq!(
        out,
        b"-Invalid argument for command. PX is only accepted argument name\r\n".to_vec()
    );
}

#[test]
fn non_numeric_ttl_is_an_error_reply() {
    let mut store = Store::new();
    let out = reply(
        &mut store,
        b"*5\r\n$3\r\nSET\r\n$1\r\nk\r\n$1\r\nv\r\n$2\r\npx\r\n$3\r\nabc\r\n",
    );
    assert_eq!(
        out,
        b"-Invalid argument for command. PX argument must be an unsigned integer\r\n".to_vec()
    );
}

#[test]
fn config_get_reports_configured_paths() {
    let mut store = Store::new_with_config(b"/tmp".to_vec(), b"dump.rdb".to_vec());
    let out = reply(&mut store, b"*3\r\n$6\r\nCONFIG\r\n$3\r\nget\r\n$3\r\ndir\r\n");
    assert_eq!(out, b"*2\r\n$3\r\ndir\r\n$4\r\n/tmp\r\n".to_vec());
    let out = reply(
        &mut store,
        b"*3\r\n$6\r\nCONFIG\r\n$3\r\nget\r\n$10\r\ndbfilename\r\n",
    );
    assert_eq!(out, b"*2\r\n$10\r\ndbfilename\r\n$8\r\ndump.rdb\r\n".to_vec());
}

#[test]
fn config_get_of_unknown_parameter_replies_null_bulk() {
    let mut store = Store::new_with_config(b"/tmp".to_vec(), b"dump.rdb".to_vec());
    let out = reply(
        &mut store,
        b"*3\r\n$6\r\nCONFIG\r\n$3\r\nget\r\n$8\r\nbadparam\r\n",
    );
    assert_eq!(out, b"$-1\r\n".to_vec());
}

#[test]
fn config_get_without_configuration_is_an_error_reply() {
    let mut store = Store::new();
    let out = reply(&mut store, b"*3\r\n$6\r\nCONFIG\r\n$3\r\nget\r\n$3\r\ndir\r\n");
    assert_eq!(out, b"-no configuration was supplied at startup\r\n".to_vec());
}

#[test]
fn config_subcommand_is_case_sensitive() {
    let mut store = Store::new_with_config(b"/tmp".to_vec(), b"dump.rdb".to_vec());
    let out = reply(&mut store, b"*3\r\n$6\r\nCONFIG\r\n$3\r\nGET\r\n$3\r\ndir\r\n");
    assert_eq!(
        out,
        b"-Invalid argument for command. GET is only accepted argument name\r\n".to_vec()
    );
}

#[test]
fn pipelined_requests_are_consumed_one_at_a_time() {
    let mut store = Store::new();
    let mut buf = b"*1\r\n$4\r\nPING\r\n*1\r\n$4\r\nPING\r\n".to_vec();
    match session_step(&buf, false, &mut store, 0) {
        StepOutcome::Reply(bytes, used) => {
            assert_eq!(bytes, b"+PONG\r\n".to_vec());
            assert_eq!(used, 14);
            buf.drain(0..used);
        }
        other => panic!("expected a reply, got {:?}", other),
    }
    match session_step(&buf, false, &mut store, 0) {
        StepOutcome::Reply(bytes, used) => {
            assert_eq!(bytes, b"+PONG\r\n".to_vec());
            assert_eq!(used, buf.len());
        }
        other => panic!("expected a reply, got {:?}", other),
    }
}

#[test]
fn partial_request_asks_for_more_bytes() {
    let mut store = Store::new();
    let input = b"*2\r\n$4\r\nECHO\r\n".to_vec();
    assert_eq!(
        session_step(&input, false, &mut store, 0),
        StepOutcome::NeedMore
    );
}

#[test]
fn clean_end_of_stream_is_a_quiet_disconnect() {
    let mut store = Store::new();
    let input = Vec::new();
    assert_eq!(
        session_step(&input, true, &mut store, 0),
        StepOutcome::Disconnected
    );
}

#[test]
fn stream_truncated_mid_request_is_a_protocol_error() {
    let mut store = Store::new();
    let input = b"*2\r\n$4\r\nECHO\r\n".to_vec();
    assert_eq!(
        session_step(&input, true, &mut store, 0),
        StepOutcome::ProtocolError
    );
}

#[test]
fn malformed_bytes_are_a_protocol_error() {
    let mut store = Store::new();
    let input = b"?what\r\n".to_vec();
    assert_eq!(
        session_step(&input, false, &mut store, 0),
        StepOutcome::ProtocolError
    );
}

#[test]
fn from_data_folds_name_and_keeps_payload() {
    let data = DataType::Array(vec![DataType::BulkString(b"PiNg".to_vec())]);
    assert_eq!(Command::from_data(&data), Command::PING);
    let data = DataType::Array(vec![
        DataType::BulkString(b"Echo".to_vec()),
        DataType::BulkString(b"payload".to_vec()),
    ]);
    assert_eq!(Command::from_data(&data), Command::ECHO(b"payload".to_vec()));
    let data = DataType::Array(vec![
        DataType::BulkString(b"set".to_vec()),
        DataType::BulkString(b"k".to_vec()),
        DataType::BulkString(b"v".to_vec()),
        DataType::BulkString(b"px".to_vec()),
        DataType::BulkString(b"250".to_vec()),
    ]);
    assert_eq!(
        Command::from_data(&data),
        Command::SETPX(b"k".to_vec(), b"v".to_vec(), 250)
    );
}
