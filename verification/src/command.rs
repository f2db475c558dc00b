use vstd::prelude::*;
use vstd::string::StrSliceExecFns;
use vstd::string::StringSliceAdditionalSpecFns;

use crate::resp::{dec_val, is_digits, parse_decimal, DataType, ValModel};
use crate::{ascii_lower, bytes_eq, clone_bytes, to_ascii_lower};

verus! {

// ---------------------------------------------------------------------------
// Commands
//
// A command is derived from one decoded protocol value. Validation never
// aborts: a malformed request becomes `Invalid` and is reported to the
// client as an error line while the connection continues.
// ---------------------------------------------------------------------------

/// A validated command, or the reason a request was rejected.
#[derive(Debug, Clone, PartialEq, Eq)]
pub enum Command {
    INVALID(Vec<u8>),
    PING,
    ECHO(Vec<u8>),
    GET(Vec<u8>),
    SET(Vec<u8>, Vec<u8>),
    /// Key, value and a relative time to live in milliseconds.
    SETPX(Vec<u8>, Vec<u8>, u64),
    CONFIGGET(Vec<u8>),
}

/// The mathematical form of a command.
pub enum CmdModel {
    INVALID(Seq<u8>),
    PING,
    ECHO(Seq<u8>),
    GET(Seq<u8>),
    SET(Seq<u8>, Seq<u8>),
    SETPX(Seq<u8>, Seq<u8>, u64),
    CONFIGGET(Seq<u8>),
}

impl Command {
    pub open spec fn model(self) -> CmdModel {
        match self {
            Command::INVALID(m) => CmdModel::INVALID(m@),
            Command::PING => CmdModel::PING,
            Command::ECHO(m) => CmdModel::ECHO(m@),
            Command::GET(k) => CmdModel::GET(k@),
            Command::SET(k, v) => CmdModel::SET(k@, v@),
            Command::SETPX(k, v, ttl) => CmdModel::SETPX(k@, v@, ttl),
            Command::CONFIGGET(name) => CmdModel::CONFIGGET(name@),
        }
    }
}

/// What command a protocol value denotes. The top-level value must be a
/// non-empty array whose first element, case-folded, names the command;
/// arity and argument types are checked in order, first failure wins.
pub open spec fn parse_command(v: ValModel) -> CmdModel {
    match v {
        ValModel::Arr(args) => {
            if args.len() == 0 {
                CmdModel::INVALID(
                    "Invalid data type for command. must be a non-empty array".spec_bytes(),
                )
            } else {
                match args[0] {
                    ValModel::Bulk(raw) => parse_named(ascii_lower(raw), args),
                    _ => CmdModel::INVALID(
                        "Invalid data type for command. must be a bulk string".spec_bytes(),
                    ),
                }
            }
        }
        _ => CmdModel::INVALID("Invalid data type for command. must be an array".spec_bytes()),
    }
}

/// Dispatch on the case-folded command name.
pub open spec fn parse_named(name: Seq<u8>, args: Seq<ValModel>) -> CmdModel {
    if name == "ping".spec_bytes() {
        if args.len() != 1 {
            CmdModel::INVALID(
                "Invalid data type for command. must be an array of length 1".spec_bytes(),
            )
        } else {
            CmdModel::PING
        }
    } else if name == "echo".spec_bytes() {
        if args.len() != 2 {
            CmdModel::INVALID(
                "Invalid data type for command. must be an array of length 2".spec_bytes(),
            )
        } else {
            match args[1] {
                ValModel::Bulk(m) => CmdModel::ECHO(m),
                _ => CmdModel::INVALID(
                    "Invalid data type for command. must be a bulk string".spec_bytes(),
                ),
            }
        }
    } else if name == "get".spec_bytes() {
        if args.len() != 2 {
            CmdModel::INVALID(
                "Invalid data type for command. must be an array of length 2".spec_bytes(),
            )
        } else {
            match args[1] {
                ValModel::Bulk(k) => CmdModel::GET(k),
                _ => CmdModel::INVALID(
                    "Invalid data type for command. must be a bulk string".spec_bytes(),
                ),
            }
        }
    } else if name == "set".spec_bytes() {
        parse_set(args)
    } else if name == "config".spec_bytes() {
        parse_config(args)
    } else {
        CmdModel::INVALID("unknown command".spec_bytes())
    }
}

/// Validation of `SET key value` and `SET key value px ttl`.
pub open spec fn parse_set(args: Seq<ValModel>) -> CmdModel {
    if args.len() != 3 && args.len() != 5 {
        CmdModel::INVALID(
            "Invalid data type for command. must be an array of length 3 or 5".spec_bytes(),
        )
    } else {
        match args[1] {
            ValModel::Bulk(k) => match args[2] {
                ValModel::Bulk(v) => {
                    if args.len() == 3 {
                        CmdModel::SET(k, v)
                    } else {
                        parse_set_px(k, v, args)
                    }
                },
                _ => CmdModel::INVALID(
                    "Invalid data type for command. must be a bulk string".spec_bytes(),
                ),
            },
            _ => CmdModel::INVALID(
                "Invalid data type for command. must be a bulk string".spec_bytes(),
            ),
        }
    }
}

/// Validation of the `px` option: the literal bytes `px` (case-sensitive)
/// followed by an unsigned decimal count of milliseconds.
pub open spec fn parse_set_px(k: Seq<u8>, v: Seq<u8>, args: Seq<ValModel>) -> CmdModel {
    match args[3] {
        ValModel::Bulk(opt) => {
            if opt == "px".spec_bytes() {
                match args[4] {
                    ValModel::Bulk(e) => {
                        if is_digits(e) && dec_val(e) <= u64::MAX {
                            CmdModel::SETPX(k, v, dec_val(e) as u64)
                        } else {
                            CmdModel::INVALID(
                                "Invalid argument for command. PX argument must be an unsigned integer".spec_bytes(),
                            )
                        }
                    },
                    _ => CmdModel::INVALID(
                        "Invalid data type for command. PX argument must be a bulk string".spec_bytes(),
                    ),
                }
            } else {
                CmdModel::INVALID(
                    "Invalid argument for command. PX is only accepted argument name".spec_bytes(),
                )
            }
        },
        _ => CmdModel::INVALID("Invalid data type for command. must be a bulk string".spec_bytes()),
    }
}

/// Validation of `CONFIG GET parameter`.
pub open spec fn parse_config(args: Seq<ValModel>) -> CmdModel {
    if args.len() != 3 {
        CmdModel::INVALID(
            "Invalid data type for command. must be an array of length 3".spec_bytes(),
        )
    } else {
        match args[1] {
            ValModel::Bulk(sub) => {
                if sub == "get".spec_bytes() {
                    match args[2] {
                        ValModel::Bulk(name) => CmdModel::CONFIGGET(name),
                        _ => CmdModel::INVALID(
                            "Invalid data type for command. GET argument must be a bulk string".spec_bytes(),
                        ),
                    }
                } else {
                    CmdModel::INVALID(
                        "Invalid argument for command. GET is only accepted argument name".spec_bytes(),
                    )
                }
            },
            _ => CmdModel::INVALID(
                "Invalid data type for command. must be a bulk string".spec_bytes(),
            ),
        }
    }
}

/// `a` holds exactly the bytes of `s`.
pub fn bytes_eq_str(a: &Vec<u8>, s: &str) -> (r: bool)
    ensures
        r == (a@ == s.spec_bytes()),
{
    let v = s.as_bytes_vec();
    bytes_eq(a, &v)
}

impl Command {
    /// Derive the command a decoded protocol value denotes.
    pub fn from_data(data: &DataType) -> (r: Command)
        ensures
            r.model() == parse_command(data.model()),
    {
        let args = match data {
            DataType::Array(args) => args,
            _ => {
                return Command::INVALID(
                    "Invalid data type for command. must be an array".as_bytes_vec(),
                );
            },
        };
        let ghost args_m = data.model()->Arr_0;
        proof {
            assert(args_m.len() == args@.len());
            assert(forall|i: int| 0 <= i < args@.len() ==> args_m[i] == args@[i].model());
        }
        if args.len() == 0 {
            return Command::INVALID(
                "Invalid data type for command. must be a non-empty array".as_bytes_vec(),
            );
        }
        let raw = match &args[0] {
            DataType::BulkString(raw) => raw,
            _ => {
                return Command::INVALID(
                    "Invalid data type for command. must be a bulk string".as_bytes_vec(),
                );
            },
        };
        let name = to_ascii_lower(raw);
        if bytes_eq_str(&name, "ping") {
            if args.len() != 1 {
                return Command::INVALID(
                    "Invalid data type for command. must be an array of length 1".as_bytes_vec(),
                );
            }
            Command::PING
        } else if bytes_eq_str(&name, "echo") {
            if args.len() != 2 {
                return Command::INVALID(
                    "Invalid data type for command. must be an array of length 2".as_bytes_vec(),
                );
            }
            match &args[1] {
                DataType::BulkString(m) => Command::ECHO(clone_bytes(m)),
                _ => Command::INVALID(
                    "Invalid data type for command. must be a bulk string".as_bytes_vec(),
                ),
            }
        } else if bytes_eq_str(&name, "get") {
            if args.len() != 2 {
                return Command::INVALID(
                    "Invalid data type for command. must be an array of length 2".as_bytes_vec(),
                );
            }
            match &args[1] {
                DataType::BulkString(k) => Command::GET(clone_bytes(k)),
                _ => Command::INVALID(
                    "Invalid data type for command. must be a bulk string".as_bytes_vec(),
                ),
            }
        } else if bytes_eq_str(&name, "set") {
            if args.len() != 3 && args.len() != 5 {
                return Command::INVALID(
                    "Invalid data type for command. must be an array of length 3 or 5".as_bytes_vec(),
                );
            }
            let key = match &args[1] {
                DataType::BulkString(k) => k,
                _ => {
                    return Command::INVALID(
                        "Invalid data type for command. must be a bulk string".as_bytes_vec(),
                    );
                },
            };
            let value = match &args[2] {
                DataType::BulkString(v) => v,
                _ => {
                    return Command::INVALID(
                        "Invalid data type for command. must be a bulk string".as_bytes_vec(),
                    );
                },
            };
            if args.len() == 3 {
                Command::SET(clone_bytes(key), clone_bytes(value))
            } else {
                let opt = match &args[3] {
                    DataType::BulkString(o) => o,
                    _ => {
                        return Command::INVALID(
                            "Invalid data type for command. must be a bulk string".as_bytes_vec(),
                        );
                    },
                };
                if !bytes_eq_str(opt, "px") {
                    return Command::INVALID(
                        "Invalid argument for command. PX is only accepted argument name".as_bytes_vec(),
                    );
                }
                let expiry = match &args[4] {
                    DataType::BulkString(e) => e,
                    _ => {
                        return Command::INVALID(
                            "Invalid data type for command. PX argument must be a bulk string".as_bytes_vec(),
                        );
                    },
                };
                proof {
                    assert(expiry@.subrange(0, expiry@.len() as int) =~= expiry@);
                }
                match parse_decimal(expiry, 0, expiry.len()) {
                    Some(ms) => Command::SETPX(clone_bytes(key), clone_bytes(value), ms),
                    None => Command::INVALID(
                        "Invalid argument for command. PX argument must be an unsigned integer".as_bytes_vec(),
                    ),
                }
            }
        } else if bytes_eq_str(&name, "config") {
            if args.len() != 3 {
                return Command::INVALID(
                    "Invalid data type for command. must be an array of length 3".as_bytes_vec(),
                );
            }
            let sub = match &args[1] {
                DataType::BulkString(s) => s,
                _ => {
                    return Command::INVALID(
                        "Invalid data type for command. must be a bulk string".as_bytes_vec(),
                    );
                },
            };
            if !bytes_eq_str(sub, "get") {
                return Command::INVALID(
                    "Invalid argument for command. GET is only accepted argument name".as_bytes_vec(),
                );
            }
            match &args[2] {
                DataType::BulkString(name2) => Command::CONFIGGET(clone_bytes(name2)),
                _ => Command::INVALID(
                    "Invalid data type for command. GET argument must be a bulk string".as_bytes_vec(),
                ),
            }
        } else {
            Command::INVALID("unknown command".as_bytes_vec())
        }
    }
}

} // verus!
