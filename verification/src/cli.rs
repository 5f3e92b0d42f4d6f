//! The command line of the consensus process: the port of the bridge to
//! dial.

use vstd::prelude::*;
use crate::bootstrap::texts_of;
use crate::config::text_of;
use crate::text::{number_value, parse_number, str_equal};

verus! {

/// The port that the consensus process dials unless told otherwise.
pub const DEFAULT_IPC_PORT: u16 = 9000;

/// What the command line of the consensus process asks for.
#[derive(Debug, Clone, PartialEq, Eq)]
pub enum IpcArgs {
    /// Run and dial the bridge on this port.
    Run(u16),
    /// Show the help text and stop.
    Help,
    /// Stop: the value given for the port is no port.
    InvalidPort(String),
    /// Stop: the option for the port is the last argument.
    MissingPort,
}

/// An `IpcArgs` as a mathematical value.
pub enum IpcArgsView {
    Run(u16),
    Help,
    InvalidPort(Seq<char>),
    MissingPort,
}

impl View for IpcArgs {
    type V = IpcArgsView;

    open spec fn view(&self) -> IpcArgsView {
        match self {
            IpcArgs::Run(p) => IpcArgsView::Run(*p),
            IpcArgs::Help => IpcArgsView::Help,
            IpcArgs::InvalidPort(s) => IpcArgsView::InvalidPort(s@),
            IpcArgs::MissingPort => IpcArgsView::MissingPort,
        }
    }
}

/// The port that `env_port`, the value of the environment variable
/// `IPC_PORT`, makes of `port`: its own, where it is set to a port.
pub open spec fn port_with_env(port: u16, env_port: Option<Seq<char>>) -> u16 {
    match env_port {
        Some(s) => match number_value(s, u16::MAX as nat) {
            Some(v) => v as u16,
            None => port,
        },
        None => port,
    }
}

/// What the arguments from index `i` on ask for, the earlier ones having
/// set the port to `port`: every `--port` or `-p` takes the argument after
/// it as the port, and `--help` or `-h` ends the reading. Where the reading
/// comes to the end, the environment has the last word on the port.
pub open spec fn read_ipc_args(
    args: Seq<Seq<char>>,
    i: int,
    port: u16,
    env_port: Option<Seq<char>>,
) -> IpcArgsView
    decreases args.len() - i,
{
    if i < 0 || i >= args.len() {
        IpcArgsView::Run(port_with_env(port, env_port))
    } else if args[i] == "--port"@ || args[i] == "-p"@ {
        if i + 1 < args.len() {
            match number_value(args[i + 1], u16::MAX as nat) {
                Some(v) => read_ipc_args(args, i + 1, v as u16, env_port),
                None => IpcArgsView::InvalidPort(args[i + 1]),
            }
        } else {
            IpcArgsView::MissingPort
        }
    } else if args[i] == "--help"@ || args[i] == "-h"@ {
        IpcArgsView::Help
    } else {
        read_ipc_args(args, i + 1, port, env_port)
    }
}

/// Reads the command line `args` of the consensus process; `env_port` is
/// the value of the environment variable `IPC_PORT`, if it is set.
pub fn parse_ipc_args(args: &Vec<String>, env_port: &Option<String>) -> (r: IpcArgs)
    ensures
        r@ == read_ipc_args(texts_of(args@), 0, DEFAULT_IPC_PORT, text_of(*env_port)),
{
    let ghost texts = texts_of(args@);
    let ghost env = text_of(*env_port);
    let ghost goal = read_ipc_args(texts, 0, DEFAULT_IPC_PORT, env);
    let n = args.len();
    let mut port = DEFAULT_IPC_PORT;
    let mut i: usize = 0;
    while i < n
        invariant
            n == args@.len(),
            texts == texts_of(args@),
            env == text_of(*env_port),
            i <= n,
            goal == read_ipc_args(texts, 0, DEFAULT_IPC_PORT, env),
            goal == read_ipc_args(texts, i as int, port, env),
        decreases n - i,
    {
        let a = args[i].as_str();
        assert(texts[i as int] == a@);
        if str_equal(a, "--port") || str_equal(a, "-p") {
            if i + 1 < n {
                assert(texts[i + 1] == args@[i + 1]@);
                match parse_number(args[i + 1].as_str(), u16::MAX as u64) {
                    Some(v) => {
                        port = v as u16;
                    },
                    None => {
                        return IpcArgs::InvalidPort(args[i + 1].clone());
                    },
                }
            } else {
                return IpcArgs::MissingPort;
            }
        } else if str_equal(a, "--help") || str_equal(a, "-h") {
            return IpcArgs::Help;
        }
        i += 1;
    }
    match env_port {
        Some(s) => match parse_number(s.as_str(), u16::MAX as u64) {
            Some(v) => IpcArgs::Run(v as u16),
            None => IpcArgs::Run(port),
        },
        None => IpcArgs::Run(port),
    }
}

} // verus!
