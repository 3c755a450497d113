//! Start-up and supervision decisions of the backend: the port it listens on, its command
//! line, whether it serves the web interface, how its server loop reacts to events, and
//! when the desktop shell starts it again.

use vstd::prelude::*;
use crate::numbers::{parse_unsigned, parse_usize_chars};
use crate::text::{chars_of, str_equals};
use crate::database::string_list;

verus! {

/// The port chosen from a random seed: between 10000 and 60000.
pub fn port_from_seed(seed: u128) -> (r: u16)
    ensures
        r == 10000 + seed % 50001,
        10000 <= r <= 60000,
{
    let m = (seed % 50001) as u16;
    10000 + m
}

/// A `u16` written in decimal, as `str::parse::<u16>` reads it.
pub open spec fn parse_u16(s: Seq<char>) -> Option<u16> {
    match parse_unsigned(s) {
        Some(n) => if n <= 65535 {
            Some(n as u16)
        } else {
            None
        },
        None => None,
    }
}

/// What the command line says of the port.
#[derive(Debug, Clone, Copy, PartialEq, Eq)]
pub enum PortArg {
    /// No `--port`: a free port is chosen.
    Absent,
    Port(u16),
    /// `--port` without a valid value: the program stops with an error.
    Invalid,
}

/// The position of the first `--port` among the arguments, or -1.
pub open spec fn port_flag_index(args: Seq<Seq<char>>, from: int) -> int
    decreases args.len() - from,
{
    if from < 0 || from >= args.len() {
        -1
    } else if args[from] == "--port"@ {
        from
    } else {
        port_flag_index(args, from + 1)
    }
}

/// The port the command line asks for: the argument after the first `--port`.
pub open spec fn port_arg_of(args: Seq<Seq<char>>) -> PortArg {
    let i = port_flag_index(args, 0);
    if i < 0 {
        PortArg::Absent
    } else if i + 1 < args.len() && parse_u16(args[i + 1]) is Some {
        PortArg::Port(parse_u16(args[i + 1])->0)
    } else {
        PortArg::Invalid
    }
}

/// Reads the port from the command line.
pub fn port_arg(args: &Vec<String>) -> (r: PortArg)
    ensures
        r == port_arg_of(string_list(args@)),
{
    let ghost a = string_list(args@);
    let mut i: usize = 0;
    while i < args.len()
        invariant
            i <= args.len(),
            a == string_list(args@),
            port_flag_index(a, 0) == port_flag_index(a, i as int),
        decreases args.len() - i,
    {
        if str_equals(args[i].as_str(), "--port") {
            assert(a[i as int] == "--port"@);
            if i + 1 < args.len() {
                assert(a[i + 1] == args@[i + 1]@);
                match parse_usize_chars(&chars_of(args[i + 1].as_str())) {
                    Some(n) => {
                        if n <= 65535 {
                            return PortArg::Port(n as u16);
                        }
                    },
                    None => {},
                }
            }
            return PortArg::Invalid;
        }
        assert(a[i as int] == args@[i as int]@);
        i = i + 1;
    }
    PortArg::Absent
}

/// The backend serves the web interface itself unless the desktop shell launched it.
pub fn serves_web_interface(launch_mode: Option<String>) -> (r: bool)
    ensures
        r == match launch_mode {
            Some(m) => m@ != "tauri"@,
            None => true,
        },
{
    match launch_mode {
        Some(m) => !str_equals(m.as_str(), "tauri"),
        None => true,
    }
}

/// The exit code when the port cannot be bound: 2 when it is in use (the shell then picks
/// another); `None` for other errors, which are reported.
pub fn bind_failure_exit_code(addr_in_use: bool) -> (r: Option<i32>)
    ensures
        r == if addr_in_use {
            Some(2i32)
        } else {
            None
        },
{
    if addr_in_use {
        Some(2)
    } else {
        None
    }
}

/// What wakes the server loop.
#[derive(Debug, Clone, Copy, PartialEq, Eq)]
pub enum ServerEvent {
    /// The exit channel changed.
    ShutdownSignal,
    /// Ctrl-C.
    Interrupt,
    /// SIGTERM.
    Terminate,
    /// A connection came in.
    Accepted,
    /// Accepting failed.
    AcceptFailed,
}

/// What the server loop does.
#[derive(Debug, Clone, Copy, PartialEq, Eq)]
pub enum ServerAction {
    /// Leave the loop; ask the rest of the program to exit too when set.
    Exit { request_shutdown: bool },
    /// Serve the connection on a task of its own.
    Serve,
    /// Log and go on.
    Continue,
}

pub open spec fn server_action_of(e: ServerEvent) -> ServerAction {
    match e {
        ServerEvent::ShutdownSignal => ServerAction::Exit { request_shutdown: false },
        ServerEvent::Interrupt => ServerAction::Exit { request_shutdown: true },
        ServerEvent::Terminate => ServerAction::Exit { request_shutdown: true },
        ServerEvent::Accepted => ServerAction::Serve,
        ServerEvent::AcceptFailed => ServerAction::Continue,
    }
}

/// What the server loop does on an event: it leaves on the exit signal, and on Ctrl-C or
/// SIGTERM after asking for a graceful exit; it serves connections and goes on after a
/// failed accept.
pub fn server_step(e: ServerEvent) -> (r: ServerAction)
    ensures
        r == server_action_of(e),
{
    match e {
        ServerEvent::ShutdownSignal => ServerAction::Exit { request_shutdown: false },
        ServerEvent::Interrupt => ServerAction::Exit { request_shutdown: true },
        ServerEvent::Terminate => ServerAction::Exit { request_shutdown: true },
        ServerEvent::Accepted => ServerAction::Serve,
        ServerEvent::AcceptFailed => ServerAction::Continue,
    }
}

/// The most times the shell starts the backend again after a port conflict.
pub const MAX_RESPAWNS: u32 = 5;

/// The shell starts the backend again when it exited with code 2 (its port was taken) and
/// fewer than five restarts were made.
pub fn respawn_after_exit(code: Option<i32>, attempts: u32) -> (r: bool)
    ensures
        r == (code == Some(2i32) && attempts < MAX_RESPAWNS),
{
    match code {
        Some(c) => c == 2 && attempts < MAX_RESPAWNS,
        None => false,
    }
}

/// How long the shell waits for the backend to exit before it exits itself, in milliseconds.
pub const EXIT_WAIT_MS: u64 = 30000;

/// When the shell is asked to exit, it holds the exit back while the backend still runs:
/// it has not exited and the shell still holds its process.
pub fn hold_exit(backend_exited: bool, child_gone: bool) -> (r: bool)
    ensures
        r == (!backend_exited && !child_gone),
{
    !backend_exited && !child_gone
}

/// While it holds the exit back, the shell exits once the backend has exited or the wait
/// has lasted `EXIT_WAIT_MS`.
pub fn exit_wait_over(backend_exited: bool, waited_ms: u64) -> (r: bool)
    ensures
        r == (backend_exited || waited_ms >= EXIT_WAIT_MS),
{
    backend_exited || waited_ms >= EXIT_WAIT_MS
}

} // verus!
