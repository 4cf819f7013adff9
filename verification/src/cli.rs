//! Command lines and control decisions of the two transfer tools: the file
//! sender (one file over one TCP connection) and the reverse tunnel (a
//! public port forwarded to a client's local service).
use vstd::prelude::*;
use crate::text::{str_eq, push_str};

verus! {

/// What the file sender is asked to do.
pub enum SenderCommand {
    /// Too few arguments: print this usage line and exit with status 1.
    Usage(String),
    /// Receive one file on `addr` into `path`.
    Server { addr: String, path: String },
    /// Send the file at `path` to `addr`.
    Client { addr: String, path: String },
    /// The mode is neither `client` nor `server`: exit with status 1.
    BadMode,
}

fn copy_string(s: &String) -> (r: String)
    ensures
        r@ == s@,
{
    let mut r = String::new();
    push_str(&mut r, s.as_str());
    r
}

/// The usage line of the file sender for a program name.
pub open spec fn sender_usage(program: Seq<char>) -> Seq<char> {
    "Try: "@ + program + " <IP:PORT> <FILE_PATH> <mode: client|server>"@
}

/// The file sender's command line: `<addr> <path> <mode>` after the
/// program name; the mode is `server` or `client`.
pub fn sender_command(args: &Vec<String>) -> (r: SenderCommand)
    requires
        args@.len() >= 1,
    ensures
        args@.len() < 4 ==> (r matches SenderCommand::Usage(u) && u@ == sender_usage(args@[0]@)),
        args@.len() >= 4 && args@[3]@ == "server"@ ==> (r matches SenderCommand::Server { addr, path } && addr@
            == args@[1]@ && path@ == args@[2]@),
        args@.len() >= 4 && args@[3]@ == "client"@ ==> (r matches SenderCommand::Client { addr, path } && addr@
            == args@[1]@ && path@ == args@[2]@),
        args@.len() >= 4 && args@[3]@ != "server"@ && args@[3]@ != "client"@ ==> r is BadMode,
{
    if args.len() < 4 {
        let mut u = String::new();
        push_str(&mut u, "Try: ");
        push_str(&mut u, args[0].as_str());
        push_str(&mut u, " <IP:PORT> <FILE_PATH> <mode: client|server>");
        return SenderCommand::Usage(u);
    }
    proof {
        reveal_strlit("server");
        reveal_strlit("client");
        assert("server"@[0] != "client"@[0]);
    }
    let mode = args[3].as_str();
    if str_eq(mode, "server") {
        SenderCommand::Server { addr: copy_string(&args[1]), path: copy_string(&args[2]) }
    } else if str_eq(mode, "client") {
        SenderCommand::Client { addr: copy_string(&args[1]), path: copy_string(&args[2]) }
    } else {
        SenderCommand::BadMode
    }
}

/// What the tunnel tool is asked to do.
pub enum TunnelCommand {
    /// Print the usage text.
    Usage,
    /// Serve: control port and public port.
    Server { control_port: String, public_port: String },
    /// Connect: the server's control address and the local service's address.
    Client { server_addr: String, local_addr: String },
}

/// An optional argument, or its default.
pub open spec fn arg_or(args: Seq<String>, i: int, default: Seq<char>) -> Seq<char> {
    if i < args.len() {
        args[i]@
    } else {
        default
    }
}

fn arg_or_default(args: &Vec<String>, i: usize, default: &str) -> (r: String)
    ensures
        r@ == arg_or(args@, i as int, default@),
{
    if i < args.len() {
        copy_string(&args[i])
    } else {
        let mut r = String::new();
        push_str(&mut r, default);
        r
    }
}

/// The tunnel tool's command line: `server [control_port] [public_port]`
/// (8001 and 8080 by default) or `client [server_addr] [local_addr]`
/// (`127.0.0.1:8001` and `127.0.0.1:3000` by default); anything else asks
/// for the usage text.
pub fn tunnel_command(args: &Vec<String>) -> (r: TunnelCommand)
    ensures
        args@.len() < 2 ==> r is Usage,
        args@.len() >= 2 && args@[1]@ == "server"@ ==> (r matches TunnelCommand::Server {
            control_port,
            public_port,
        } && control_port@ == arg_or(args@, 2, "8001"@) && public_port@ == arg_or(args@, 3, "8080"@)),
        args@.len() >= 2 && args@[1]@ == "client"@ ==> (r matches TunnelCommand::Client {
            server_addr,
            local_addr,
        } && server_addr@ == arg_or(args@, 2, "127.0.0.1:8001"@) && local_addr@ == arg_or(
            args@,
            3,
            "127.0.0.1:3000"@,
        )),
        args@.len() >= 2 && args@[1]@ != "server"@ && args@[1]@ != "client"@ ==> r is Usage,
{
    if args.len() < 2 {
        return TunnelCommand::Usage;
    }
    proof {
        reveal_strlit("server");
        reveal_strlit("client");
        assert("server"@[0] != "client"@[0]);
    }
    let mode = args[1].as_str();
    if str_eq(mode, "server") {
        TunnelCommand::Server {
            control_port: arg_or_default(args, 2, "8001"),
            public_port: arg_or_default(args, 3, "8080"),
        }
    } else if str_eq(mode, "client") {
        TunnelCommand::Client {
            server_addr: arg_or_default(args, 2, "127.0.0.1:8001"),
            local_addr: arg_or_default(args, 3, "127.0.0.1:3000"),
        }
    } else {
        TunnelCommand::Usage
    }
}

/// The address a tunnel server listens on for a port.
pub fn listen_address(port: &str) -> (r: String)
    ensures
        r@ == "0.0.0.0:"@ + port@,
{
    let mut r = String::new();
    push_str(&mut r, "0.0.0.0:");
    push_str(&mut r, port);
    r
}

/// The control byte by which the server asks the client for a tunnel.
pub const TUNNEL_REQUEST: u8 = 1;

/// What the tunnel client does after a read on the control connection.
#[derive(Clone, Copy, PartialEq, Eq, Structural, Debug)]
pub enum ClientAction {
    /// The server closed the connection: stop.
    Stop,
    /// Open a data connection to the server and bridge it to the local service.
    OpenTunnel,
    /// Any other byte: keep reading.
    Ignore,
}

/// The client's reaction to reading `n` bytes, the first being `byte`.
pub fn client_action(n: usize, byte: u8) -> (r: ClientAction)
    ensures
        n == 0 ==> r == ClientAction::Stop,
        n > 0 && byte == TUNNEL_REQUEST ==> r == ClientAction::OpenTunnel,
        n > 0 && byte != TUNNEL_REQUEST ==> r == ClientAction::Ignore,
{
    if n == 0 {
        ClientAction::Stop
    } else if byte == TUNNEL_REQUEST {
        ClientAction::OpenTunnel
    } else {
        ClientAction::Ignore
    }
}

} // verus!
