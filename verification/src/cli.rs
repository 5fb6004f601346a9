//! Command lines: the CLI and the system tools that the shell runs, and where
//! they are looked for.
use vstd::prelude::*;

use crate::net::DaemonAddr;
use crate::text::{decimal, owned, to_decimal, views};
use crate::web::Platform;

verus! {

broadcast use vstd::string::group_string_axioms;

/// The arguments that start a server on a free port.
pub fn spawn_args(port: u16) -> (r: Vec<String>)
    ensures
        views(r@) == seq!["web"@, "--port"@, decimal(port as nat), "--no-open"@],
{
    let mut out: Vec<String> = Vec::new();
    out.push(owned("web"));
    out.push(owned("--port"));
    out.push(to_decimal(port as u64));
    out.push(owned("--no-open"));
    proof {
        assert(views(out@) =~= seq!["web"@, "--port"@, decimal(port as nat), "--no-open"@]);
    }
    out
}

/// The arguments that start a server at an address.
pub fn restart_args(addr: &DaemonAddr) -> (r: Vec<String>)
    ensures
        views(r@) == seq![
            "web"@,
            "--host"@,
            addr@.host,
            "--port"@,
            decimal(addr@.port as nat),
            "--no-open"@,
        ],
{
    let mut out: Vec<String> = Vec::new();
    out.push(owned("web"));
    out.push(owned("--host"));
    out.push(addr.host.clone());
    out.push(owned("--port"));
    out.push(to_decimal(addr.port as u64));
    out.push(owned("--no-open"));
    proof {
        assert(views(out@) =~= seq![
            "web"@,
            "--host"@,
            addr@.host,
            "--port"@,
            decimal(addr@.port as nat),
            "--no-open"@,
        ]);
    }
    out
}

/// A place outside PATH where the CLI may be installed.
pub enum Spot {
    /// Below the user's home.
    Home(&'static str),
    /// An absolute path.
    Root(&'static str),
}

/// What a spot says: whether it is below home, and the path.
pub open spec fn spot_view(s: Spot) -> (bool, Seq<char>) {
    match s {
        Spot::Home(p) => (true, p@),
        Spot::Root(p) => (false, p@),
    }
}

/// The CLI's file name.
pub fn kimi_exe(p: Platform) -> (r: &'static str)
    ensures
        r@ == if p == Platform::Windows {
            "kimi.exe"@
        } else {
            "kimi"@
        },
{
    match p {
        Platform::Windows => "kimi.exe",
        _ => "kimi",
    }
}

/// Well-known install locations of the CLI, in order. GUI apps get a minimal
/// PATH, so these are the fallback.
pub fn kimi_spots(p: Platform) -> (r: Vec<Spot>)
    ensures
        r@.map_values(|s: Spot| spot_view(s)) == if p == Platform::Windows {
            seq![(true, ".kimi-code/bin/kimi.exe"@)]
        } else {
            seq![
                (true, ".kimi-code/bin/kimi"@),
                (false, "/opt/homebrew/bin/kimi"@),
                (false, "/usr/local/bin/kimi"@),
            ]
        },
{
    let mut out: Vec<Spot> = Vec::new();
    match p {
        Platform::Windows => {
            out.push(Spot::Home(".kimi-code/bin/kimi.exe"));
            proof {
                assert(out@.map_values(|s: Spot| spot_view(s)) =~= seq![
                    (true, ".kimi-code/bin/kimi.exe"@),
                ]);
            }
        },
        _ => {
            out.push(Spot::Home(".kimi-code/bin/kimi"));
            out.push(Spot::Root("/opt/homebrew/bin/kimi"));
            out.push(Spot::Root("/usr/local/bin/kimi"));
            proof {
                assert(out@.map_values(|s: Spot| spot_view(s)) =~= seq![
                    (true, ".kimi-code/bin/kimi"@),
                    (false, "/opt/homebrew/bin/kimi"@),
                    (false, "/usr/local/bin/kimi"@),
                ]);
            }
        },
    }
    out
}

/// Where a tool is looked for outside PATH, in order.
pub fn tool_spots(name: &str) -> (r: Vec<String>)
    ensures
        views(r@) == seq!["/opt/homebrew/bin/"@ + name@, "/usr/local/bin/"@ + name@],
{
    let mut brew = owned("/opt/homebrew/bin/");
    brew.append(name);
    let mut local = owned("/usr/local/bin/");
    local.append(name);
    let mut out: Vec<String> = Vec::new();
    out.push(brew);
    out.push(local);
    proof {
        assert(views(out@) =~= seq!["/opt/homebrew/bin/"@ + name@, "/usr/local/bin/"@ + name@]);
    }
    out
}

/// A program and its arguments.
pub struct CommandLine {
    pub program: &'static str,
    pub args: Vec<String>,
}

/// The command that opens a link in the system browser.
pub fn browser_command(url: &str, p: Platform) -> (r: CommandLine)
    ensures
        match p {
            Platform::MacOs => r.program@ == "open"@ && views(r.args@) == seq![url@],
            Platform::Windows => r.program@ == "rundll32"@ && views(r.args@) == seq![
                "url.dll,FileProtocolHandler"@,
                url@,
            ],
            Platform::Other => r.program@ == "xdg-open"@ && views(r.args@) == seq![url@],
        },
{
    let mut args: Vec<String> = Vec::new();
    match p {
        Platform::MacOs => {
            args.push(owned(url));
            proof {
                assert(views(args@) =~= seq![url@]);
            }
            CommandLine { program: "open", args }
        },
        Platform::Windows => {
            args.push(owned("url.dll,FileProtocolHandler"));
            args.push(owned(url));
            proof {
                assert(views(args@) =~= seq!["url.dll,FileProtocolHandler"@, url@]);
            }
            CommandLine { program: "rundll32", args }
        },
        Platform::Other => {
            args.push(owned(url));
            proof {
                assert(views(args@) =~= seq![url@]);
            }
            CommandLine { program: "xdg-open", args }
        },
    }
}

/// The command that asks a process to exit, so that its own shutdown runs.
pub fn terminate_command(pid: u32, p: Platform) -> (r: CommandLine)
    ensures
        if p == Platform::Windows {
            r.program@ == "taskkill"@ && views(r.args@) == seq!["/PID"@, decimal(pid as nat)]
        } else {
            r.program@ == "kill"@ && views(r.args@) == seq![decimal(pid as nat)]
        },
{
    let mut args: Vec<String> = Vec::new();
    match p {
        Platform::Windows => {
            args.push(owned("/PID"));
            args.push(to_decimal(pid as u64));
            proof {
                assert(views(args@) =~= seq!["/PID"@, decimal(pid as nat)]);
            }
            CommandLine { program: "taskkill", args }
        },
        _ => {
            args.push(to_decimal(pid as u64));
            proof {
                assert(views(args@) =~= seq![decimal(pid as nat)]);
            }
            CommandLine { program: "kill", args }
        },
    }
}

/// A spot is below home or at the root as it says, at its own path.
pub proof fn spots_are_where_they_say(s: Spot)
    ensures
        match s {
            Spot::Home(p) => spot_view(s).0 && spot_view(s).1 == p@,
            Spot::Root(p) => !spot_view(s).0 && spot_view(s).1 == p@,
        },
{
}

} // verus!
