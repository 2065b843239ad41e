//! The command that opens a page in the system's browser.

use vstd::prelude::*;

verus! {

/// The operating systems the reader knows how to open a browser on.
#[derive(Debug, Clone, Copy, PartialEq, Eq, Structural)]
pub enum Platform {
    MacOs,
    Windows,
    Unix,
}

/// A program and its arguments.
pub struct BrowserCommand {
    pub program: String,
    pub args: Vec<String>,
}

pub open spec fn string_views(v: Seq<String>) -> Seq<Seq<char>> {
    v.map_values(|s: String| s@)
}

/// The command that opens `target`: `open` on macOS, `cmd /C start ""` on
/// Windows, `xdg-open` elsewhere.
pub open spec fn browser_command_for(target: Seq<char>, platform: Platform) -> (
    Seq<char>,
    Seq<Seq<char>>,
) {
    match platform {
        Platform::MacOs => ("open"@, seq![target]),
        Platform::Windows => ("cmd"@, seq!["/C"@, "start"@, ""@, target]),
        Platform::Unix => ("xdg-open"@, seq![target]),
    }
}

fn owned(s: &str) -> (out: String)
    ensures
        out@ == s@,
{
    let mut out = String::new();
    out.push_str(s);
    out
}

/// The command that opens `target` in a browser: see `browser_command_for`.
pub fn browser_command(target: &str, platform: Platform) -> (cmd: BrowserCommand)
    ensures
        (cmd.program@, string_views(cmd.args@)) == browser_command_for(target@, platform),
{
    let mut args: Vec<String> = Vec::new();
    let program = match platform {
        Platform::MacOs => owned("open"),
        Platform::Windows => {
            args.push(owned("/C"));
            args.push(owned("start"));
            args.push(owned(""));
            owned("cmd")
        },
        Platform::Unix => owned("xdg-open"),
    };
    args.push(owned(target));
    let cmd = BrowserCommand { program, args };
    assert(string_views(cmd.args@) =~= browser_command_for(target@, platform).1);
    cmd
}

/// What the reader says when the browser command fails.
pub fn browser_failure(target: &str) -> (message: String)
    ensures
        message@ == "failed to open browser for "@ + target@,
{
    let mut message = String::new();
    message.push_str("failed to open browser for ");
    message.push_str(target);
    message
}

/// Which program opens a page on each platform, and with what arguments:
/// `open` with the target on macOS, `cmd /C start "" target` on Windows,
/// and `xdg-open` with the target elsewhere.
pub proof fn browser_programs(target: Seq<char>)
    ensures
        browser_command_for(target, Platform::MacOs) == ("open"@, seq![target]),
        browser_command_for(target, Platform::Windows) == ("cmd"@, seq!["/C"@, "start"@, ""@, target]),
        browser_command_for(target, Platform::Unix) == ("xdg-open"@, seq![target]),
        browser_command_for(target, Platform::MacOs).0 != browser_command_for(target, Platform::Unix).0,
{
    reveal_strlit("open");
    reveal_strlit("xdg-open");
    assert("open"@.len() != "xdg-open"@.len());
}

} // verus!
