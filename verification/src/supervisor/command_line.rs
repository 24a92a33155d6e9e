//! The commands, and the signal that ends the daemon.

use crate::readiness::{same_token, Readiness};
use crate::text::{same_text, texts};
use coreshift_core::reactor::Token;
use vstd::prelude::*;

verus! {

/// What the program is asked to do.
#[derive(Clone, Copy, Debug, PartialEq, Eq, Structural)]
pub enum Command {
    /// To show how it is used: there is no command, or one that is not known.
    Usage,
    Daemon,
    Stop,
    Restart,
    Status,
}

/// What the program is asked to do by its arguments, the first of which is its own name.
pub open spec fn command_of(args: Seq<Seq<char>>) -> Command {
    if args.len() < 2 {
        Command::Usage
    } else if args[1] == "daemon"@ {
        Command::Daemon
    } else if args[1] == "stop"@ {
        Command::Stop
    } else if args[1] == "restart"@ {
        Command::Restart
    } else if args[1] == "status"@ {
        Command::Status
    } else {
        Command::Usage
    }
}

/// What the program is asked to do by its arguments.
pub fn command(args: &Vec<String>) -> (r: Command)
    ensures
        r == command_of(texts(args@)),
{
    if args.len() < 2 {
        return Command::Usage;
    }
    let word: &str = args[1].as_str();
    if same_text(word, "daemon") {
        Command::Daemon
    } else if same_text(word, "stop") {
        Command::Stop
    } else if same_text(word, "restart") {
        Command::Restart
    } else if same_text(word, "status") {
        Command::Status
    } else {
        Command::Usage
    }
}

/// How the program is used, line by line.
pub open spec fn usage_lines() -> Seq<Seq<char>> {
    seq![
        "Usage: corepolicy <command>"@,
        "Commands:"@,
        "  daemon   Start the policy daemon (supervised, detached)"@,
        "  stop     Stop the running daemon"@,
        "  restart  Stop then start the daemon"@,
        "  status   Show daemon state and property snapshot"@,
    ]
}

/// How the program is used, line by line.
pub fn print_usage() -> (r: Vec<String>)
    ensures
        texts(r@) == usage_lines(),
{
    let mut lines: Vec<String> = Vec::new();
    lines.push("Usage: corepolicy <command>".to_string());
    lines.push("Commands:".to_string());
    lines.push("  daemon   Start the policy daemon (supervised, detached)".to_string());
    lines.push("  stop     Stop the running daemon".to_string());
    lines.push("  restart  Stop then start the daemon".to_string());
    lines.push("  status   Show daemon state and property snapshot".to_string());
    assert(texts(lines@) == usage_lines());
    lines
}

/// What is told of an error.
pub fn error_line(message: &str) -> (r: String)
    ensures
        r@ == "error: "@ + message@,
{
    let mut line: String = "error: ".to_string();
    line.append(message);
    line
}

/// Whether an event is the signal to end, which is then read; the daemon ends once it was read.
pub fn is_signal(event: &Readiness, signal: Token) -> (r: bool)
    ensures
        r == (event.token == signal),
{
    same_token(event.token, signal)
}

/// The word after the program's name decides alone: each of the four commands by its own name, and
/// anything else, or nothing, is answered with how the program is used.
pub proof fn law_the_first_word_decides(args: Seq<Seq<char>>, others: Seq<Seq<char>>)
    ensures
        args.len() < 2 ==> command_of(args) == Command::Usage,
        args.len() >= 2 && others.len() >= 2 && args[1] == others[1] ==> command_of(args)
            == command_of(others),
        command_of(args) == Command::Daemon <==> args.len() >= 2 && args[1] == "daemon"@,
        command_of(args) == Command::Stop <==> args.len() >= 2 && args[1] == "stop"@,
        command_of(args) == Command::Restart <==> args.len() >= 2 && args[1] == "restart"@,
        command_of(args) == Command::Status <==> args.len() >= 2 && args[1] == "status"@,
{
    reveal_strlit("daemon");
    reveal_strlit("stop");
    reveal_strlit("restart");
    reveal_strlit("status");
    assert("daemon"@[0] == 'd');
    assert("stop"@.len() == 4);
    assert("restart"@[0] == 'r');
    assert("status"@[0] == 's');
    assert("status"@.len() == 6);
}

} // verus!
