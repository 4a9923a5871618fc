//! The command surface: which mode an invocation selects.

use vstd::prelude::*;
use crate::message::{CborSocketExampleError, ErrorView};

verus! {

/// The mode of a run.
#[derive(Clone, Copy, Debug, PartialEq, Eq, Structural)]
pub enum Mode {
    /// Run the server loop.
    Serve,
    /// Run one client round trip.
    Connect,
}

/// A valid invocation: the mode, and the path of the socket.
#[derive(Clone, Debug, PartialEq, Eq)]
pub struct Invocation {
    pub mode: Mode,
    pub socket_path: String,
}

/// The mode that the word `word` names, if it names one.
pub open spec fn mode_of(word: Seq<char>) -> Option<Mode> {
    if word == "serve"@ {
        Some(Mode::Serve)
    } else if word == "connect"@ {
        Some(Mode::Connect)
    } else {
        None
    }
}

/// Reads the words of an invocation: the program's name, the mode, and the
/// socket path. Any other shape, or a word that names no mode, is the
/// generic failure.
pub fn select_mode(args: &Vec<String>) -> (r: Result<Invocation, CborSocketExampleError>)
    ensures
        r is Ok <==> args.len() == 3 && mode_of(args[1]@) is Some,
        r matches Ok(invocation) ==> Some(invocation.mode) == mode_of(args[1]@)
            && invocation.socket_path@ == args[2]@,
        r matches Err(e) ==> e@ == ErrorView::StuffBroke,
{
    if args.len() != 3 {
        return Err(CborSocketExampleError::StuffBroke);
    }
    let serve = "serve".to_string();
    let connect = "connect".to_string();
    let mode = if args[1] == serve {
        Mode::Serve
    } else if args[1] == connect {
        Mode::Connect
    } else {
        return Err(CborSocketExampleError::StuffBroke);
    };
    Ok(Invocation { mode, socket_path: args[2].clone() })
}

} // verus!
