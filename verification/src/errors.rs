//! Errors of the command line tool and their messages.

use vstd::prelude::*;

verus! {

/// Leaving the program with a message.
pub struct Exit;

/// The one distinction the messages make between the ways opening a file can
/// fail: whether the file was not found.
#[derive(Clone, Copy, PartialEq, Eq, Structural)]
pub enum OpenErrorKind {
    NotFound,
    Other,
}

/// The message for a failure to open the RC file `filename`.
pub open spec fn rc_file_open_message(kind: OpenErrorKind, filename: Seq<char>) -> Seq<char> {
    match kind {
        OpenErrorKind::NotFound => "Cannot find RC file: `"@ + filename + "`"@,
        OpenErrorKind::Other => "Failed to open `"@ + filename + "`."@,
    }
}

/// Describes a failure to open the RC file `filename`.
pub fn describe_rc_file_open_error(err: OpenErrorKind, filename: &str) -> (msg: String)
    ensures
        msg@ == rc_file_open_message(err, filename@),
{
    let mut msg = String::new();
    match err {
        OpenErrorKind::NotFound => {
            msg.append("Cannot find RC file: `");
            msg.append(filename);
            msg.append("`");
        },
        OpenErrorKind::Other => {
            msg.append("Failed to open `");
            msg.append(filename);
            msg.append("`.");
        },
    }
    msg
}

} // verus!
