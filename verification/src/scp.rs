//! What to do on each request that an SCP receive session makes.

use vstd::prelude::*;

use crate::paths::{join, parent, path_join, path_parent};
use crate::text::{output_text, utf8_lossy};

verus! {

/// A request pulled from an SCP receive session.
#[derive(Debug, Clone, Copy, PartialEq, Eq, Structural)]
pub enum ScpRequest {
    /// A file follows; its name can be asked for.
    NewFile,
    /// A directory is entered; its name can be asked for.
    NewDir,
    /// The current directory is left.
    EndDir,
    /// The session has no more requests.
    Eof,
    /// The server sent a warning.
    Warning,
}

/// What to do on a request while receiving one file.
#[derive(Debug, Clone, Copy, PartialEq, Eq, Structural)]
pub enum SingleFileAction {
    /// Accept the request, copy the file, and stop.
    Receive,
    /// Deny the request and stop.
    DenyAndStop,
    /// Deny the request and pull the next one.
    Deny,
}

/// While receiving one file: the file is received, a warning ends the transfer,
/// and anything else is denied.
pub fn single_file_action(r: ScpRequest) -> (a: SingleFileAction)
    ensures
        a == match r {
            ScpRequest::NewFile => SingleFileAction::Receive,
            ScpRequest::Warning => SingleFileAction::DenyAndStop,
            _ => SingleFileAction::Deny,
        },
{
    match r {
        ScpRequest::NewFile => SingleFileAction::Receive,
        ScpRequest::Warning => SingleFileAction::DenyAndStop,
        _ => SingleFileAction::Deny,
    }
}

/// What to do on a request while receiving a directory tree.
pub enum RecursiveAction {
    /// Create the file of this name in the current local directory, accept, and copy it.
    CreateFile(String),
    /// Enter the directory of this name below the current one, create it, and accept.
    EnterDir(String),
    /// Go back to the parent of the current local directory.
    LeaveDir,
    /// The transfer is complete.
    Finish,
    /// Nothing to do; pull the next request.
    Ignore,
}

/// The abstract value of a [`RecursiveAction`].
pub enum RecursiveStep {
    CreateFile(Seq<char>),
    EnterDir(Seq<char>),
    LeaveDir,
    Finish,
    Ignore,
}

impl RecursiveAction {
    pub open spec fn step(&self) -> RecursiveStep {
        match self {
            RecursiveAction::CreateFile(n) => RecursiveStep::CreateFile(n@),
            RecursiveAction::EnterDir(n) => RecursiveStep::EnterDir(n@),
            RecursiveAction::LeaveDir => RecursiveStep::LeaveDir,
            RecursiveAction::Finish => RecursiveStep::Finish,
            RecursiveAction::Ignore => RecursiveStep::Ignore,
        }
    }
}

/// The step for a request, given the raw name the session reports for a file or directory.
pub open spec fn recursive_step(r: ScpRequest, name: Seq<u8>) -> RecursiveStep {
    match r {
        ScpRequest::NewFile => RecursiveStep::CreateFile(utf8_lossy(name)),
        ScpRequest::NewDir => RecursiveStep::EnterDir(utf8_lossy(name)),
        ScpRequest::EndDir => RecursiveStep::LeaveDir,
        ScpRequest::Eof => RecursiveStep::Finish,
        ScpRequest::Warning => RecursiveStep::Ignore,
    }
}

/// While receiving a directory tree: files and directories are taken under
/// their names read as UTF-8 (invalid sequences replaced), the end of a
/// directory goes back up, the end of the session finishes, and warnings are
/// passed over. `name` is the name the session reports, asked for on files and
/// directories only.
pub fn recursive_action(r: ScpRequest, name: Option<&[u8]>) -> (a: RecursiveAction)
    requires
        r == ScpRequest::NewFile || r == ScpRequest::NewDir ==> name is Some,
    ensures
        a.step() == recursive_step(
            r,
            match name {
                Some(n) => n@,
                None => Seq::empty(),
            },
        ),
{
    match r {
        ScpRequest::NewFile => {
            let n = name.unwrap();
            RecursiveAction::CreateFile(output_text(n))
        },
        ScpRequest::NewDir => {
            let n = name.unwrap();
            RecursiveAction::EnterDir(output_text(n))
        },
        ScpRequest::EndDir => RecursiveAction::LeaveDir,
        ScpRequest::Eof => RecursiveAction::Finish,
        ScpRequest::Warning => RecursiveAction::Ignore,
    }
}

/// The local directory that receiving moves to on a request, from the current
/// one: a new directory is entered below it (its name read as UTF-8, invalid
/// sequences replaced), the end of a directory goes to its parent (`None` when
/// it has none), and any other request stays where it is.
pub fn next_local_dir(current: &str, r: ScpRequest, name: Option<&[u8]>) -> (next: Option<String>)
    requires
        r == ScpRequest::NewDir ==> name is Some,
    ensures
        r == ScpRequest::NewDir ==> (next matches Some(d) && d@ == path_join(
            current@,
            utf8_lossy(name.unwrap()@),
        )),
        r == ScpRequest::EndDir ==> match path_parent(current@) {
            Some(p) => next matches Some(d) && d@ == p,
            None => next is None,
        },
        r != ScpRequest::NewDir && r != ScpRequest::EndDir ==> (next matches Some(d) && d@
            == current@),
{
    match r {
        ScpRequest::NewDir => {
            let n = output_text(name.unwrap());
            Some(join(current, n.as_str()))
        },
        ScpRequest::EndDir => parent(current),
        _ => Some(current.to_owned()),
    }
}

/// Where a received file lands: below the current local directory, under its
/// name read as UTF-8 (invalid sequences replaced).
pub fn file_destination(current: &str, name: &[u8]) -> (p: String)
    ensures
        p@ == path_join(current@, utf8_lossy(name@)),
{
    let n = output_text(name);
    join(current, n.as_str())
}

/// Whatever the reported name: a new file is created and a new directory
/// entered under that name read as UTF-8 (invalid sequences replaced), the end
/// of a directory goes back up, the end of the session finishes, and a warning
/// is passed over.
pub proof fn law_recursive_steps(name: Seq<u8>)
    ensures
        recursive_step(ScpRequest::NewFile, name) == RecursiveStep::CreateFile(utf8_lossy(name)),
        recursive_step(ScpRequest::NewDir, name) == RecursiveStep::EnterDir(utf8_lossy(name)),
        recursive_step(ScpRequest::EndDir, name) == RecursiveStep::LeaveDir,
        recursive_step(ScpRequest::Eof, name) == RecursiveStep::Finish,
        recursive_step(ScpRequest::Warning, name) == RecursiveStep::Ignore,
{
}

} // verus!
