//! The install and remove workflows as state machines.
//!
//! Each state but `Finished` names one piece of work for the driver. The
//! driver performs it and hands back an [`Event`]; `step` gives the next
//! state. An event that does not answer the work asked for leaves the state
//! as it is.
use vstd::prelude::*;
use crate::ledger::{appended, is_installed, lines_of, log_install, remove_log, render, without};
use crate::name::{is_valid_name, package_name, package_name_of, valid_name};

verus! {

/// Why the driver could not carry out a piece of work.
#[derive(Clone, Copy, PartialEq, Eq, Debug, Structural)]
pub enum Fault {
    /// A file or directory could not be created, read, written or run.
    Filesystem,
    /// The archive is missing, corrupt or not in the expected format.
    Archive,
}

/// What the driver reports after doing the work of a state.
#[derive(Clone, Copy, PartialEq, Eq, Debug, Structural)]
pub enum Event {
    /// The work was done.
    Done,
    /// The work could not be done.
    Failed(Fault),
    /// The script ran to its end with this exit code (`None`: killed by a
    /// signal).
    Exited(Option<i32>),
}

/// Why an install or a remove failed.
#[derive(Clone, Copy, PartialEq, Eq, Debug, Structural)]
pub enum PkgError {
    Filesystem,
    Archive,
    /// The package's script ended with this exit code, not 0.
    ScriptFailed(Option<i32>),
    /// The package name is empty or holds a newline.
    InvalidName,
}

#[derive(Clone, Copy, PartialEq, Eq, Debug, Structural)]
pub enum InstallOutcome {
    Installed,
    /// The package was installed already; nothing was done.
    AlreadyInstalled,
}

#[derive(Clone, Copy, PartialEq, Eq, Debug, Structural)]
pub enum RemoveOutcome {
    Removed,
    /// The package was not installed; nothing was done.
    NotInstalled,
}

pub open spec fn error_of(f: Fault) -> PkgError {
    match f {
        Fault::Filesystem => PkgError::Filesystem,
        Fault::Archive => PkgError::Archive,
    }
}

fn to_error(f: Fault) -> (r: PkgError)
    ensures
        r == error_of(f),
{
    match f {
        Fault::Filesystem => PkgError::Filesystem,
        Fault::Archive => PkgError::Archive,
    }
}

/// Whether a script's exit code means success.
pub open spec fn script_succeeded(code: Option<i32>) -> bool {
    code == Some(0i32)
}

/// The state of an install of the package `name`; `ledger` is the ledger
/// text read at the start.
#[derive(Debug)]
pub enum Install {
    /// Make a fresh workspace and unpack the archive into it.
    Unpack { name: String, ledger: String },
    /// Run the archive's install script inside the workspace.
    RunInstallScript { name: String, ledger: String },
    /// Copy the archive's removal script to the place kept for `name`.
    PersistRemovalScript { name: String, ledger: String },
    /// Write `contents` as the new ledger.
    RecordInstall { name: String, contents: String },
    /// The ledger could not be written: delete the removal script kept for
    /// `name` again, then fail with `error`.
    DiscardRemovalScript { name: String, error: PkgError },
    /// Nothing more to do; the workspace is dropped.
    Finished(Result<InstallOutcome, PkgError>),
}

/// An install state, with its texts as character sequences.
pub enum InstallView {
    Unpack { name: Seq<char>, ledger: Seq<char> },
    RunInstallScript { name: Seq<char>, ledger: Seq<char> },
    PersistRemovalScript { name: Seq<char>, ledger: Seq<char> },
    RecordInstall { name: Seq<char>, contents: Seq<char> },
    DiscardRemovalScript { name: Seq<char>, error: PkgError },
    Finished(Result<InstallOutcome, PkgError>),
}

impl View for Install {
    type V = InstallView;

    open spec fn view(&self) -> InstallView {
        match self {
            Install::Unpack { name, ledger } => InstallView::Unpack { name: name@, ledger: ledger@ },
            Install::RunInstallScript { name, ledger } => InstallView::RunInstallScript {
                name: name@,
                ledger: ledger@,
            },
            Install::PersistRemovalScript { name, ledger } => InstallView::PersistRemovalScript {
                name: name@,
                ledger: ledger@,
            },
            Install::RecordInstall { name, contents } => InstallView::RecordInstall {
                name: name@,
                contents: contents@,
            },
            Install::DiscardRemovalScript { name, error } => InstallView::DiscardRemovalScript {
                name: name@,
                error: *error,
            },
            Install::Finished(r) => InstallView::Finished(*r),
        }
    }
}

/// The first state of an install of the archive at `archive`, given the
/// ledger text.
pub open spec fn install_begin(archive: Seq<char>, ledger: Seq<char>) -> InstallView {
    let name = package_name_of(archive);
    if lines_of(ledger).contains(name) {
        InstallView::Finished(Ok(InstallOutcome::AlreadyInstalled))
    } else if !valid_name(name) {
        InstallView::Finished(Err(PkgError::InvalidName))
    } else {
        InstallView::Unpack { name, ledger }
    }
}

/// The state of an install after `ev` answers the work of `s`.
pub open spec fn install_next(s: InstallView, ev: Event) -> InstallView {
    match s {
        InstallView::Unpack { name, ledger } => match ev {
            Event::Done => InstallView::RunInstallScript { name, ledger },
            Event::Failed(f) => InstallView::Finished(Err(error_of(f))),
            Event::Exited(_) => s,
        },
        InstallView::RunInstallScript { name, ledger } => match ev {
            Event::Exited(code) => if script_succeeded(code) {
                InstallView::PersistRemovalScript { name, ledger }
            } else {
                InstallView::Finished(Err(PkgError::ScriptFailed(code)))
            },
            Event::Failed(f) => InstallView::Finished(Err(error_of(f))),
            Event::Done => s,
        },
        InstallView::PersistRemovalScript { name, ledger } => match ev {
            Event::Done => InstallView::RecordInstall { name, contents: appended(ledger, name) },
            Event::Failed(f) => InstallView::Finished(Err(error_of(f))),
            Event::Exited(_) => s,
        },
        InstallView::RecordInstall { name, contents } => match ev {
            Event::Done => InstallView::Finished(Ok(InstallOutcome::Installed)),
            Event::Failed(f) => InstallView::DiscardRemovalScript { name, error: error_of(f) },
            Event::Exited(_) => s,
        },
        InstallView::DiscardRemovalScript { name, error } => match ev {
            Event::Exited(_) => s,
            _ => InstallView::Finished(Err(error)),
        },
        InstallView::Finished(_) => s,
    }
}

/// Starts an install of the archive at `archive`, given the current ledger
/// text (empty where there is no ledger file). The package name is derived
/// from the archive's path; an installed package is left alone, and a name
/// that is not valid is refused.
pub fn begin_install(archive: &str, ledger: &str) -> (r: Install)
    ensures
        r@ == install_begin(archive@, ledger@),
{
    let name = package_name(archive);
    if is_installed(ledger, name.as_str()) {
        Install::Finished(Ok(InstallOutcome::AlreadyInstalled))
    } else if !is_valid_name(name.as_str()) {
        Install::Finished(Err(PkgError::InvalidName))
    } else {
        Install::Unpack { name, ledger: ledger.to_owned() }
    }
}

impl Install {
    /// The next state, once `ev` answers the work that this state asks for.
    pub fn step(self, ev: Event) -> (r: Install)
        ensures
            r@ == install_next(self@, ev),
    {
        match self {
            Install::Unpack { name, ledger } => match ev {
                Event::Done => Install::RunInstallScript { name, ledger },
                Event::Failed(f) => Install::Finished(Err(to_error(f))),
                Event::Exited(_) => Install::Unpack { name, ledger },
            },
            Install::RunInstallScript { name, ledger } => match ev {
                Event::Exited(code) => {
                    if code == Some(0i32) {
                        Install::PersistRemovalScript { name, ledger }
                    } else {
                        Install::Finished(Err(PkgError::ScriptFailed(code)))
                    }
                },
                Event::Failed(f) => Install::Finished(Err(to_error(f))),
                Event::Done => Install::RunInstallScript { name, ledger },
            },
            Install::PersistRemovalScript { name, ledger } => match ev {
                Event::Done => {
                    let contents = log_install(ledger.as_str(), name.as_str());
                    Install::RecordInstall { name, contents }
                },
                Event::Failed(f) => Install::Finished(Err(to_error(f))),
                Event::Exited(_) => Install::PersistRemovalScript { name, ledger },
            },
            Install::RecordInstall { name, contents } => match ev {
                Event::Done => Install::Finished(Ok(InstallOutcome::Installed)),
                Event::Failed(f) => Install::DiscardRemovalScript { name, error: to_error(f) },
                Event::Exited(_) => Install::RecordInstall { name, contents },
            },
            Install::DiscardRemovalScript { name, error } => match ev {
                Event::Exited(_) => Install::DiscardRemovalScript { name, error },
                _ => Install::Finished(Err(error)),
            },
            Install::Finished(r) => Install::Finished(r),
        }
    }

    /// Whether the install has ended.
    pub fn is_finished(&self) -> (r: bool)
        ensures
            r == (self@ is Finished),
    {
        match self {
            Install::Finished(_) => true,
            _ => false,
        }
    }
}

/// The state of a remove of the package `name`.
#[derive(Debug)]
pub enum Remove {
    /// Run the removal script kept for `name`; `ledger` is the ledger text
    /// read at the start.
    RunRemovalScript { name: String, ledger: String },
    /// Write `contents` as the new ledger.
    RecordRemoval { contents: String },
    /// Nothing more to do.
    Finished(Result<RemoveOutcome, PkgError>),
}

/// A remove state, with its texts as character sequences.
pub enum RemoveView {
    RunRemovalScript { name: Seq<char>, ledger: Seq<char> },
    RecordRemoval { contents: Seq<char> },
    Finished(Result<RemoveOutcome, PkgError>),
}

impl View for Remove {
    type V = RemoveView;

    open spec fn view(&self) -> RemoveView {
        match self {
            Remove::RunRemovalScript { name, ledger } => RemoveView::RunRemovalScript {
                name: name@,
                ledger: ledger@,
            },
            Remove::RecordRemoval { contents } => RemoveView::RecordRemoval {
                contents: contents@,
            },
            Remove::Finished(r) => RemoveView::Finished(*r),
        }
    }
}

/// The first state of a remove of the package `name`, given the ledger text.
pub open spec fn remove_begin(name: Seq<char>, ledger: Seq<char>) -> RemoveView {
    if !lines_of(ledger).contains(name) {
        RemoveView::Finished(Ok(RemoveOutcome::NotInstalled))
    } else if !valid_name(name) {
        RemoveView::Finished(Err(PkgError::InvalidName))
    } else {
        RemoveView::RunRemovalScript { name, ledger }
    }
}

/// The state of a remove after `ev` answers the work of `s`.
pub open spec fn remove_next(s: RemoveView, ev: Event) -> RemoveView {
    match s {
        RemoveView::RunRemovalScript { name, ledger } => match ev {
            Event::Exited(code) => if script_succeeded(code) {
                RemoveView::RecordRemoval { contents: render(without(lines_of(ledger), name)) }
            } else {
                RemoveView::Finished(Err(PkgError::ScriptFailed(code)))
            },
            Event::Failed(f) => RemoveView::Finished(Err(error_of(f))),
            Event::Done => s,
        },
        RemoveView::RecordRemoval { contents } => match ev {
            Event::Done => RemoveView::Finished(Ok(RemoveOutcome::Removed)),
            Event::Failed(f) => RemoveView::Finished(Err(error_of(f))),
            Event::Exited(_) => s,
        },
        RemoveView::Finished(_) => s,
    }
}

/// Starts a remove of the package `name`, given the current ledger text
/// (empty where there is no ledger file). A package that is not installed is
/// left alone; a listed name that is not a valid package name (an empty
/// line) is refused.
pub fn begin_remove(name: &str, ledger: &str) -> (r: Remove)
    ensures
        r@ == remove_begin(name@, ledger@),
{
    if !is_installed(ledger, name) {
        Remove::Finished(Ok(RemoveOutcome::NotInstalled))
    } else if !is_valid_name(name) {
        Remove::Finished(Err(PkgError::InvalidName))
    } else {
        Remove::RunRemovalScript { name: name.to_owned(), ledger: ledger.to_owned() }
    }
}

impl Remove {
    /// The next state, once `ev` answers the work that this state asks for.
    pub fn step(self, ev: Event) -> (r: Remove)
        ensures
            r@ == remove_next(self@, ev),
    {
        match self {
            Remove::RunRemovalScript { name, ledger } => match ev {
                Event::Exited(code) => {
                    if code == Some(0i32) {
                        let contents = remove_log(ledger.as_str(), name.as_str());
                        Remove::RecordRemoval { contents }
                    } else {
                        Remove::Finished(Err(PkgError::ScriptFailed(code)))
                    }
                },
                Event::Failed(f) => Remove::Finished(Err(to_error(f))),
                Event::Done => Remove::RunRemovalScript { name, ledger },
            },
            Remove::RecordRemoval { contents } => match ev {
                Event::Done => Remove::Finished(Ok(RemoveOutcome::Removed)),
                Event::Failed(f) => Remove::Finished(Err(to_error(f))),
                Event::Exited(_) => Remove::RecordRemoval { contents },
            },
            Remove::Finished(r) => Remove::Finished(r),
        }
    }

    /// Whether the remove has ended.
    pub fn is_finished(&self) -> (r: bool)
        ensures
            r == (self@ is Finished),
    {
        match self {
            Remove::Finished(_) => true,
            _ => false,
        }
    }
}

/// The ledger text after the driver answers the work of install state `s`
/// with `ev`: only a recorded install changes it.
pub open spec fn install_ledger_after(ledger: Seq<char>, s: InstallView, ev: Event) -> Seq<char> {
    match s {
        InstallView::RecordInstall { contents, .. } => if ev == Event::Done {
            contents
        } else {
            ledger
        },
        _ => ledger,
    }
}

/// The names that have a removal script kept, after the driver answers the
/// work of install state `s` with `ev`.
pub open spec fn install_scripts_after(
    scripts: Set<Seq<char>>,
    s: InstallView,
    ev: Event,
) -> Set<Seq<char>> {
    match s {
        InstallView::PersistRemovalScript { name, .. } => if ev == Event::Done {
            scripts.insert(name)
        } else {
            scripts
        },
        InstallView::DiscardRemovalScript { name, .. } => if ev == Event::Done {
            scripts.remove(name)
        } else {
            scripts
        },
        _ => scripts,
    }
}

/// The ledger text after the driver answers the work of remove state `s`
/// with `ev`: only a recorded removal changes it.
pub open spec fn remove_ledger_after(ledger: Seq<char>, s: RemoveView, ev: Event) -> Seq<char> {
    match s {
        RemoveView::RecordRemoval { contents } => if ev == Event::Done {
            contents
        } else {
            ledger
        },
        _ => ledger,
    }
}

} // verus!
