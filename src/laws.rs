//! What holds of the install and remove workflows over whole runs.
use vstd::prelude::*;
use crate::ledger::{
    appended, lemma_lines_of_appended, lemma_lines_of_are_lines, lemma_lines_of_render,
    lemma_without, lines_of, render, without,
};
use crate::machine::{
    install_begin, install_ledger_after, install_next, install_scripts_after, remove_begin,
    remove_ledger_after, remove_next, script_succeeded, Event, InstallOutcome, InstallView,
    PkgError, RemoveOutcome, RemoveView,
};
use crate::name::{package_name_of, valid_name};

verus! {

/// Installing a package that the ledger lists already finishes at once with
/// success, and no event changes the ledger, the kept removal scripts or the
/// state after that.
pub proof fn lemma_install_installed_is_noop(
    archive: Seq<char>,
    ledger: Seq<char>,
    scripts: Set<Seq<char>>,
    ev: Event,
)
    requires
        lines_of(ledger).contains(package_name_of(archive)),
    ensures
        install_begin(archive, ledger) == InstallView::Finished(
            Ok(InstallOutcome::AlreadyInstalled),
        ),
        install_next(install_begin(archive, ledger), ev) == install_begin(archive, ledger),
        install_ledger_after(ledger, install_begin(archive, ledger), ev) == ledger,
        install_scripts_after(scripts, install_begin(archive, ledger), ev) == scripts,
{
}

/// Removing a package that the ledger does not list finishes at once with
/// success, and no event changes the ledger or the state after that.
pub proof fn lemma_remove_not_installed_is_noop(name: Seq<char>, ledger: Seq<char>, ev: Event)
    requires
        !lines_of(ledger).contains(name),
    ensures
        remove_begin(name, ledger) == RemoveView::Finished(Ok(RemoveOutcome::NotInstalled)),
        remove_next(remove_begin(name, ledger), ev) == remove_begin(name, ledger),
        remove_ledger_after(ledger, remove_begin(name, ledger), ev) == ledger,
{
}

/// An install in which every piece of work succeeds lists the package in the
/// ledger, after the entries it had, and keeps its removal script; a remove
/// that follows, whose script succeeds, takes it off the ledger again and
/// leaves the other entries in their order.
pub proof fn lemma_install_then_remove(
    archive: Seq<char>,
    ledger: Seq<char>,
    scripts: Set<Seq<char>>,
)
    requires
        valid_name(package_name_of(archive)),
        !lines_of(ledger).contains(package_name_of(archive)),
    ensures
        ({
            let p = package_name_of(archive);
            let s0 = install_begin(archive, ledger);
            let s1 = install_next(s0, Event::Done);
            let s2 = install_next(s1, Event::Exited(Some(0i32)));
            let kept = install_scripts_after(scripts, s2, Event::Done);
            let s3 = install_next(s2, Event::Done);
            let installed = install_ledger_after(ledger, s3, Event::Done);
            let s4 = install_next(s3, Event::Done);
            let r0 = remove_begin(p, installed);
            let r1 = remove_next(r0, Event::Exited(Some(0i32)));
            let removed = remove_ledger_after(installed, r1, Event::Done);
            let r2 = remove_next(r1, Event::Done);
            &&& s4 == InstallView::Finished(Ok(InstallOutcome::Installed))
            &&& lines_of(installed) == lines_of(ledger).push(p)
            &&& lines_of(installed).contains(p)
            &&& kept.contains(p)
            &&& r2 == RemoveView::Finished(Ok(RemoveOutcome::Removed))
            &&& !lines_of(removed).contains(p)
            &&& lines_of(removed) == without(lines_of(installed), p)
        }),
{
    let p = package_name_of(archive);
    lemma_lines_of_appended(ledger, p);
    let installed = appended(ledger, p);
    assert(lines_of(installed)[lines_of(ledger).len() as int] == p);
    lemma_lines_of_are_lines(installed);
    lemma_without(lines_of(installed), p);
    lemma_lines_of_render(without(lines_of(installed), p));
}

/// An install whose install script fails, after the archive was unpacked,
/// ends in that failure without touching the ledger or the kept removal
/// scripts.
pub proof fn lemma_install_script_failure(
    archive: Seq<char>,
    ledger: Seq<char>,
    scripts: Set<Seq<char>>,
    code: Option<i32>,
    ev: Event,
)
    requires
        valid_name(package_name_of(archive)),
        !lines_of(ledger).contains(package_name_of(archive)),
        !script_succeeded(code),
    ensures
        ({
            let s0 = install_begin(archive, ledger);
            let s1 = install_next(s0, Event::Done);
            let s2 = install_next(s1, Event::Exited(code));
            &&& s2 == InstallView::Finished(Err(PkgError::ScriptFailed(code)))
            &&& install_ledger_after(ledger, s0, Event::Done) == ledger
            &&& install_ledger_after(ledger, s1, Event::Exited(code)) == ledger
            &&& install_scripts_after(scripts, s0, Event::Done) == scripts
            &&& install_scripts_after(scripts, s1, Event::Exited(code)) == scripts
            &&& install_next(s2, ev) == s2
            &&& install_ledger_after(ledger, s2, ev) == ledger
            &&& install_scripts_after(scripts, s2, ev) == scripts
            &&& !lines_of(ledger).contains(package_name_of(archive))
        }),
{
}

/// A remove whose removal script fails ends in that failure; the ledger is
/// left as it was and still lists the package.
pub proof fn lemma_remove_script_failure(
    name: Seq<char>,
    ledger: Seq<char>,
    code: Option<i32>,
    ev: Event,
)
    requires
        valid_name(name),
        lines_of(ledger).contains(name),
        !script_succeeded(code),
    ensures
        ({
            let r0 = remove_begin(name, ledger);
            let r1 = remove_next(r0, Event::Exited(code));
            &&& r1 == RemoveView::Finished(Err(PkgError::ScriptFailed(code)))
            &&& remove_ledger_after(ledger, r0, Event::Exited(code)) == ledger
            &&& remove_next(r1, ev) == r1
            &&& remove_ledger_after(ledger, r1, ev) == ledger
            &&& lines_of(ledger).contains(name)
        }),
{
}

/// Where the ledger cannot be written after the removal script was kept, the
/// install deletes that script again before it fails: neither the ledger
/// entry nor the script is left behind.
pub proof fn lemma_install_record_failure(
    archive: Seq<char>,
    ledger: Seq<char>,
    scripts: Set<Seq<char>>,
    fault: crate::machine::Fault,
)
    requires
        valid_name(package_name_of(archive)),
        !lines_of(ledger).contains(package_name_of(archive)),
        !scripts.contains(package_name_of(archive)),
    ensures
        ({
            let s2 = install_next(
                install_next(install_begin(archive, ledger), Event::Done),
                Event::Exited(Some(0i32)),
            );
            let kept = install_scripts_after(scripts, s2, Event::Done);
            let s3 = install_next(s2, Event::Done);
            let s4 = install_next(s3, Event::Failed(fault));
            let unchanged = install_ledger_after(ledger, s3, Event::Failed(fault));
            let cleaned = install_scripts_after(kept, s4, Event::Done);
            let s5 = install_next(s4, Event::Done);
            &&& unchanged == ledger
            &&& !cleaned.contains(package_name_of(archive))
            &&& cleaned == scripts
            &&& s5 == InstallView::Finished(Err(crate::machine::error_of(fault)))
        }),
{
    let p = package_name_of(archive);
    assert(scripts.insert(p).remove(p) =~= scripts);
}

/// Removing a name from a ledger drops exactly its entries and keeps the
/// others in their order.
pub proof fn lemma_remove_log_keeps_order(ledger: Seq<char>, name: Seq<char>)
    ensures
        lines_of(render(without(lines_of(ledger), name))) == without(lines_of(ledger), name),
        !without(lines_of(ledger), name).contains(name),
        forall|l: Seq<char>|
            l != name ==> (lines_of(ledger).contains(l) <==> without(lines_of(ledger), name).contains(
                l,
            )),
{
    lemma_lines_of_are_lines(ledger);
    lemma_without(lines_of(ledger), name);
    lemma_lines_of_render(without(lines_of(ledger), name));
}

} // verus!
