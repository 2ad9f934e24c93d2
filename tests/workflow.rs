use vlpkg::machine::{
    begin_install, begin_remove, Event, Fault, Install, InstallOutcome, PkgError, Remove,
    RemoveOutcome,
};

fn new_ledger(s: &Install) -> String {
    match s {
        Install::RecordInstall { contents, .. } => contents.clone(),
        other => panic!("expected a ledger write, got {:?}", other),
    }
}

#[test]
fn install_foo_succeeds_and_records() {
    let s = begin_install("foo-1.0.tar.zst", "");
    assert!(matches!(&s, Install::Unpack { name, .. } if name == "foo-1.0"));
    let s = s.step(Event::Done);
    assert!(matches!(&s, Install::RunInstallScript { .. }));
    let s = s.step(Event::Exited(Some(0)));
    assert!(matches!(&s, Install::PersistRemovalScript { name, .. } if name == "foo-1.0"));
    let s = s.step(Event::Done);
    let ledger = new_ledger(&s);
    assert_eq!(ledger, "foo-1.0\n");
    assert!(vlpkg::ledger::is_installed(&ledger, "foo-1.0"));
    let s = s.step(Event::Done);
    assert!(s.is_finished());
    assert!(matches!(s, Install::Finished(Ok(InstallOutcome::Installed))));
}

#[test]
fn remove_foo_after_install() {
    let r = begin_remove("foo-1.0", "foo-1.0\n");
    assert!(matches!(&r, Remove::RunRemovalScript { name, .. } if name == "foo-1.0"));
    let r = r.step(Event::Exited(Some(0)));
    let ledger = match &r {
        Remove::RecordRemoval { contents } => contents.clone(),
        other => panic!("expected a ledger write, got {:?}", other),
    };
    assert_eq!(ledger, "");
    assert!(!vlpkg::ledger::is_installed(&ledger, "foo-1.0"));
    let r = r.step(Event::Done);
    assert!(matches!(r, Remove::Finished(Ok(RemoveOutcome::Removed))));
}

#[test]
fn install_bar_script_failure_leaves_ledger() {
    let s = begin_install("bar.tar.zst", "other\n");
    let s = s.step(Event::Done);
    let s = s.step(Event::Exited(Some(1)));
    assert!(matches!(s, Install::Finished(Err(PkgError::ScriptFailed(Some(1))))));
    let s = s.step(Event::Done);
    assert!(matches!(s, Install::Finished(Err(PkgError::ScriptFailed(Some(1))))));
    assert!(!vlpkg::ledger::is_installed("other\n", "bar"));
}

#[test]
fn install_killed_script_fails() {
    let s = begin_install("bar.tar.zst", "").step(Event::Done).step(Event::Exited(None));
    assert!(matches!(s, Install::Finished(Err(PkgError::ScriptFailed(None)))));
}

#[test]
fn install_of_installed_package_is_noop() {
    let s = begin_install("/srv/foo-1.0.tar.zst", "a\nfoo-1.0\n");
    assert!(matches!(s, Install::Finished(Ok(InstallOutcome::AlreadyInstalled))));
    let s = s.step(Event::Done);
    assert!(matches!(s, Install::Finished(Ok(InstallOutcome::AlreadyInstalled))));
}

#[test]
fn remove_of_missing_package_is_noop() {
    let r = begin_remove("foo", "bar\n");
    assert!(matches!(r, Remove::Finished(Ok(RemoveOutcome::NotInstalled))));
    let r = begin_remove("foo", "");
    assert!(matches!(r, Remove::Finished(Ok(RemoveOutcome::NotInstalled))));
}

#[test]
fn remove_script_failure_keeps_entry() {
    let r = begin_remove("foo", "foo\nbar\n").step(Event::Exited(Some(2)));
    assert!(matches!(r, Remove::Finished(Err(PkgError::ScriptFailed(Some(2))))));
    assert!(vlpkg::ledger::is_installed("foo\nbar\n", "foo"));
}

#[test]
fn remove_keeps_other_entries() {
    let r = begin_remove("b", "a\nb\nc\n").step(Event::Exited(Some(0)));
    assert!(matches!(&r, Remove::RecordRemoval { contents } if contents == "a\nc\n"));
}

#[test]
fn remove_ledger_write_failure() {
    let r = begin_remove("a", "a\n").step(Event::Exited(Some(0))).step(Event::Failed(Fault::Filesystem));
    assert!(matches!(r, Remove::Finished(Err(PkgError::Filesystem))));
}

#[test]
fn install_bad_archive_fails() {
    let s = begin_install("bad.tar.zst", "").step(Event::Failed(Fault::Archive));
    assert!(matches!(s, Install::Finished(Err(PkgError::Archive))));
}

#[test]
fn install_workspace_failure() {
    let s = begin_install("w.tar.zst", "").step(Event::Failed(Fault::Filesystem));
    assert!(matches!(s, Install::Finished(Err(PkgError::Filesystem))));
}

#[test]
fn install_copy_failure_records_nothing() {
    let s = begin_install("c.tar.zst", "")
        .step(Event::Done)
        .step(Event::Exited(Some(0)))
        .step(Event::Failed(Fault::Filesystem));
    assert!(matches!(s, Install::Finished(Err(PkgError::Filesystem))));
}

#[test]
fn install_ledger_failure_discards_removal_script() {
    let s = begin_install("d.tar.zst", "")
        .step(Event::Done)
        .step(Event::Exited(Some(0)))
        .step(Event::Done)
        .step(Event::Failed(Fault::Filesystem));
    assert!(matches!(&s, Install::DiscardRemovalScript { name, error: PkgError::Filesystem } if name == "d"));
    let s = s.step(Event::Done);
    assert!(matches!(s, Install::Finished(Err(PkgError::Filesystem))));
}

#[test]
fn invalid_names_are_refused() {
    assert!(matches!(begin_install("pkgs/", ""), Install::Finished(Err(PkgError::InvalidName))));
    assert!(matches!(begin_install(".tar.zst", ""), Install::Finished(Err(PkgError::InvalidName))));
    assert!(matches!(begin_remove("", "\n"), Remove::Finished(Err(PkgError::InvalidName))));
}

#[test]
fn mismatched_event_keeps_state() {
    let s = begin_install("e.tar.zst", "").step(Event::Exited(Some(0)));
    assert!(matches!(s, Install::Unpack { .. }));
    let s = s.step(Event::Done).step(Event::Done);
    assert!(matches!(s, Install::RunInstallScript { .. }));
    let r = begin_remove("a", "a\n").step(Event::Done);
    assert!(matches!(r, Remove::RunRemovalScript { .. }));
}

#[test]
fn install_appends_after_existing_entries() {
    let s = begin_install("n.tar.zst", "a\nb").step(Event::Done).step(Event::Exited(Some(0))).step(Event::Done);
    assert_eq!(new_ledger(&s), "a\nb\nn\n");
}

#[test]
fn remove_of_unlisted_invalid_name_is_noop() {
    assert!(matches!(begin_remove("", ""), Remove::Finished(Ok(RemoveOutcome::NotInstalled))));
    assert!(matches!(begin_remove("", "a\n"), Remove::Finished(Ok(RemoveOutcome::NotInstalled))));
    assert!(matches!(
        begin_remove("a\nb", "a\nb\n"),
        Remove::Finished(Ok(RemoveOutcome::NotInstalled))
    ));
}

#[test]
fn install_of_listed_empty_name_is_noop() {
    let s = begin_install(".tar.zst", "a\n\nb\n");
    assert!(matches!(s, Install::Finished(Ok(InstallOutcome::AlreadyInstalled))));
}
