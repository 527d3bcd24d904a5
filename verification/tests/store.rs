use lagotto::Action;
use lagotto::Bang;
use lagotto::Event;
use lagotto::Machine;
use lagotto::Outcome;
use lagotto::Storage;
use lagotto::StoreError;

struct MemFs {
    store: Option<String>,
    backup: Option<String>,
}

#[derive(PartialEq, Clone, Copy)]
enum Fault {
    Nothing,
    Create,
    Read,
    Snapshot,
    Truncate,
    Rewind,
    Write,
    Restore,
}

/// Performs each action the machine asks for on the in-memory pair of
/// files, optionally failing one kind of action the way a filesystem would.
fn drive_with(m: Machine, fs: &mut MemFs, fault: Fault) -> Result<Outcome, StoreError> {
    let mut m = m;
    let mut ev = Event::Begin;
    loop {
        let (m2, a) = m.step(ev);
        m = m2;
        ev = match a {
            Action::Probe => Event::Probed(fs.store.is_some()),
            Action::CreateEmpty => {
                if fault == Fault::Create {
                    Event::Failed("create failed".to_string())
                } else {
                    fs.store = Some("{\n\n}".to_string());
                    Event::Succeeded
                }
            }
            Action::ReadStore => {
                if fault == Fault::Read {
                    Event::Failed("read failed".to_string())
                } else {
                    Event::ReadDone(fs.store.clone().expect("read of an absent store file"))
                }
            }
            Action::Snapshot => {
                if fault == Fault::Snapshot {
                    Event::Failed("snapshot failed".to_string())
                } else {
                    fs.backup = fs.store.clone();
                    Event::Succeeded
                }
            }
            Action::Truncate => {
                if fault == Fault::Truncate {
                    Event::Failed("truncate failed".to_string())
                } else {
                    fs.store = Some(String::new());
                    Event::Succeeded
                }
            }
            Action::Rewind => {
                if fault == Fault::Rewind {
                    Event::Failed("rewind failed".to_string())
                } else {
                    Event::Succeeded
                }
            }
            Action::WriteStore(c) => {
                if fault == Fault::Write {
                    fs.store = Some(String::new());
                    Event::Failed("write failed".to_string())
                } else {
                    fs.store = Some(c);
                    Event::Succeeded
                }
            }
            Action::Restore => {
                if fault == Fault::Restore {
                    Event::Failed("restore failed".to_string())
                } else {
                    fs.store = fs.backup.take();
                    Event::Succeeded
                }
            }
            Action::Finish(res) => return res,
        };
    }
}

fn drive(m: Machine, fs: &mut MemFs) -> Result<Outcome, StoreError> {
    drive_with(m, fs, Fault::Nothing)
}

fn listed(r: Result<Outcome, StoreError>) -> Vec<Bang> {
    match r {
        Ok(Outcome::Listed(v)) => v,
        other => panic!("expected a listing, got {:?}", other),
    }
}

fn found(r: Result<Outcome, StoreError>) -> Bang {
    match r {
        Ok(Outcome::Found(b)) => b,
        other => panic!("expected a found record, got {:?}", other),
    }
}

#[test]
fn storage_paths() {
    let st = Storage::new();
    assert_eq!(st.filepath(), "storage.json");
    assert_eq!(st.backup_filepath(), "backup_storage.json");
}

#[test]
fn add_then_find_scenario() {
    let st = Storage::new();
    let mut fs = MemFs { store: Some("{\"records\":[]}".to_string()), backup: None };
    let r = Bang::new(
        "yt".to_string(),
        "https://youtube.com/results?search_query=".to_string(),
    );
    drive(st.save_bang(&r), &mut fs).unwrap();
    let b = found(drive(st.find_bang(&"yt".to_string()), &mut fs));
    assert_eq!(b, r);
    let all = listed(drive(st.find_all(), &mut fs));
    assert_eq!(all.len(), 1);
    assert_eq!(all[0], r);
}

#[test]
fn remove_then_find_fails_not_found() {
    let st = Storage::new();
    let mut fs = MemFs { store: None, backup: None };
    drive(st.save_bang(&Bang::new("yt".to_string(), "u1".to_string())), &mut fs).unwrap();
    drive(st.save_bang(&Bang::new("gh".to_string(), "u2".to_string())), &mut fs).unwrap();
    assert_eq!(drive(st.remove_bang(&"yt".to_string()), &mut fs), Ok(Outcome::Removed));
    match drive(st.find_bang(&"yt".to_string()), &mut fs) {
        Err(StoreError::NotFound(a)) => assert_eq!(a, "yt"),
        other => panic!("expected not-found, got {:?}", other),
    }
    let all = listed(drive(st.find_all(), &mut fs));
    assert_eq!(all.len(), 1);
    assert_eq!(all[0].alias, "gh");
}

#[test]
fn remove_nonexistent_fails_and_leaves_file_untouched() {
    let st = Storage::new();
    let mut fs = MemFs { store: None, backup: None };
    drive(st.save_bang(&Bang::new("yt".to_string(), "u1".to_string())), &mut fs).unwrap();
    let before_store = fs.store.clone();
    let before_backup = fs.backup.clone();
    match drive(st.remove_bang(&"nope".to_string()), &mut fs) {
        Err(StoreError::NotFound(a)) => assert_eq!(a, "nope"),
        other => panic!("expected not-found, got {:?}", other),
    }
    assert_eq!(fs.store, before_store);
    assert_eq!(fs.backup, before_backup);
}

#[test]
fn duplicate_aliases_are_all_removed() {
    let st = Storage::new();
    let mut fs = MemFs { store: None, backup: None };
    drive(st.save_bang(&Bang::new("yt".to_string(), "https://one".to_string())), &mut fs)
        .unwrap();
    drive(st.save_bang(&Bang::new("yt".to_string(), "https://two".to_string())), &mut fs)
        .unwrap();
    assert_eq!(listed(drive(st.find_all(), &mut fs)).len(), 2);
    // lookup returns the first of the duplicates
    assert_eq!(found(drive(st.find_bang(&"yt".to_string()), &mut fs)).url, "https://one");
    assert_eq!(drive(st.remove_bang(&"yt".to_string()), &mut fs), Ok(Outcome::Removed));
    let all = listed(drive(st.find_all(), &mut fs));
    assert!(all.iter().all(|b| b.alias != "yt"));
    assert_eq!(all.len(), 0);
}

#[test]
fn backup_holds_pre_mutation_state() {
    let st = Storage::new();
    let mut fs = MemFs { store: None, backup: None };
    drive(st.save_bang(&Bang::new("a".to_string(), "u1".to_string())), &mut fs).unwrap();
    let before = fs.store.clone().unwrap();
    drive(st.save_bang(&Bang::new("b".to_string(), "u2".to_string())), &mut fs).unwrap();
    // the backup is exactly the store text from immediately before the call
    assert_eq!(fs.backup.as_ref().unwrap(), &before);
    let decoded_backup = lagotto::decode(fs.backup.as_ref().unwrap());
    assert_eq!(decoded_backup.records.len(), 1);
    assert_eq!(decoded_backup.records[0].alias, "a");
}

#[test]
fn ensure_exists_is_idempotent() {
    let st = Storage::new();
    let mut fs = MemFs { store: Some("{\"records\":[]}".to_string()), backup: None };
    let before = fs.store.clone();
    listed(drive(st.find_all(), &mut fs));
    assert_eq!(fs.store, before);
    listed(drive(st.find_all(), &mut fs));
    assert_eq!(fs.store, before);
    assert_eq!(fs.backup, None);
}

#[test]
fn absent_file_is_created_with_placeholder() {
    let st = Storage::new();
    let mut fs = MemFs { store: None, backup: None };
    let all = listed(drive(st.find_all(), &mut fs));
    assert_eq!(all.len(), 0);
    assert_eq!(fs.store.as_ref().unwrap(), "{\n\n}");
}

#[test]
fn corrupt_file_lists_as_empty() {
    let st = Storage::new();
    let mut fs = MemFs { store: Some("not valid json at all".to_string()), backup: None };
    let all = listed(drive(st.find_all(), &mut fs));
    assert_eq!(all.len(), 0);
}

#[test]
fn create_failure_is_a_setup_error() {
    let st = Storage::new();
    let mut fs = MemFs { store: None, backup: None };
    match drive_with(st.find_all(), &mut fs, Fault::Create) {
        Err(StoreError::Setup(m)) => assert_eq!(m, "create failed"),
        other => panic!("expected a setup error, got {:?}", other),
    }
}

#[test]
fn read_failure_is_an_io_error() {
    let st = Storage::new();
    let mut fs = MemFs { store: Some("{\n\n}".to_string()), backup: None };
    match drive_with(st.find_all(), &mut fs, Fault::Read) {
        Err(StoreError::Io(m)) => assert_eq!(m, "read failed"),
        other => panic!("expected an i/o error, got {:?}", other),
    }
}

#[test]
fn snapshot_failure_aborts_before_any_destructive_step() {
    let st = Storage::new();
    let mut fs = MemFs { store: None, backup: None };
    drive(st.save_bang(&Bang::new("a".to_string(), "u".to_string())), &mut fs).unwrap();
    let before = fs.store.clone();
    match drive_with(
        st.save_bang(&Bang::new("b".to_string(), "u2".to_string())),
        &mut fs,
        Fault::Snapshot,
    ) {
        Err(StoreError::Io(m)) => assert_eq!(m, "snapshot failed"),
        other => panic!("expected an i/o error, got {:?}", other),
    }
    assert_eq!(fs.store, before);
}

#[test]
fn truncate_refusal_returns_error_without_restore() {
    let st = Storage::new();
    let mut fs = MemFs { store: None, backup: None };
    drive(st.save_bang(&Bang::new("a".to_string(), "u".to_string())), &mut fs).unwrap();
    let before = fs.store.clone();
    match drive_with(
        st.save_bang(&Bang::new("b".to_string(), "u2".to_string())),
        &mut fs,
        Fault::Truncate,
    ) {
        Err(StoreError::Io(m)) => assert_eq!(m, "truncate failed"),
        other => panic!("expected an i/o error, got {:?}", other),
    }
    assert_eq!(fs.store, before);
}

#[test]
fn rewind_failure_restores_the_pre_mutation_state() {
    let st = Storage::new();
    let mut fs = MemFs { store: None, backup: None };
    drive(st.save_bang(&Bang::new("a".to_string(), "u".to_string())), &mut fs).unwrap();
    let before = fs.store.clone();
    match drive_with(
        st.save_bang(&Bang::new("b".to_string(), "u2".to_string())),
        &mut fs,
        Fault::Rewind,
    ) {
        Err(StoreError::Io(m)) => assert_eq!(m, "rewind failed"),
        other => panic!("expected an i/o error, got {:?}", other),
    }
    assert_eq!(fs.store, before);
}

#[test]
fn write_failure_restores_the_pre_mutation_state() {
    let st = Storage::new();
    let mut fs = MemFs { store: None, backup: None };
    drive(st.save_bang(&Bang::new("a".to_string(), "u".to_string())), &mut fs).unwrap();
    let before = fs.store.clone();
    match drive_with(
        st.save_bang(&Bang::new("b".to_string(), "u2".to_string())),
        &mut fs,
        Fault::Write,
    ) {
        Err(StoreError::Io(m)) => assert_eq!(m, "write failed"),
        other => panic!("expected an i/o error, got {:?}", other),
    }
    assert_eq!(fs.store, before);
    let all = listed(drive(st.find_all(), &mut fs));
    assert_eq!(all.len(), 1);
    assert_eq!(all[0].alias, "a");
}

#[test]
fn restore_failure_is_terminal_and_surfaced() {
    let st = Storage::new();
    let mut fs = MemFs { store: None, backup: None };
    drive(st.save_bang(&Bang::new("a".to_string(), "u".to_string())), &mut fs).unwrap();
    match drive_with(
        st.save_bang(&Bang::new("b".to_string(), "u2".to_string())),
        &mut fs,
        Fault::Write,
    ) {
        Err(StoreError::Io(_)) => {}
        other => panic!("expected an i/o error, got {:?}", other),
    }
    // a run where the restore itself also fails surfaces the restore error
    let mut fs2 = MemFs { store: None, backup: None };
    drive(st.save_bang(&Bang::new("a".to_string(), "u".to_string())), &mut fs2).unwrap();
    let r = {
        let mut m = st.save_bang(&Bang::new("b".to_string(), "u2".to_string()));
        let mut ev = Event::Begin;
        loop {
            let (m2, a) = m.step(ev);
            m = m2;
            ev = match a {
                Action::Probe => Event::Probed(fs2.store.is_some()),
                Action::ReadStore => Event::ReadDone(fs2.store.clone().unwrap()),
                Action::Snapshot => {
                    fs2.backup = fs2.store.clone();
                    Event::Succeeded
                }
                Action::Truncate => {
                    fs2.store = Some(String::new());
                    Event::Succeeded
                }
                Action::Rewind => Event::Succeeded,
                Action::WriteStore(_) => Event::Failed("write failed".to_string()),
                Action::Restore => Event::Failed("restore failed".to_string()),
                Action::CreateEmpty => {
                    fs2.store = Some("{\n\n}".to_string());
                    Event::Succeeded
                }
                Action::Finish(res) => break res,
            };
        }
    };
    match r {
        Err(StoreError::Io(m)) => assert_eq!(m, "restore failed"),
        other => panic!("expected the restore error, got {:?}", other),
    }
}

#[test]
fn add_does_not_enforce_unique_aliases() {
    let st = Storage::new();
    let mut fs = MemFs { store: None, backup: None };
    drive(st.save_bang(&Bang::new("yt".to_string(), "u1".to_string())), &mut fs).unwrap();
    drive(st.save_bang(&Bang::new("yt".to_string(), "u2".to_string())), &mut fs).unwrap();
    assert_eq!(listed(drive(st.find_all(), &mut fs)).len(), 2);
}
