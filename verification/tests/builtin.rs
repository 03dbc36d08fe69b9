use wm::{
    available_builtins, child_pids, extract_builtin, needs_extraction, start_builtin,
    stop_all_builtins, stop_builtin, BuiltinError, BuiltinProgram, ChildStatus, EmbeddedBinaries,
    ProcessEntry, ProcessManager, StartAction, StopAction,
};

fn with_zebar() -> EmbeddedBinaries {
    EmbeddedBinaries { zebar: vec![1, 2, 3, 4] }
}

fn without_zebar() -> EmbeddedBinaries {
    EmbeddedBinaries { zebar: vec![] }
}

#[test]
fn from_str_ignores_case() {
    assert_eq!(BuiltinProgram::from_str("zebar"), Some(BuiltinProgram::Zebar));
    assert_eq!(BuiltinProgram::from_str("Zebar"), Some(BuiltinProgram::Zebar));
    assert_eq!(BuiltinProgram::from_str("ZEBAR"), Some(BuiltinProgram::Zebar));
    assert_eq!(BuiltinProgram::from_str("zebar.exe"), None);
    assert_eq!(BuiltinProgram::from_str(" zebar"), None);
    assert_eq!(BuiltinProgram::from_str(""), None);
}

#[test]
fn from_lowercase_is_exact() {
    assert_eq!(BuiltinProgram::from_lowercase("zebar"), Some(BuiltinProgram::Zebar));
    assert_eq!(BuiltinProgram::from_lowercase("Zebar"), None);
    assert_eq!(BuiltinProgram::from_lowercase("zeba"), None);
}

#[test]
fn exe_name_and_data() {
    let embedded = with_zebar();
    assert_eq!(BuiltinProgram::Zebar.exe_name(), "zebar.exe");
    assert_eq!(BuiltinProgram::Zebar.binary_data(&embedded), &[1, 2, 3, 4]);
    assert!(BuiltinProgram::Zebar.is_available(&embedded));
    assert!(!BuiltinProgram::Zebar.is_available(&without_zebar()));
    assert!(BuiltinProgram::Zebar.binary_data(&without_zebar()).is_empty());
}

#[test]
fn available_builtins_lists_what_was_embedded() {
    assert_eq!(available_builtins(&with_zebar()), vec![BuiltinProgram::Zebar]);
    assert!(available_builtins(&without_zebar()).is_empty());
}

#[test]
fn extraction_is_needed_when_the_file_is_missing_or_differs_in_size() {
    assert!(needs_extraction(None, 4));
    assert!(needs_extraction(Some(0), 4));
    assert!(needs_extraction(Some(5), 4));
    assert!(!needs_extraction(Some(4), 4));
}

#[test]
fn extract_builtin_plans_or_refuses() {
    let plan = extract_builtin(BuiltinProgram::Zebar, &with_zebar(), None).unwrap();
    assert_eq!(plan.exe_name, "zebar.exe");
    assert!(plan.needs_extraction);
    let plan = extract_builtin(BuiltinProgram::Zebar, &with_zebar(), Some(4)).unwrap();
    assert!(!plan.needs_extraction);
    let refused = extract_builtin(BuiltinProgram::Zebar, &without_zebar(), Some(4));
    assert_eq!(refused.err(), Some(BuiltinError::NotAvailable));
}

#[test]
fn start_spawns_once() {
    let embedded = with_zebar();
    let mut manager = ProcessManager::new();
    assert_eq!(manager.pid_of(BuiltinProgram::Zebar), None);
    assert_eq!(
        manager.start(BuiltinProgram::Zebar, ChildStatus::Unknown, &embedded),
        Ok(StartAction::Spawn)
    );
    manager.record_started(BuiltinProgram::Zebar, 4711);
    assert_eq!(manager.pid_of(BuiltinProgram::Zebar), Some(4711));
    assert_eq!(
        manager.start(BuiltinProgram::Zebar, ChildStatus::Running, &embedded),
        Ok(StartAction::AlreadyRunning)
    );
    assert_eq!(manager.pid_of(BuiltinProgram::Zebar), Some(4711));
}

#[test]
fn start_after_exit_spawns_again() {
    let embedded = with_zebar();
    let mut manager = ProcessManager::new();
    manager.record_started(BuiltinProgram::Zebar, 1);
    assert_eq!(
        manager.start(BuiltinProgram::Zebar, ChildStatus::Exited, &embedded),
        Ok(StartAction::Spawn)
    );
    assert_eq!(manager.pid_of(BuiltinProgram::Zebar), None);
    manager.record_started(BuiltinProgram::Zebar, 2);
    manager.record_started(BuiltinProgram::Zebar, 3);
    assert_eq!(manager.pid_of(BuiltinProgram::Zebar), Some(3));
    assert_eq!(manager.stop_all().len(), 1);
}

#[test]
fn start_refuses_what_was_not_embedded() {
    let mut manager = ProcessManager::new();
    assert_eq!(
        manager.start(BuiltinProgram::Zebar, ChildStatus::Running, &without_zebar()),
        Err(BuiltinError::NotAvailable)
    );
}

#[test]
fn is_running_forgets_what_has_exited() {
    let mut manager = ProcessManager::new();
    assert!(!manager.is_running(BuiltinProgram::Zebar, ChildStatus::Running));
    manager.record_started(BuiltinProgram::Zebar, 9);
    assert!(manager.is_running(BuiltinProgram::Zebar, ChildStatus::Running));
    assert_eq!(manager.pid_of(BuiltinProgram::Zebar), Some(9));
    assert!(!manager.is_running(BuiltinProgram::Zebar, ChildStatus::Unknown));
    assert_eq!(manager.pid_of(BuiltinProgram::Zebar), None);
    manager.record_started(BuiltinProgram::Zebar, 10);
    assert!(!manager.is_running(BuiltinProgram::Zebar, ChildStatus::Exited));
    assert_eq!(manager.pid_of(BuiltinProgram::Zebar), None);
}

#[test]
fn stop_is_idempotent() {
    let mut manager = ProcessManager::new();
    assert_eq!(manager.stop(BuiltinProgram::Zebar), StopAction::NotRunning);
    manager.record_started(BuiltinProgram::Zebar, 12);
    assert_eq!(manager.stop(BuiltinProgram::Zebar), StopAction::Terminate(12));
    assert_eq!(manager.stop(BuiltinProgram::Zebar), StopAction::NotRunning);
}

#[test]
fn builtins_by_name() {
    let embedded = with_zebar();
    let mut manager = ProcessManager::new();
    assert_eq!(
        start_builtin("nothing", &mut manager, ChildStatus::Unknown, &embedded),
        Err(BuiltinError::UnknownProgram)
    );
    assert_eq!(
        start_builtin("ZeBar", &mut manager, ChildStatus::Unknown, &embedded),
        Ok(StartAction::Spawn)
    );
    manager.record_started(BuiltinProgram::Zebar, 77);
    assert_eq!(
        start_builtin("zebar", &mut manager, ChildStatus::Running, &embedded),
        Ok(StartAction::AlreadyRunning)
    );
    assert_eq!(stop_builtin("nothing", &mut manager), Err(BuiltinError::UnknownProgram));
    assert_eq!(manager.pid_of(BuiltinProgram::Zebar), Some(77));
    assert_eq!(stop_builtin("ZEBAR", &mut manager), Ok(StopAction::Terminate(77)));
    assert_eq!(stop_builtin("zebar", &mut manager), Ok(StopAction::NotRunning));
}

#[test]
fn stop_all_hands_out_every_process() {
    let mut manager = ProcessManager::new();
    assert!(stop_all_builtins(&mut manager).is_empty());
    manager.record_started(BuiltinProgram::Zebar, 5);
    let all = stop_all_builtins(&mut manager);
    assert_eq!(all.len(), 1);
    assert_eq!(all[0].program, BuiltinProgram::Zebar);
    assert_eq!(all[0].pid, 5);
    assert_eq!(manager.pid_of(BuiltinProgram::Zebar), None);
}

#[test]
fn child_pids_filters_by_parent() {
    let snapshot = vec![
        ProcessEntry { pid: 1, parent_pid: 0 },
        ProcessEntry { pid: 10, parent_pid: 1 },
        ProcessEntry { pid: 11, parent_pid: 2 },
        ProcessEntry { pid: 12, parent_pid: 1 },
        ProcessEntry { pid: 13, parent_pid: 10 },
    ];
    assert_eq!(child_pids(&snapshot, 1), vec![10, 12]);
    assert_eq!(child_pids(&snapshot, 10), vec![13]);
    assert!(child_pids(&snapshot, 13).is_empty());
    assert!(child_pids(&vec![], 1).is_empty());
}
