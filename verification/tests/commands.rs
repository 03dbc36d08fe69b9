use wm::{
    activate_workspace, add_monitor, attach_container, create_window, deactivate_workspace,
    detach_container, move_container_within_tree, move_workspace_to_monitor,
    move_workspace_to_monitor_impl, sort_workspaces, ContainerKind, NativeMonitor, NativeWindow,
    Rect, UserConfig, WindowState, WmError, WmEvent, WmState, WorkspaceConfig, ROOT,
};

fn entry(name: &str, bind: Option<u32>, keep_alive: bool) -> WorkspaceConfig {
    WorkspaceConfig { name: name.to_string(), bind_to_monitor: bind, keep_alive }
}

fn config(entries: Vec<WorkspaceConfig>) -> UserConfig {
    UserConfig { workspaces: entries }
}

fn display(handle: isize, x: i32, y: i32, w: i32, h: i32) -> NativeMonitor {
    NativeMonitor { handle, working_area: Rect::from_xy(x, y, w, h) }
}

fn floating(handle: isize, x: i32, y: i32, w: i32, h: i32) -> NativeWindow {
    NativeWindow {
        handle,
        state: WindowState::Floating,
        floating_placement: Rect::from_xy(x, y, w, h),
    }
}

fn name_of(state: &WmState, id: usize) -> Option<String> {
    state.workspace(id).and_then(|w| w.name)
}

/// Two monitors side by side, "1" on the first and "2" on the second.
fn two_monitors(cfg: &UserConfig) -> (WmState, usize, usize) {
    let mut state = WmState::new();
    add_monitor(display(10, 0, 0, 1920, 1080), &mut state, cfg).unwrap();
    add_monitor(display(11, 1920, 0, 1080, 1920), &mut state, cfg).unwrap();
    let monitors = state.monitors();
    (state, monitors[0], monitors[1])
}

fn every_monitor_has_a_shown_workspace(state: &WmState) -> bool {
    state.monitors().iter().all(|m| {
        let kids = state.workspaces(*m);
        match state.displayed_workspace(*m) {
            Some(d) => kids.contains(&d),
            None => false,
        }
    })
}

fn no_stale_workspace(state: &WmState) -> bool {
    state.monitors().iter().all(|m| {
        state.workspaces(*m).iter().all(|w| {
            let dto = state.workspace(*w).unwrap();
            dto.keep_alive || dto.child_count > 0 || dto.is_displayed
        })
    })
}

#[test]
fn new_state_holds_only_the_root() {
    let state = WmState::new();
    assert!(state.is_alive(ROOT));
    assert_eq!(state.kind(ROOT), Some(ContainerKind::Root));
    assert!(state.monitors().is_empty());
    assert!(state.events().is_empty());
    assert!(state.pending_sync().is_empty());
}

#[test]
fn add_monitor_activates_bound_keep_alive_workspace() {
    let cfg = config(vec![entry("1", Some(0), true)]);
    let mut state = WmState::new();
    let r = add_monitor(display(1, 0, 0, 1920, 1080), &mut state, &cfg);
    assert_eq!(r, Ok(()));
    let monitors = state.monitors();
    assert_eq!(monitors.len(), 1);
    let m = monitors[0];
    assert_eq!(state.to_rect(m), Some(Rect::from_ltrb(0, 0, 1920, 1080)));
    let workspaces = state.workspaces(m);
    assert_eq!(workspaces.len(), 1);
    assert_eq!(name_of(&state, workspaces[0]), Some("1".to_string()));
    assert_eq!(state.displayed_workspace(m), Some(workspaces[0]));
    assert!(state.is_displayed(workspaces[0]));
    let events = state.events();
    assert_eq!(events.len(), 2);
    assert!(matches!(&events[0], WmEvent::MonitorAdded { added_monitor } if added_monitor.id == m
        && added_monitor.handle == 1));
    assert!(matches!(&events[1], WmEvent::WorkspaceActivated { activated_workspace }
        if activated_workspace.id == workspaces[0] && activated_workspace.is_displayed));
    assert!(!events.iter().any(|e| matches!(e, WmEvent::WorkspaceUpdated { .. })));
}

#[test]
fn add_monitor_without_configuration_makes_a_nameless_workspace() {
    let cfg = config(vec![]);
    let mut state = WmState::new();
    add_monitor(display(1, 0, 0, 800, 600), &mut state, &cfg).unwrap();
    let m = state.monitors()[0];
    let workspaces = state.workspaces(m);
    assert_eq!(workspaces.len(), 1);
    assert_eq!(name_of(&state, workspaces[0]), None);
    assert_eq!(state.displayed_workspace(m), Some(workspaces[0]));
}

#[test]
fn add_monitor_falls_back_to_first_inactive_entry() {
    let cfg = config(vec![entry("a", Some(5), false), entry("b", None, false)]);
    let mut state = WmState::new();
    add_monitor(display(1, 0, 0, 800, 600), &mut state, &cfg).unwrap();
    let m = state.monitors()[0];
    let workspaces = state.workspaces(m);
    assert_eq!(workspaces.len(), 1);
    assert_eq!(name_of(&state, workspaces[0]), Some("a".to_string()));
}

#[test]
fn add_monitor_activates_all_bound_keep_alive_workspaces_in_order() {
    let cfg = config(vec![
        entry("1", Some(0), true),
        entry("2", Some(0), false),
        entry("3", Some(0), true),
        entry("4", Some(1), true),
    ]);
    let mut state = WmState::new();
    add_monitor(display(1, 0, 0, 800, 600), &mut state, &cfg).unwrap();
    let m = state.monitors()[0];
    let names: Vec<Option<String>> =
        state.workspaces(m).iter().map(|w| name_of(&state, *w)).collect();
    assert_eq!(names, vec![Some("1".to_string()), Some("3".to_string())]);
    assert_eq!(state.displayed_workspace(m), Some(state.workspaces(m)[0]));
}

#[test]
fn add_monitor_moves_bound_workspace_that_exists_elsewhere() {
    let cfg = config(vec![entry("1", None, true), entry("2", Some(1), false)]);
    let mut state = WmState::new();
    add_monitor(display(1, 0, 0, 800, 600), &mut state, &cfg).unwrap();
    let a = state.monitors()[0];
    let two = activate_workspace(Some("2"), Some(a), &mut state, &cfg).unwrap();
    assert_eq!(state.parent(two), Some(a));
    add_monitor(display(2, 800, 0, 800, 600), &mut state, &cfg).unwrap();
    let b = state.monitors()[1];
    assert_eq!(state.parent(two), Some(b));
    assert_eq!(state.workspaces(b), vec![two]);
    assert_eq!(state.displayed_workspace(b), Some(two));
    assert_eq!(state.workspaces(a).len(), 1);
    assert!(matches!(state.events().last(), Some(WmEvent::WorkspaceUpdated { updated_workspace })
        if updated_workspace.id == two && updated_workspace.monitor == Some(b)));
}

#[test]
fn moving_the_only_workspace_leaves_a_replacement() {
    let cfg = config(vec![
        entry("1", Some(0), true),
        entry("2", Some(1), true),
        entry("3", None, false),
    ]);
    let (mut state, a, b) = two_monitors(&cfg);
    let one = state.workspace_by_name("1").unwrap();
    state.finish_command(true);
    let r = move_workspace_to_monitor(one, 1, &mut state, &cfg);
    assert_eq!(r, Ok(()));
    assert_eq!(state.parent(one), Some(b));
    let left = state.workspaces(a);
    assert_eq!(left.len(), 1);
    assert_ne!(left[0], one);
    assert_eq!(name_of(&state, left[0]), Some("3".to_string()));
    assert_eq!(state.displayed_workspace(a), Some(left[0]));
    let pending = state.pending_sync();
    assert!(pending.has_cursor_jump());
    assert!(pending.containers_to_redraw().contains(&left[0]));
    assert!(pending.containers_to_redraw().contains(&one));
    assert_eq!(pending.containers_to_redraw()[0], one);
}

#[test]
fn stale_workspace_is_destroyed_when_a_move_lands() {
    let cfg = config(vec![
        entry("1", Some(0), true),
        entry("2", Some(1), true),
        entry("w", None, false),
        entry("x", None, true),
    ]);
    let (mut state, a, b) = two_monitors(&cfg);
    let w = activate_workspace(Some("w"), Some(b), &mut state, &cfg).unwrap();
    let x = activate_workspace(Some("x"), Some(a), &mut state, &cfg).unwrap();
    assert!(state.workspaces(b).contains(&w));
    assert!(!state.is_displayed(w));
    let r = move_workspace_to_monitor_impl(x, b, &mut state, &cfg);
    assert_eq!(r, Ok(()));
    assert!(!state.is_alive(w));
    assert!(!state.workspaces(b).contains(&w));
    assert!(state.workspaces(b).contains(&x));
    assert_eq!(state.workspace_by_name("w"), None);
    assert!(state.events().iter().any(|e| matches!(e, WmEvent::WorkspaceDeactivated {
        deactivated_workspace } if deactivated_workspace.id == w)));
}

#[test]
fn at_most_one_stale_workspace_goes_per_move() {
    let cfg = config(vec![
        entry("1", Some(0), true),
        entry("2", Some(1), true),
        entry("v", None, false),
        entry("w", None, false),
        entry("x", None, true),
    ]);
    let (mut state, a, b) = two_monitors(&cfg);
    let v = activate_workspace(Some("v"), Some(b), &mut state, &cfg).unwrap();
    let w = activate_workspace(Some("w"), Some(b), &mut state, &cfg).unwrap();
    let x = activate_workspace(Some("x"), Some(a), &mut state, &cfg).unwrap();
    move_workspace_to_monitor_impl(x, b, &mut state, &cfg).unwrap();
    assert!(!state.is_alive(v));
    assert!(state.is_alive(w));
    assert!(state.workspaces(b).contains(&w));
}

#[test]
fn floating_window_is_recentered_on_the_new_monitor() {
    let cfg = config(vec![entry("1", Some(0), true), entry("2", Some(1), true)]);
    let mut state = WmState::new();
    add_monitor(display(1, 0, 0, 1920, 1080), &mut state, &cfg).unwrap();
    let one = state.workspace_by_name("1").unwrap();
    assert_eq!(state.to_rect(one), Some(Rect::from_xy(0, 0, 1920, 1080)));
    let window = create_window(floating(77, 100, 100, 300, 300), &mut state);
    attach_container(window, one, None, &mut state).unwrap();
    let tiled = create_window(
        NativeWindow {
            handle: 78,
            state: WindowState::Tiling,
            floating_placement: Rect::from_xy(5, 5, 50, 50),
        },
        &mut state,
    );
    attach_container(tiled, one, None, &mut state).unwrap();
    add_monitor(display(2, 1920, 0, 1080, 1920), &mut state, &cfg).unwrap();
    let b = state.monitors()[1];
    move_workspace_to_monitor(one, 1, &mut state, &cfg).unwrap();
    assert_eq!(state.to_rect(one), Some(Rect::from_xy(1920, 0, 1080, 1920)));
    let data = state.window(window).unwrap();
    assert_eq!(data.floating_placement, Rect::from_xy(2310, 810, 300, 300));
    assert_eq!(data.floating_placement, Rect::from_ltrb(2310, 810, 2610, 1110));
    assert!(data.has_pending_dpi_adjustment);
    assert_eq!(data.handle, 77);
    let other = state.window(tiled).unwrap();
    assert_eq!(other.floating_placement, Rect::from_xy(5, 5, 50, 50));
    assert!(!other.has_pending_dpi_adjustment);
    assert_eq!(state.parent(window), Some(one));
    assert_eq!(state.parent(one), Some(b));
    assert_eq!(state.to_rect(window), Some(Rect::from_xy(2310, 810, 300, 300)));
    assert_eq!(state.to_rect(tiled), Some(Rect::from_xy(1920, 0, 1080, 1920)));
}

#[test]
fn move_to_the_same_monitor_changes_nothing() {
    let cfg = config(vec![entry("1", Some(0), true), entry("2", Some(1), true)]);
    let (mut state, a, _b) = two_monitors(&cfg);
    let one = state.workspace_by_name("1").unwrap();
    let events = state.events().len();
    state.finish_command(true);
    assert_eq!(move_workspace_to_monitor(one, 0, &mut state, &cfg), Ok(()));
    assert_eq!(state.events().len(), events);
    assert!(state.pending_sync().is_empty());
    assert_eq!(state.workspaces(a), vec![one]);
}

#[test]
fn move_fails_without_changes() {
    let cfg = config(vec![entry("1", Some(0), true), entry("2", Some(1), true)]);
    let (mut state, a, b) = two_monitors(&cfg);
    let one = state.workspace_by_name("1").unwrap();
    let events = state.events().len();
    assert_eq!(move_workspace_to_monitor(one, 2, &mut state, &cfg), Err(WmError::MonitorNotFound));
    assert_eq!(move_workspace_to_monitor(a, 1, &mut state, &cfg), Err(WmError::WorkspaceNotFound));
    assert_eq!(
        move_workspace_to_monitor(9999, 1, &mut state, &cfg),
        Err(WmError::WorkspaceNotFound)
    );
    assert_eq!(
        move_workspace_to_monitor_impl(one, one, &mut state, &cfg),
        Err(WmError::MonitorNotFound)
    );
    detach_container(one, &mut state).unwrap();
    assert_eq!(move_workspace_to_monitor(one, 1, &mut state, &cfg), Err(WmError::NoMonitor));
    assert_eq!(state.events().len(), events);
    assert_eq!(state.parent(one), None);
    assert_eq!(state.workspaces(b).len(), 1);
}

#[test]
fn moved_workspace_that_was_not_shown_stays_in_the_background() {
    let cfg = config(vec![
        entry("1", Some(0), true),
        entry("2", Some(1), true),
        entry("3", None, true),
    ]);
    let (mut state, a, b) = two_monitors(&cfg);
    let two = state.workspace_by_name("2").unwrap();
    let three = activate_workspace(Some("3"), Some(a), &mut state, &cfg).unwrap();
    assert!(!state.is_displayed(three));
    move_workspace_to_monitor_impl(three, b, &mut state, &cfg).unwrap();
    assert_eq!(state.displayed_workspace(b), Some(two));
    assert_eq!(state.workspaces(b), vec![two, three]);
}

#[test]
fn moved_workspace_that_was_shown_is_shown_on_the_target() {
    let cfg = config(vec![
        entry("1", Some(0), true),
        entry("2", Some(1), true),
        entry("3", None, true),
    ]);
    let (mut state, a, b) = two_monitors(&cfg);
    let one = state.workspace_by_name("1").unwrap();
    let two = state.workspace_by_name("2").unwrap();
    let three = activate_workspace(Some("3"), Some(a), &mut state, &cfg).unwrap();
    move_workspace_to_monitor_impl(one, b, &mut state, &cfg).unwrap();
    assert_eq!(state.displayed_workspace(b), Some(one));
    assert_eq!(state.workspaces(b), vec![one, two]);
    assert_eq!(state.workspaces(a), vec![three]);
    assert_eq!(state.displayed_workspace(a), Some(three));
}

#[test]
fn round_trip_restores_the_workspaces_of_the_origin() {
    let cfg = config(vec![
        entry("1", Some(0), true),
        entry("2", Some(1), true),
        entry("3", None, true),
    ]);
    let (mut state, a, b) = two_monitors(&cfg);
    let one = state.workspace_by_name("1").unwrap();
    let three = activate_workspace(Some("3"), Some(a), &mut state, &cfg).unwrap();
    let mut before = state.workspaces(a);
    before.sort();
    move_workspace_to_monitor_impl(one, b, &mut state, &cfg).unwrap();
    move_workspace_to_monitor_impl(one, a, &mut state, &cfg).unwrap();
    let mut after = state.workspaces(a);
    after.sort();
    assert_eq!(before, after);
    assert_eq!(after, vec![one, three]);
    assert_eq!(state.displayed_workspace(a), Some(one));
}

#[test]
fn round_trip_of_the_only_workspace_accounts_for_the_replacement() {
    let cfg = config(vec![
        entry("1", Some(0), true),
        entry("2", Some(1), true),
        entry("r", None, true),
    ]);
    let (mut state, a, b) = two_monitors(&cfg);
    let one = state.workspace_by_name("1").unwrap();
    move_workspace_to_monitor_impl(one, b, &mut state, &cfg).unwrap();
    let replacement = state.workspaces(a)[0];
    assert_eq!(name_of(&state, replacement), Some("r".to_string()));
    move_workspace_to_monitor_impl(one, a, &mut state, &cfg).unwrap();
    let mut after = state.workspaces(a);
    after.sort();
    let mut expected = vec![one, replacement];
    expected.sort();
    assert_eq!(after, expected);
}

#[test]
fn round_trip_drops_a_replacement_that_is_not_kept_alive() {
    let cfg = config(vec![entry("1", Some(0), true), entry("2", Some(1), true)]);
    let (mut state, a, b) = two_monitors(&cfg);
    let one = state.workspace_by_name("1").unwrap();
    move_workspace_to_monitor_impl(one, b, &mut state, &cfg).unwrap();
    let replacement = state.workspaces(a)[0];
    assert_eq!(name_of(&state, replacement), None);
    move_workspace_to_monitor_impl(one, a, &mut state, &cfg).unwrap();
    assert_eq!(state.workspaces(a), vec![one]);
    assert!(!state.is_alive(replacement));
}

#[test]
fn monitors_keep_a_shown_workspace_through_a_command_sequence() {
    let cfg = config(vec![
        entry("1", Some(0), true),
        entry("2", Some(1), false),
        entry("3", None, false),
        entry("4", None, true),
    ]);
    let (mut state, a, b) = two_monitors(&cfg);
    assert!(every_monitor_has_a_shown_workspace(&state));
    assert!(no_stale_workspace(&state));
    let one = state.workspace_by_name("1").unwrap();
    move_workspace_to_monitor(one, 1, &mut state, &cfg).unwrap();
    assert!(every_monitor_has_a_shown_workspace(&state));
    assert!(no_stale_workspace(&state));
    let shown_on_a = state.displayed_workspace(a).unwrap();
    deactivate_workspace(shown_on_a, &mut state, &cfg).unwrap();
    assert!(every_monitor_has_a_shown_workspace(&state));
    assert!(no_stale_workspace(&state));
    move_workspace_to_monitor(one, 0, &mut state, &cfg).unwrap();
    assert!(every_monitor_has_a_shown_workspace(&state));
    assert!(no_stale_workspace(&state));
    sort_workspaces(b, &mut state, &cfg).unwrap();
    add_monitor(display(3, 0, 1080, 800, 600), &mut state, &cfg).unwrap();
    assert!(every_monitor_has_a_shown_workspace(&state));
    assert!(no_stale_workspace(&state));
    assert_eq!(state.monitors().len(), 3);
}

#[test]
fn sort_orders_by_configuration_and_is_idempotent() {
    let cfg = config(vec![
        entry("a", None, true),
        entry("b", None, true),
        entry("c", None, true),
    ]);
    let empty = config(vec![]);
    let mut state = WmState::new();
    add_monitor(display(1, 0, 0, 800, 600), &mut state, &empty).unwrap();
    let m = state.monitors()[0];
    let nameless = state.workspaces(m)[0];
    let c = activate_workspace(Some("c"), Some(m), &mut state, &config(vec![entry("c", None, true)]))
        .unwrap();
    let other = config(vec![entry("c", None, true), entry("a", None, true)]);
    let a = activate_workspace(Some("a"), Some(m), &mut state, &other).unwrap();
    assert_eq!(state.workspaces(m), vec![c, a, nameless]);
    let events = state.events().len();
    state.finish_command(true);
    assert_eq!(sort_workspaces(m, &mut state, &cfg), Ok(()));
    let once = state.workspaces(m);
    assert_eq!(once, vec![a, c, nameless]);
    assert_eq!(sort_workspaces(m, &mut state, &cfg), Ok(()));
    assert_eq!(state.workspaces(m), once);
    assert_eq!(state.events().len(), events);
    assert!(state.pending_sync().is_empty());
    assert_eq!(state.displayed_workspace(m), Some(nameless));
}

#[test]
fn sort_keeps_the_order_of_workspaces_without_an_entry() {
    let empty = config(vec![]);
    let mut state = WmState::new();
    add_monitor(display(1, 0, 0, 800, 600), &mut state, &empty).unwrap();
    let m = state.monitors()[0];
    let first = state.workspaces(m)[0];
    let second = activate_workspace(None, Some(m), &mut state, &empty).unwrap();
    let third = activate_workspace(None, Some(m), &mut state, &empty).unwrap();
    sort_workspaces(m, &mut state, &empty).unwrap();
    assert_eq!(state.workspaces(m), vec![first, second, third]);
}

#[test]
fn sort_fails_on_what_is_not_a_monitor() {
    let cfg = config(vec![]);
    let mut state = WmState::new();
    assert_eq!(sort_workspaces(ROOT, &mut state, &cfg), Err(WmError::MonitorNotFound));
    assert_eq!(sort_workspaces(42, &mut state, &cfg), Err(WmError::MonitorNotFound));
}

#[test]
fn activate_by_name_fails_for_unknown_or_active_names() {
    let cfg = config(vec![entry("1", Some(0), true), entry("2", None, false)]);
    let mut state = WmState::new();
    add_monitor(display(1, 0, 0, 800, 600), &mut state, &cfg).unwrap();
    let m = state.monitors()[0];
    let events = state.events().len();
    assert_eq!(
        activate_workspace(Some("1"), Some(m), &mut state, &cfg),
        Err(WmError::WorkspaceNotFound)
    );
    assert_eq!(
        activate_workspace(Some("nope"), Some(m), &mut state, &cfg),
        Err(WmError::WorkspaceNotFound)
    );
    assert_eq!(
        activate_workspace(Some("2"), Some(ROOT), &mut state, &cfg),
        Err(WmError::MonitorNotFound)
    );
    assert_eq!(activate_workspace(Some("2"), None, &mut state, &cfg), Err(WmError::MonitorNotFound));
    assert_eq!(state.events().len(), events);
    assert_eq!(state.workspaces(m).len(), 1);
}

#[test]
fn activate_without_monitor_goes_to_the_bound_monitor() {
    let cfg = config(vec![
        entry("1", Some(0), true),
        entry("2", Some(1), true),
        entry("3", Some(1), false),
    ]);
    let (mut state, _a, b) = two_monitors(&cfg);
    let three = activate_workspace(Some("3"), None, &mut state, &cfg).unwrap();
    assert_eq!(state.parent(three), Some(b));
    assert!(!state.is_displayed(three));
    assert!(matches!(state.events().last(), Some(WmEvent::WorkspaceActivated {
        activated_workspace }) if activated_workspace.id == three
        && activated_workspace.name == Some("3".to_string())
        && !activated_workspace.keep_alive));
}

#[test]
fn deactivate_destroys_the_workspace_and_its_windows() {
    let cfg = config(vec![entry("1", Some(0), true), entry("2", None, true)]);
    let mut state = WmState::new();
    add_monitor(display(1, 0, 0, 800, 600), &mut state, &cfg).unwrap();
    let m = state.monitors()[0];
    let one = state.workspace_by_name("1").unwrap();
    let two = activate_workspace(Some("2"), Some(m), &mut state, &cfg).unwrap();
    let window = create_window(floating(5, 0, 0, 10, 10), &mut state);
    attach_container(window, one, None, &mut state).unwrap();
    assert_eq!(deactivate_workspace(one, &mut state, &cfg), Ok(()));
    assert!(!state.is_alive(one));
    assert!(!state.is_alive(window));
    assert_eq!(state.workspaces(m), vec![two]);
    assert_eq!(state.displayed_workspace(m), Some(two));
    assert!(state.pending_sync().containers_to_redraw().contains(&two));
    assert!(matches!(state.events().last(), Some(WmEvent::WorkspaceDeactivated {
        deactivated_workspace }) if deactivated_workspace.id == one
        && deactivated_workspace.child_count == 1));
    assert_eq!(deactivate_workspace(one, &mut state, &cfg), Err(WmError::WorkspaceNotFound));
    assert_eq!(deactivate_workspace(m, &mut state, &cfg), Err(WmError::WorkspaceNotFound));
}

#[test]
fn deactivate_of_the_only_workspace_leaves_a_replacement() {
    let cfg = config(vec![entry("1", Some(0), true)]);
    let mut state = WmState::new();
    add_monitor(display(1, 0, 0, 800, 600), &mut state, &cfg).unwrap();
    let m = state.monitors()[0];
    let one = state.workspace_by_name("1").unwrap();
    deactivate_workspace(one, &mut state, &cfg).unwrap();
    let left = state.workspaces(m);
    assert_eq!(left.len(), 1);
    assert_ne!(left[0], one);
    assert_eq!(name_of(&state, left[0]), Some("1".to_string()));
    assert_eq!(state.displayed_workspace(m), Some(left[0]));
}

#[test]
fn attach_refuses_what_breaks_the_shape_of_the_tree() {
    let cfg = config(vec![entry("1", Some(0), true)]);
    let mut state = WmState::new();
    add_monitor(display(1, 0, 0, 800, 600), &mut state, &cfg).unwrap();
    let m = state.monitors()[0];
    let one = state.workspace_by_name("1").unwrap();
    let window = create_window(floating(5, 0, 0, 10, 10), &mut state);
    assert_eq!(attach_container(m, one, None, &mut state), Err(WmError::InvalidAttach));
    assert_eq!(attach_container(window, m, None, &mut state), Err(WmError::InvalidAttach));
    assert_eq!(attach_container(window, window, None, &mut state), Err(WmError::InvalidAttach));
    assert_eq!(attach_container(one, one, None, &mut state), Err(WmError::InvalidAttach));
    assert_eq!(attach_container(ROOT, m, None, &mut state), Err(WmError::InvalidAttach));
    assert_eq!(attach_container(window, 999, None, &mut state), Err(WmError::InvalidAttach));
    assert_eq!(attach_container(window, one, Some(1), &mut state), Err(WmError::InvalidAttach));
    assert_eq!(state.parent(window), None);
    assert_eq!(attach_container(window, one, Some(0), &mut state), Ok(()));
    assert_eq!(state.parent(window), Some(one));
    assert_eq!(state.children(one), vec![window]);
}

#[test]
fn attach_and_move_place_children_at_the_index() {
    let cfg = config(vec![entry("1", Some(0), true), entry("2", None, true)]);
    let mut state = WmState::new();
    add_monitor(display(1, 0, 0, 800, 600), &mut state, &cfg).unwrap();
    let m = state.monitors()[0];
    let one = state.workspace_by_name("1").unwrap();
    let two = activate_workspace(Some("2"), Some(m), &mut state, &cfg).unwrap();
    let w1 = create_window(floating(1, 0, 0, 10, 10), &mut state);
    let w2 = create_window(floating(2, 1, 1, 10, 10), &mut state);
    let w3 = create_window(floating(3, 2, 2, 10, 10), &mut state);
    attach_container(w1, one, None, &mut state).unwrap();
    attach_container(w2, one, None, &mut state).unwrap();
    attach_container(w3, one, Some(0), &mut state).unwrap();
    assert_eq!(state.children(one), vec![w3, w1, w2]);
    assert_eq!(move_container_within_tree(w3, one, 2, &mut state), Ok(()));
    assert_eq!(state.children(one), vec![w1, w2, w3]);
    assert_eq!(move_container_within_tree(w3, one, 3, &mut state), Err(WmError::InvalidAttach));
    assert_eq!(move_container_within_tree(w1, two, 0, &mut state), Ok(()));
    assert_eq!(state.children(one), vec![w2, w3]);
    assert_eq!(state.children(two), vec![w1]);
    let data = state.window(w1).unwrap();
    assert_eq!(data.floating_placement, Rect::from_xy(0, 0, 10, 10));
    assert!(!data.has_pending_dpi_adjustment);
    assert_eq!(move_container_within_tree(one, m, 1, &mut state), Ok(()));
    assert_eq!(state.workspaces(m), vec![two, one]);
    assert_eq!(state.displayed_workspace(m), Some(one));
}

#[test]
fn detach_clears_what_the_monitor_shows() {
    let cfg = config(vec![entry("1", Some(0), true)]);
    let mut state = WmState::new();
    add_monitor(display(1, 0, 0, 800, 600), &mut state, &cfg).unwrap();
    let m = state.monitors()[0];
    let one = state.workspace_by_name("1").unwrap();
    assert_eq!(detach_container(one, &mut state), Ok(()));
    assert_eq!(state.parent(one), None);
    assert!(state.is_alive(one));
    assert!(state.workspaces(m).is_empty());
    assert_eq!(state.displayed_workspace(m), None);
    assert_eq!(state.to_rect(one), None);
    assert_eq!(detach_container(12345, &mut state), Err(WmError::ContainerNotFound));
}

#[test]
fn descendants_come_depth_first_and_ancestors_nearest_first() {
    let cfg = config(vec![entry("1", Some(0), true), entry("2", Some(1), true)]);
    let (mut state, a, b) = two_monitors(&cfg);
    let one = state.workspace_by_name("1").unwrap();
    let two = state.workspace_by_name("2").unwrap();
    let w1 = create_window(floating(1, 0, 0, 10, 10), &mut state);
    let w2 = create_window(floating(2, 0, 0, 10, 10), &mut state);
    let w3 = create_window(floating(3, 0, 0, 10, 10), &mut state);
    attach_container(w1, one, None, &mut state).unwrap();
    attach_container(w2, one, None, &mut state).unwrap();
    attach_container(w3, two, None, &mut state).unwrap();
    assert_eq!(state.descendants(ROOT), vec![a, one, w1, w2, b, two, w3]);
    assert_eq!(state.descendants(a), vec![one, w1, w2]);
    assert_eq!(state.descendants(two), vec![w3]);
    assert!(state.descendants(w3).is_empty());
    assert!(state.descendants(4242).is_empty());
    assert_eq!(state.ancestors(w3), vec![two, b, ROOT]);
    assert_eq!(state.ancestors(a), vec![ROOT]);
    assert!(state.ancestors(ROOT).is_empty());
    assert!(state.ancestors(4242).is_empty());
    assert_eq!(state.kind(w1), Some(ContainerKind::Window));
    assert_eq!(state.kind(one), Some(ContainerKind::Workspace));
    assert_eq!(state.kind(a), Some(ContainerKind::Monitor));
    assert_eq!(state.kind(4242), None);
    assert_eq!(state.monitor_index(b), Some(1));
    assert_eq!(state.monitor_index(one), None);
}

#[test]
fn root_rect_covers_all_monitors() {
    let cfg = config(vec![]);
    let mut state = WmState::new();
    assert_eq!(state.to_rect(ROOT), None);
    add_monitor(display(1, 0, 0, 1920, 1080), &mut state, &cfg).unwrap();
    add_monitor(display(2, 1920, -200, 1080, 1920), &mut state, &cfg).unwrap();
    assert_eq!(state.to_rect(ROOT), Some(Rect::from_ltrb(0, -200, 3000, 1720)));
}

#[test]
fn events_keep_their_snapshots() {
    let cfg = config(vec![entry("1", Some(0), true), entry("2", Some(1), true)]);
    let (mut state, a, b) = two_monitors(&cfg);
    let one = state.workspace_by_name("1").unwrap();
    move_workspace_to_monitor(one, 1, &mut state, &cfg).unwrap();
    move_workspace_to_monitor(one, 0, &mut state, &cfg).unwrap();
    let updates: Vec<Option<usize>> = state
        .events()
        .iter()
        .filter_map(|e| match e {
            WmEvent::WorkspaceUpdated { updated_workspace } if updated_workspace.id == one => {
                Some(updated_workspace.monitor)
            },
            _ => None,
        })
        .collect();
    assert_eq!(updates, vec![Some(b), Some(a)]);
}

#[test]
fn finish_command_hands_out_or_drops_the_queue() {
    let cfg = config(vec![entry("1", Some(0), true)]);
    let mut state = WmState::new();
    add_monitor(display(1, 0, 0, 800, 600), &mut state, &cfg).unwrap();
    let one = state.workspace_by_name("1").unwrap();
    let effects = state.finish_command(true);
    assert_eq!(effects.containers_to_redraw(), &vec![one]);
    assert!(!effects.has_cursor_jump());
    assert!(state.pending_sync().is_empty());
    let two = activate_workspace(None, Some(state.monitors()[0]), &mut state, &cfg).unwrap();
    deactivate_workspace(one, &mut state, &cfg).unwrap();
    assert_eq!(state.pending_sync().containers_to_redraw(), &vec![two]);
    let dropped = state.finish_command(false);
    assert!(dropped.is_empty());
    assert!(state.pending_sync().is_empty());
}
