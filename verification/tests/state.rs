use expurgate::desktop::{Desktop, WindowInfo};
use expurgate::hotkey::{
    hotkey_event, HotkeyEvent, KILL_HOTKEY_ID, KILL_HOTKEY_KEY, KILL_HOTKEY_MODIFIERS, WM_HOTKEY,
};
use expurgate::state::{Expurgate, ProcessRecord, SavedState};

fn window(handle: u64, owner_pid: u32) -> WindowInfo {
    WindowInfo {
        handle,
        owner_pid,
        visible: true,
        cloaked: false,
        ex_style: 0,
        root_owner: handle,
        last_active_popup: handle,
    }
}

fn hidden(handle: u64, owner_pid: u32) -> WindowInfo {
    let mut w = window(handle, owner_pid);
    w.visible = false;
    w
}

fn process(image_name: &str, pid: u32) -> ProcessRecord {
    ProcessRecord { pid, image_name: image_name.to_string() }
}

fn entries(list: &expurgate::process_list::ProcessList) -> Vec<(String, u32)> {
    let mut out = Vec::new();
    for i in 0..list.len() {
        out.push((list.name_at(i).clone(), list.pid_at(i)));
    }
    out.sort();
    out
}

fn three_processes() -> (Vec<ProcessRecord>, Desktop) {
    let processes =
        vec![process("app.exe", 100), process("svchost.exe", 200), process("explorer.exe", 300)];
    let desktop = Desktop::new(vec![window(1, 100), window(2, 200), window(3, 300)]);
    (processes, desktop)
}

#[test]
fn closable_set_holds_only_the_application() {
    let (processes, desktop) = three_processes();
    let mut app = Expurgate::new(None);
    app.refresh(&processes, &desktop);
    assert_eq!(entries(&app.processlist), vec![("app.exe".to_string(), 100)]);
    assert_eq!(app.close_targets(&desktop), vec![1]);
}

#[test]
fn allow_listed_application_is_not_closable() {
    let (processes, desktop) = three_processes();
    let mut app = Expurgate::new(None);
    assert!(app.allowlist.add("app.exe"));
    app.refresh(&processes, &desktop);
    assert!(entries(&app.processlist).is_empty());
    assert_eq!(app.processlist.len(), 0);
    assert!(app.close_targets(&desktop).is_empty());
}

#[test]
fn kill_listed_process_is_closed_though_filtered_out() {
    // figma.exe owns a window that does not count as open, so the closable
    // set leaves it out; the kill list names it all the same.
    let processes = vec![process("app.exe", 100), process("figma.exe", 500)];
    let desktop = Desktop::new(vec![window(1, 100), hidden(5, 500)]);
    let mut app = Expurgate::new(None);
    app.killlist.add("figma.exe");
    app.refresh(&processes, &desktop);
    assert_eq!(entries(&app.processlist), vec![("app.exe".to_string(), 100)]);
    assert_eq!(app.unf_processlist.get("figma.exe"), Some(500));
    let targets = app.close_targets(&desktop);
    assert!(targets.contains(&5));
    assert_eq!(targets, vec![1, 5]);
}

#[test]
fn kill_list_passes_by_the_name_filter() {
    let processes = vec![process("MyHelperTool.exe", 700)];
    let desktop = Desktop::new(vec![window(7, 700)]);
    let mut app = Expurgate::new(None);
    app.refresh(&processes, &desktop);
    assert!(app.close_targets(&desktop).is_empty());
    app.killlist.add("MyHelperTool.exe");
    assert_eq!(app.close_targets(&desktop), vec![7]);
}

#[test]
fn kill_list_name_without_a_process_posts_nothing() {
    let (processes, desktop) = three_processes();
    let mut app = Expurgate::new(None);
    app.killlist.add("figma.exe");
    app.refresh(&processes, &desktop);
    assert_eq!(app.close_targets(&desktop), vec![1]);
}

#[test]
fn process_without_window_is_left_out() {
    let processes = vec![process("app.exe", 100), process("daemon.exe", 101)];
    let desktop = Desktop::new(vec![window(1, 100)]);
    let mut app = Expurgate::new(None);
    app.refresh(&processes, &desktop);
    assert_eq!(entries(&app.processlist), vec![("app.exe".to_string(), 100)]);
    assert_eq!(entries(&app.unf_processlist), vec![("app.exe".to_string(), 100)]);
}

#[test]
fn unfiltered_set_holds_every_process_with_a_window() {
    let processes = vec![
        process("app.exe", 100),
        process("svchost.exe", 200),
        process("quiet.exe", 600),
        process("System", 4),
    ];
    let desktop = Desktop::new(vec![window(1, 100), window(2, 200), hidden(6, 600)]);
    let mut app = Expurgate::new(None);
    app.refresh(&processes, &desktop);
    assert_eq!(
        entries(&app.unf_processlist),
        vec![
            ("app.exe".to_string(), 100),
            ("quiet.exe".to_string(), 600),
            ("svchost.exe".to_string(), 200)
        ]
    );
    assert_eq!(entries(&app.processlist), vec![("app.exe".to_string(), 100)]);
}

#[test]
fn processes_of_one_name_collapse_to_the_last() {
    let processes = vec![process("app.exe", 100), process("app.exe", 101), process("app.exe", 102)];
    let desktop = Desktop::new(vec![window(1, 100), window(2, 101)]);
    let mut app = Expurgate::new(None);
    app.refresh(&processes, &desktop);
    assert_eq!(entries(&app.processlist), vec![("app.exe".to_string(), 101)]);
    assert_eq!(app.close_targets(&desktop), vec![2]);
}

#[test]
fn reserved_pid_and_own_image_are_not_closable() {
    let processes = vec![process("System", 4), process("expurgate.exe", 900), process("idle", 0)];
    let desktop = Desktop::new(vec![window(1, 4), window(2, 900), window(3, 0)]);
    let mut app = Expurgate::new(None);
    app.refresh(&processes, &desktop);
    assert_eq!(app.processlist.len(), 0);
    assert_eq!(app.unf_processlist.len(), 3);
}

#[test]
fn each_poll_starts_afresh() {
    let (processes, desktop) = three_processes();
    let mut app = Expurgate::new(None);
    app.refresh(&processes, &desktop);
    assert_eq!(app.processlist.len(), 1);
    app.refresh(&Vec::new(), &Desktop::new(vec![]));
    assert_eq!(app.processlist.len(), 0);
    assert_eq!(app.unf_processlist.len(), 0);
}

#[test]
fn refresh_leaves_the_lists_and_the_flag() {
    let (processes, desktop) = three_processes();
    let mut app = Expurgate::new(None);
    app.allowlist.add("a.exe");
    app.killlist.add("k.exe");
    app.show_all_processes = true;
    app.refresh(&processes, &desktop);
    assert_eq!(app.allowlist.to_vec(), vec!["a.exe".to_string()]);
    assert_eq!(app.killlist.to_vec(), vec!["k.exe".to_string()]);
    assert!(app.show_all_processes);
}

#[test]
fn taking_the_allow_list_out_twice_is_as_once() {
    let (processes, desktop) = three_processes();
    let mut app = Expurgate::new(None);
    app.allowlist.add("app.exe");
    app.refresh(&processes, &desktop);
    let once = entries(&app.processlist);
    app.refresh(&processes, &desktop);
    assert_eq!(entries(&app.processlist), once);
}

#[test]
fn window_that_closed_since_the_poll_gets_no_request() {
    let (processes, desktop) = three_processes();
    let mut app = Expurgate::new(None);
    app.refresh(&processes, &desktop);
    let later = Desktop::new(vec![window(2, 200), window(3, 300)]);
    assert!(app.close_targets(&later).is_empty());
    let hidden_now = Desktop::new(vec![hidden(1, 100)]);
    assert!(app.close_targets(&hidden_now).is_empty());
    let reopened = Desktop::new(vec![window(9, 100)]);
    assert_eq!(app.close_targets(&reopened), vec![9]);
}

#[test]
fn each_kill_event_is_one_bulk_close() {
    let (processes, desktop) = three_processes();
    let mut app = Expurgate::new(None);
    app.refresh(&processes, &desktop);
    assert_eq!(app.handle_event(HotkeyEvent::Kill, &desktop), vec![1]);
    assert_eq!(app.handle_event(HotkeyEvent::Kill, &desktop), vec![1]);
}

#[test]
fn fresh_state_is_empty() {
    let app = Expurgate::default();
    assert_eq!(app.processlist.len(), 0);
    assert_eq!(app.unf_processlist.len(), 0);
    assert_eq!(app.allowlist.len(), 0);
    assert_eq!(app.killlist.len(), 0);
    assert!(!app.show_all_processes);
    let same = Expurgate::new(None);
    assert_eq!(same.allowlist.len(), 0);
    assert!(!same.show_all_processes);
}

#[test]
fn saved_state_comes_back_as_it_was() {
    let mut app = Expurgate::new(None);
    app.allowlist.add("b.exe");
    app.allowlist.add("a.exe");
    app.killlist.add("figma.exe");
    app.show_all_processes = true;
    let saved = app.save();
    assert!(saved.show_all_processes);
    let reordered = SavedState {
        allowlist: saved.allowlist.iter().rev().cloned().collect(),
        killlist: saved.killlist.clone(),
        show_all_processes: saved.show_all_processes,
    };
    for state in [saved, reordered] {
        let loaded = Expurgate::new(Some(state));
        assert_eq!(loaded.allowlist.len(), 2);
        assert!(loaded.allowlist.contains("a.exe"));
        assert!(loaded.allowlist.contains("b.exe"));
        assert_eq!(loaded.killlist.len(), 1);
        assert!(loaded.killlist.contains("figma.exe"));
        assert!(loaded.show_all_processes);
        assert_eq!(loaded.processlist.len(), 0);
    }
}

#[test]
fn only_the_kill_hotkey_message_gives_an_event() {
    assert_eq!(hotkey_event(WM_HOTKEY, 1), Some(HotkeyEvent::Kill));
    assert_eq!(hotkey_event(0x0312, 1), Some(HotkeyEvent::Kill));
    assert_eq!(hotkey_event(WM_HOTKEY, 2), None);
    assert_eq!(hotkey_event(WM_HOTKEY, 0), None);
    assert_eq!(hotkey_event(0x0010, 1), None);
    assert_eq!(hotkey_event(0, 0), None);
}

#[test]
fn kill_hotkey_is_control_alt_j() {
    assert_eq!(KILL_HOTKEY_ID, 1);
    assert_eq!(KILL_HOTKEY_MODIFIERS, 0x0001 | 0x0002);
    assert_eq!(KILL_HOTKEY_KEY, 'J' as u32);
}
