use expurgate::desktop::{
    close_by_pid, get_hwnd_by_pid, is_pseudo_open_in_taskbar, Desktop, WindowInfo,
    WS_EX_TOOLWINDOW,
};

fn plain(handle: u64, owner_pid: u32) -> WindowInfo {
    WindowInfo {
        handle,
        owner_pid,
        visible: true,
        cloaked: false,
        ex_style: 0,
        root_owner: handle,
        last_active_popup: handle,
    }
}

#[test]
fn plain_visible_window_counts_as_open() {
    let d = Desktop::new(vec![plain(10, 100)]);
    assert!(is_pseudo_open_in_taskbar(&d, 10, false));
}

#[test]
fn show_all_overrides_every_attribute() {
    let mut w = plain(10, 100);
    w.visible = false;
    w.cloaked = true;
    w.ex_style = WS_EX_TOOLWINDOW;
    let d = Desktop::new(vec![w]);
    assert!(!is_pseudo_open_in_taskbar(&d, 10, false));
    assert!(is_pseudo_open_in_taskbar(&d, 10, true));
    assert!(is_pseudo_open_in_taskbar(&d, 999, true));
    let empty = Desktop::new(vec![]);
    assert!(is_pseudo_open_in_taskbar(&empty, 10, true));
}

#[test]
fn cloaked_window_is_not_open() {
    let mut w = plain(10, 100);
    w.cloaked = true;
    let d = Desktop::new(vec![w]);
    assert!(!is_pseudo_open_in_taskbar(&d, 10, false));
}

#[test]
fn tool_window_is_not_open() {
    let mut w = plain(10, 100);
    w.ex_style = 0x0000_0180;
    let d = Desktop::new(vec![w]);
    assert!(!is_pseudo_open_in_taskbar(&d, 10, false));
    let mut other = plain(10, 100);
    other.ex_style = 0x0000_0100;
    let d = Desktop::new(vec![other]);
    assert!(is_pseudo_open_in_taskbar(&d, 10, false));
}

#[test]
fn invisible_window_is_not_open() {
    let mut w = plain(10, 100);
    w.visible = false;
    let d = Desktop::new(vec![w]);
    assert!(!is_pseudo_open_in_taskbar(&d, 10, false));
}

#[test]
fn unknown_handle_is_not_open() {
    let d = Desktop::new(vec![plain(10, 100)]);
    assert!(!is_pseudo_open_in_taskbar(&d, 11, false));
    let empty = Desktop::new(vec![]);
    assert!(!is_pseudo_open_in_taskbar(&empty, 10, false));
}

#[test]
fn owned_window_is_judged_by_its_root_owner() {
    // 20 is owned by 10; 10 is a tool window, so 20 does not count either.
    let mut root = plain(10, 100);
    root.ex_style = WS_EX_TOOLWINDOW;
    let mut owned = plain(20, 100);
    owned.root_owner = 10;
    let d = Desktop::new(vec![owned, root]);
    assert!(!is_pseudo_open_in_taskbar(&d, 20, false));
}

#[test]
fn invisible_root_with_visible_popup_counts_as_open() {
    let mut root = plain(10, 100);
    root.visible = false;
    root.last_active_popup = 20;
    let popup = plain(20, 100);
    let d = Desktop::new(vec![root, popup]);
    assert!(is_pseudo_open_in_taskbar(&d, 10, false));
    assert!(is_pseudo_open_in_taskbar(&d, 20, false));
}

#[test]
fn walk_stops_at_the_first_visible_popup() {
    // 10 -> 20 (invisible) -> 30 (visible, cloaked) -> 40 (visible)
    let mut a = plain(10, 1);
    a.visible = false;
    a.last_active_popup = 20;
    let mut b = plain(20, 1);
    b.visible = false;
    b.last_active_popup = 30;
    let mut c = plain(30, 1);
    c.cloaked = true;
    c.last_active_popup = 40;
    let e = plain(40, 1);
    let d = Desktop::new(vec![a, b, c, e]);
    assert!(!is_pseudo_open_in_taskbar(&d, 10, false));
}

#[test]
fn walk_follows_invisible_popups_to_a_visible_one() {
    let mut a = plain(10, 1);
    a.visible = false;
    a.last_active_popup = 20;
    let mut b = plain(20, 1);
    b.visible = false;
    b.last_active_popup = 30;
    let c = plain(30, 1);
    let d = Desktop::new(vec![a, b, c]);
    assert!(is_pseudo_open_in_taskbar(&d, 10, false));
}

#[test]
fn popup_chain_that_loops_ends_and_is_not_open() {
    let mut a = plain(10, 1);
    a.visible = false;
    a.last_active_popup = 20;
    let mut b = plain(20, 1);
    b.visible = false;
    b.last_active_popup = 10;
    let d = Desktop::new(vec![a, b]);
    assert!(!is_pseudo_open_in_taskbar(&d, 10, false));
    assert!(!is_pseudo_open_in_taskbar(&d, 20, false));
}

#[test]
fn visible_root_that_is_its_own_popup_is_judged_itself() {
    let mut root = plain(10, 1);
    root.last_active_popup = 10;
    root.cloaked = true;
    let d = Desktop::new(vec![root, plain(20, 1)]);
    assert!(!is_pseudo_open_in_taskbar(&d, 10, false));
}

#[test]
fn classification_is_repeatable() {
    let mut root = plain(10, 100);
    root.visible = false;
    root.last_active_popup = 20;
    let mut popup = plain(20, 100);
    popup.ex_style = WS_EX_TOOLWINDOW;
    let d = Desktop::new(vec![root, popup, plain(30, 7)]);
    for handle in [10u64, 20, 30, 40] {
        for show_all in [false, true] {
            let first = is_pseudo_open_in_taskbar(&d, handle, show_all);
            let second = is_pseudo_open_in_taskbar(&d, handle, show_all);
            assert_eq!(first, second);
        }
    }
    assert!(!is_pseudo_open_in_taskbar(&d, 10, false));
    assert!(is_pseudo_open_in_taskbar(&d, 30, false));
}

#[test]
fn first_record_of_a_handle_counts() {
    let mut hidden = plain(10, 1);
    hidden.visible = false;
    let d = Desktop::new(vec![hidden, plain(10, 1)]);
    assert_eq!(d.lookup(10), hidden);
    assert!(!is_pseudo_open_in_taskbar(&d, 10, false));
}

#[test]
fn lookup_of_unknown_handle_gives_an_invisible_window() {
    let d = Desktop::new(vec![plain(10, 1)]);
    let w = d.lookup(77);
    assert_eq!(w.handle, 77);
    assert!(!w.visible);
    assert!(!w.cloaked);
    assert_eq!(w.ex_style, 0);
    assert_eq!(w.root_owner, 77);
    assert_eq!(w.last_active_popup, 77);
}

#[test]
fn window_of_a_process_is_the_first_listed() {
    let d = Desktop::new(vec![plain(10, 100), plain(20, 200), plain(30, 100)]);
    assert_eq!(get_hwnd_by_pid(&d, 100), Some(10));
    assert_eq!(get_hwnd_by_pid(&d, 200), Some(20));
}

#[test]
fn process_without_window_has_none() {
    let d = Desktop::new(vec![plain(10, 100)]);
    assert_eq!(get_hwnd_by_pid(&d, 4), None);
    assert_eq!(get_hwnd_by_pid(&Desktop::new(vec![]), 100), None);
}

#[test]
fn close_request_goes_to_the_open_window() {
    let d = Desktop::new(vec![plain(10, 100)]);
    assert_eq!(close_by_pid(&d, &100, false), Some(10));
    assert_eq!(close_by_pid(&d, &101, false), None);
    assert_eq!(close_by_pid(&d, &101, true), None);
}

#[test]
fn close_request_skips_hidden_window_unless_unconditional() {
    let mut w = plain(10, 100);
    w.visible = false;
    let d = Desktop::new(vec![w, plain(11, 100)]);
    assert_eq!(close_by_pid(&d, &100, false), None);
    assert_eq!(close_by_pid(&d, &100, true), Some(10));
}
