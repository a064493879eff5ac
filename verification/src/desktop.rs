//! A snapshot of the desktop's top-level windows, and the two questions asked
//! of it: which window stands for a process, and whether a window is one the
//! user would count as open.

use vstd::prelude::*;
use vstd::set_lib::{lemma_int_range, lemma_len_subset, set_int_range};

verus! {

/// The extended-style bit that marks a tool window.
pub const WS_EX_TOOLWINDOW: u32 = 0x80;

/// What one poll learned about one window.
#[derive(Clone, Copy, Debug, PartialEq, Eq, Structural)]
pub struct WindowInfo {
    /// The window's handle, as a plain number.
    pub handle: u64,
    /// The id of the process that owns the window.
    pub owner_pid: u32,
    /// The raw visibility flag.
    pub visible: bool,
    /// Whether the compositor hides the window (another virtual desktop, a
    /// suspended store app).
    pub cloaked: bool,
    /// The extended style bits.
    pub ex_style: u32,
    /// The handle at the top of the window's owner chain.
    pub root_owner: u64,
    /// The handle of the window's most recently active popup; the window's
    /// own handle where it has none.
    pub last_active_popup: u64,
}

/// The top-level windows of one poll, in the order the system listed them.
#[derive(Debug)]
pub struct Desktop {
    pub windows: Vec<WindowInfo>,
}

/// What is assumed of a handle the snapshot does not hold: an invisible
/// window that is its own root owner and its own popup.
pub open spec fn absent(handle: u64) -> WindowInfo {
    WindowInfo {
        handle,
        owner_pid: 0,
        visible: false,
        cloaked: false,
        ex_style: 0,
        root_owner: handle,
        last_active_popup: handle,
    }
}

/// Index `i` is the first in `ws` whose window has handle `handle`.
pub open spec fn first_with_handle(ws: Seq<WindowInfo>, handle: u64, i: int) -> bool {
    &&& 0 <= i < ws.len()
    &&& ws[i].handle == handle
    &&& forall|j: int| 0 <= j < i ==> ws[j].handle != handle
}

/// The snapshot's record of `handle`: the first one listed under that handle,
/// or `absent(handle)`.
pub open spec fn record(ws: Seq<WindowInfo>, handle: u64) -> WindowInfo {
    if exists|i: int| first_with_handle(ws, handle, i) {
        ws[choose|i: int| first_with_handle(ws, handle, i)]
    } else {
        absent(handle)
    }
}

/// Index `i` is the first in `ws` whose window belongs to process `pid`.
pub open spec fn first_owned_by(ws: Seq<WindowInfo>, pid: u32, i: int) -> bool {
    &&& 0 <= i < ws.len()
    &&& ws[i].owner_pid == pid
    &&& forall|j: int| 0 <= j < i ==> ws[j].owner_pid != pid
}

/// The window that stands for process `pid`: the first one listed that the
/// process owns, if it owns any.
pub open spec fn window_of(ws: Seq<WindowInfo>, pid: u32) -> Option<u64> {
    if exists|i: int| first_owned_by(ws, pid, i) {
        Some(ws[choose|i: int| first_owned_by(ws, pid, i)].handle)
    } else {
        None
    }
}

/// Follows the last-active-popup chain from `current` for at most `steps`
/// steps. The walk ends at a window that is its own popup, or at the first
/// visible popup, or where the steps run out.
pub open spec fn popup_walk(ws: Seq<WindowInfo>, current: u64, steps: nat) -> u64
    decreases steps,
{
    let popup = record(ws, current).last_active_popup;
    if steps == 0 || popup == current {
        current
    } else if record(ws, popup).visible {
        popup
    } else {
        popup_walk(ws, popup, (steps - 1) as nat)
    }
}

/// The window one step along the popup chain from `handle`.
pub open spec fn hop(ws: Seq<WindowInfo>, handle: u64) -> u64 {
    record(ws, handle).last_active_popup
}

/// The window `k` steps along the popup chain from `start`.
pub open spec fn chain(ws: Seq<WindowInfo>, start: u64, k: nat) -> u64
    decreases k,
{
    if k == 0 {
        start
    } else {
        chain(ws, hop(ws, start), (k - 1) as nat)
    }
}

/// The walk from `current` comes to rest within `steps` steps: it reaches a
/// window that is its own popup, or a visible popup.
pub open spec fn walk_settles(ws: Seq<WindowInfo>, current: u64, steps: nat) -> bool
    decreases steps,
{
    let popup = record(ws, current).last_active_popup;
    popup == current || (steps > 0 && (record(ws, popup).visible || walk_settles(
        ws,
        popup,
        (steps - 1) as nat,
    )))
}

/// A walk that has come to rest ends at the same window however many more
/// steps it is allowed.
pub proof fn lemma_settled_walk_is_final(ws: Seq<WindowInfo>, current: u64, steps: nat, more: nat)
    requires
        walk_settles(ws, current, steps),
        more >= steps,
    ensures
        walk_settles(ws, current, more),
        popup_walk(ws, current, more) == popup_walk(ws, current, steps),
    decreases steps,
{
    let popup = record(ws, current).last_active_popup;
    if popup != current && !record(ws, popup).visible {
        lemma_settled_walk_is_final(ws, popup, (steps - 1) as nat, (more - 1) as nat);
    }
}

/// A walk that has not come to rest when its steps run out, as on a popup
/// chain that loops, stands on an invisible window.
pub proof fn lemma_unsettled_walk_ends_invisible(ws: Seq<WindowInfo>, current: u64, steps: nat)
    requires
        !walk_settles(ws, current, steps),
        !record(ws, current).visible,
    ensures
        !record(ws, popup_walk(ws, current, steps)).visible,
    decreases steps,
{
    let popup = record(ws, current).last_active_popup;
    if steps > 0 {
        lemma_unsettled_walk_ends_invisible(ws, popup, (steps - 1) as nat);
    }
}

/// On a walk that does not come to rest within `steps` steps, each of the
/// first `steps` + 1 windows of the chain has another window as its popup,
/// and so is a window of the snapshot.
proof fn lemma_unsettled_walk_moves(ws: Seq<WindowInfo>, start: u64, steps: nat, k: nat)
    requires
        !walk_settles(ws, start, steps),
        k <= steps,
    ensures
        hop(ws, chain(ws, start, k)) != chain(ws, start, k),
        exists|i: int| first_with_handle(ws, chain(ws, start, k), i),
    decreases k,
{
    if k > 0 {
        lemma_unsettled_walk_moves(ws, hop(ws, start), (steps - 1) as nat, (k - 1) as nat);
    }
}

/// A popup chain on which the walk does not come to rest within as many steps
/// as the snapshot has windows runs in a loop: it passes some window twice.
/// So the bound cuts no walk short that would ever come to rest.
pub proof fn lemma_unsettled_chain_loops(ws: Seq<WindowInfo>, start: u64)
    requires
        !walk_settles(ws, start, ws.len()),
    ensures
        exists|i: nat, j: nat| i < j <= ws.len() && chain(ws, start, i) == chain(ws, start, j),
{
    let n = ws.len();
    let place = |k: int|
        choose|i: int| #[trigger] first_with_handle(ws, chain(ws, start, k as nat), i);
    let places = Seq::new(n + 1, place);
    assert forall|k: int| 0 <= k <= n implies 0 <= #[trigger] places[k] < n && ws[places[k]].handle
        == chain(ws, start, k as nat) by {
        lemma_unsettled_walk_moves(ws, start, n, k as nat);
    }
    if places.no_duplicates() {
        places.unique_seq_to_set();
        let range = set_int_range(0, n as int);
        lemma_int_range(0, n as int);
        assert(places.to_set().subset_of(range)) by {
            assert forall|x: int| places.to_set().contains(x) implies range.contains(x) by {
                let k = choose|k: int| 0 <= k < places.len() && places[k] == x;
                assert(0 <= places[k] < n);
            }
        }
        lemma_len_subset(places.to_set(), range);
        assert(false);
    }
    let (a, b) = choose|a: int, b: int|
        0 <= a < places.len() && 0 <= b < places.len() && a != b && places[a] == places[b];
    assert(chain(ws, start, a as nat) == chain(ws, start, b as nat)) by {
        assert(ws[places[a]].handle == chain(ws, start, a as nat));
        assert(ws[places[b]].handle == chain(ws, start, b as nat));
    }
    let (i, j) = if a < b {
        (a as nat, b as nat)
    } else {
        (b as nat, a as nat)
    };
    assert(i < j <= n && chain(ws, start, i) == chain(ws, start, j));
}

/// A window whose popup chain does not come to rest within the bound never
/// counts as open.
pub proof fn lemma_unsettled_chain_is_not_open(ws: Seq<WindowInfo>, handle: u64)
    requires
        !walk_settles(ws, record(ws, handle).root_owner, ws.len()),
    ensures
        !user_visible(ws, handle, false),
{
    let root = record(ws, handle).root_owner;
    let popup = record(ws, root).last_active_popup;
    if ws.len() > 0 {
        lemma_unsettled_walk_ends_invisible(ws, popup, (ws.len() - 1) as nat);
    } else {
        assert(record(ws, root) == absent(root));
    }
}

/// The window that is judged in place of `handle`: the end of the popup walk
/// from its root owner, bounded by the size of the snapshot; or the root's own
/// popup where the walk ended on an invisible window and that popup is visible.
pub open spec fn representative(ws: Seq<WindowInfo>, handle: u64) -> u64 {
    let root = record(ws, handle).root_owner;
    let last = popup_walk(ws, root, ws.len());
    let popup = record(ws, root).last_active_popup;
    if !record(ws, last).visible && record(ws, popup).visible {
        popup
    } else {
        last
    }
}

/// Whether a user would count the window as open. With `show_all` every window
/// counts; otherwise its representative must be visible, not cloaked and no
/// tool window.
pub open spec fn user_visible(ws: Seq<WindowInfo>, handle: u64, show_all: bool) -> bool {
    show_all || {
        let w = record(ws, representative(ws, handle));
        &&& !w.cloaked
        &&& w.ex_style & WS_EX_TOOLWINDOW == 0
        &&& w.visible
    }
}

/// The window to which a close request for process `pid` goes: the window
/// that stands for the process, provided it counts as open or `unconditional`
/// is set.
pub open spec fn close_target(ws: Seq<WindowInfo>, pid: u32, unconditional: bool) -> Option<u64> {
    match window_of(ws, pid) {
        Some(handle) => if user_visible(ws, handle, unconditional) {
            Some(handle)
        } else {
            None
        },
        None => None,
    }
}

impl Desktop {
    /// A snapshot of the given windows, kept in the order given.
    pub fn new(windows: Vec<WindowInfo>) -> (d: Desktop)
        ensures
            d.windows@ == windows@,
    {
        Desktop { windows }
    }

    /// The record of `handle` in this snapshot.
    pub fn lookup(&self, handle: u64) -> (w: WindowInfo)
        ensures
            w == record(self.windows@, handle),
    {
        let n: usize = self.windows.len();
        let mut i: usize = 0;
        while i < n
            invariant
                n == self.windows@.len(),
                i <= n,
                forall|j: int| 0 <= j < i ==> self.windows@[j].handle != handle,
            decreases n - i,
        {
            if self.windows[i].handle == handle {
                proof {
                    let ws = self.windows@;
                    assert(first_with_handle(ws, handle, i as int));
                    let c = choose|c: int| first_with_handle(ws, handle, c);
                    assert(c == i) by {
                        if c < i {
                            assert(ws[c].handle != handle);
                        }
                        if i < c {
                            assert(ws[i as int].handle != handle);
                        }
                    }
                }
                return self.windows[i];
            }
            i = i + 1;
        }
        WindowInfo {
            handle,
            owner_pid: 0,
            visible: false,
            cloaked: false,
            ex_style: 0,
            root_owner: handle,
            last_active_popup: handle,
        }
    }
}

/// Finds the window that stands for a process: the first window of the
/// snapshot, in listing order, that the process owns. A process without a
/// window gives `None`.
pub fn get_hwnd_by_pid(desktop: &Desktop, target_pid: u32) -> (found: Option<u64>)
    ensures
        found == window_of(desktop.windows@, target_pid),
        found is None <==> forall|i: int|
            0 <= i < desktop.windows@.len() ==> desktop.windows@[i].owner_pid != target_pid,
{
    let n: usize = desktop.windows.len();
    let mut i: usize = 0;
    while i < n
        invariant
            n == desktop.windows@.len(),
            i <= n,
            forall|j: int| 0 <= j < i ==> desktop.windows@[j].owner_pid != target_pid,
        decreases n - i,
    {
        if desktop.windows[i].owner_pid == target_pid {
            proof {
                let ws = desktop.windows@;
                assert(first_owned_by(ws, target_pid, i as int));
                let c = choose|c: int| first_owned_by(ws, target_pid, c);
                assert(c == i) by {
                    if c < i {
                        assert(ws[c].owner_pid != target_pid);
                    }
                    if i < c {
                        assert(ws[i as int].owner_pid != target_pid);
                    }
                }
            }
            return Some(desktop.windows[i].handle);
        }
        i = i + 1;
    }
    None
}

/// Decides whether a window is one the user would count as open, as a taskbar
/// would show it.
///
/// With `show_all_processes` the answer is always yes. Otherwise the window's
/// root owner is taken, its chain of last active popups is followed to a
/// window that is its own popup or to the first visible popup (in at most as
/// many steps as the snapshot has windows, so a chain that loops ends too),
/// and that window must be visible, not cloaked and no tool window.
pub fn is_pseudo_open_in_taskbar(
    desktop: &Desktop,
    hwnd: u64,
    show_all_processes: bool,
) -> (shown: bool)
    ensures
        shown == user_visible(desktop.windows@, hwnd, show_all_processes),
        show_all_processes ==> shown,
{
    if show_all_processes {
        return true;
    }
    let ghost ws = desktop.windows@;
    let root: u64 = desktop.lookup(hwnd).root_owner;
    let mut last: u64 = root;
    let mut steps: usize = desktop.windows.len();
    let mut done: bool = false;
    while !done && steps > 0
        invariant
            ws == desktop.windows@,
            popup_walk(ws, root, ws.len()) == (if done {
                last
            } else {
                popup_walk(ws, last, steps as nat)
            }),
        decreases (if done { 0int } else { steps + 1 }),
    {
        let popup: u64 = desktop.lookup(last).last_active_popup;
        if popup == last {
            done = true;
        } else if desktop.lookup(popup).visible {
            last = popup;
            done = true;
        } else {
            last = popup;
            steps = steps - 1;
        }
    }
    if !desktop.lookup(last).visible {
        let popup: u64 = desktop.lookup(root).last_active_popup;
        if desktop.lookup(popup).visible {
            last = popup;
        }
    }
    assert(last == representative(ws, hwnd));
    let w: WindowInfo = desktop.lookup(last);
    if w.cloaked {
        return false;
    }
    if w.ex_style & WS_EX_TOOLWINDOW != 0 {
        return false;
    }
    if !w.visible {
        return false;
    }
    true
}

/// Picks the window that a close request for a process is posted to.
///
/// The window is looked up afresh in the snapshot given. It is returned if the
/// process has one and the window counts as open; with `unconditional` set the
/// second test is waived. `None` means that nothing is to be posted.
pub fn close_by_pid(
    desktop: &Desktop,
    target_pid: &u32,
    unconditional: bool,
) -> (target: Option<u64>)
    ensures
        target == close_target(desktop.windows@, *target_pid, unconditional),
{
    match get_hwnd_by_pid(desktop, *target_pid) {
        Some(handle) => {
            if is_pseudo_open_in_taskbar(desktop, handle, unconditional) {
                Some(handle)
            } else {
                None
            }
        },
        None => None,
    }
}

} // verus!
