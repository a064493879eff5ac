//! The state of the tool and its poll cycle: from a snapshot of processes
//! and windows to the set of applications that a bulk close would ask to
//! close, and from there to the windows that get the request.

use vstd::prelude::*;
use crate::desktop::{close_by_pid, close_target, Desktop, WindowInfo};
use crate::hotkey::HotkeyEvent;
use crate::name_list::{texts, NameList};
use crate::names::{loosely_check_if_real_app, plausible_user_app};
use crate::process_list::{keys, lemma_map_of, map_of, ProcessList};

verus! {

/// One row of the process table: a process id and the name of its image.
#[derive(Debug)]
pub struct ProcessRecord {
    pub pid: u32,
    pub image_name: String,
}

/// What is kept from one run of the tool to the next.
#[derive(Debug)]
pub struct SavedState {
    pub allowlist: Vec<String>,
    pub killlist: Vec<String>,
    pub show_all_processes: bool,
}

/// The state of the tool.
#[derive(Debug)]
pub struct Expurgate {
    /// The closable set of the last poll.
    pub processlist: ProcessList,
    /// Every process of the last poll that owns a window, whatever its name.
    pub unf_processlist: ProcessList,
    /// Names that are never closed.
    pub allowlist: NameList,
    /// Names that are closed whether or not they pass the filters.
    pub killlist: NameList,
    /// Whether the advanced part of the display is on.
    pub show_all_processes: bool,
}

/// `saved` holds what is kept of `app`: the names of both lists, in whatever
/// order, and the flag.
pub open spec fn holds_state_of(saved: SavedState, app: Expurgate) -> bool {
    &&& texts(saved.allowlist@).to_set() == app.allowlist@
    &&& texts(saved.killlist@).to_set() == app.killlist@
    &&& saved.show_all_processes == app.show_all_processes
}

/// Saving and loading again gives back the same allow list, the same kill
/// list and the same flag, in whatever order the names were stored.
pub proof fn lemma_save_load_round_trip(before: Expurgate, saved: SavedState, after: Expurgate)
    requires
        holds_state_of(saved, before),
        holds_state_of(saved, after),
    ensures
        after.allowlist@ == before.allowlist@,
        after.killlist@ == before.killlist@,
        after.show_all_processes == before.show_all_processes,
{
}

/// The candidate set: each process that has a window to which a close request
/// may go, under its image name. Processes are taken in the order given, and
/// of several with one name the last one stays.
pub open spec fn candidates(
    processes: Seq<ProcessRecord>,
    windows: Seq<WindowInfo>,
    show_all: bool,
) -> Map<Seq<char>, u32>
    decreases processes.len(),
{
    if processes.len() == 0 {
        Map::empty()
    } else {
        let rest = candidates(processes.drop_last(), windows, show_all);
        let p = processes.last();
        if close_target(windows, p.pid, show_all) is Some {
            rest.insert(p.image_name@, p.pid)
        } else {
            rest
        }
    }
}

/// The process has a window to which a close request may go.
pub open spec fn has_target(p: ProcessRecord, windows: Seq<WindowInfo>, show_all: bool) -> bool {
    close_target(windows, p.pid, show_all) is Some
}

/// The candidate set holds exactly the names of the processes that have a
/// target window, each with the id of the last such process of that name.
pub proof fn lemma_candidates(
    processes: Seq<ProcessRecord>,
    windows: Seq<WindowInfo>,
    show_all: bool,
)
    ensures
        forall|name: Seq<char>| #[trigger]
            candidates(processes, windows, show_all).contains_key(name) <==> exists|i: int|
                0 <= i < processes.len() && has_target(#[trigger] processes[i], windows, show_all)
                    && processes[i].image_name@ == name,
        forall|i: int|
            0 <= i < processes.len() && has_target(#[trigger] processes[i], windows, show_all) && (
            forall|j: int|
                i < j < processes.len() && has_target(#[trigger] processes[j], windows, show_all)
                    ==> processes[j].image_name@ != processes[i].image_name@) ==> candidates(
                processes,
                windows,
                show_all,
            )[processes[i].image_name@] == processes[i].pid,
    decreases processes.len(),
{
    let all = candidates(processes, windows, show_all);
    if processes.len() > 0 {
        let front = processes.drop_last();
        let rest = candidates(front, windows, show_all);
        let p = processes.last();
        let n = processes.len() - 1;
        lemma_candidates(front, windows, show_all);
        assert(processes[n] == p);
        assert forall|name: Seq<char>| #[trigger]
            all.contains_key(name) <==> exists|i: int|
                0 <= i < processes.len() && has_target(#[trigger] processes[i], windows, show_all)
                    && processes[i].image_name@ == name by {
            if all.contains_key(name) {
                if rest.contains_key(name) {
                    let i = choose|i: int|
                        0 <= i < front.len() && has_target(#[trigger] front[i], windows, show_all)
                            && front[i].image_name@ == name;
                    assert(processes[i] == front[i]);
                } else {
                    assert(has_target(processes[n], windows, show_all));
                }
            }
            if exists|i: int|
                0 <= i < processes.len() && has_target(#[trigger] processes[i], windows, show_all)
                    && processes[i].image_name@ == name {
                let i = choose|i: int|
                    0 <= i < processes.len() && has_target(
                        #[trigger] processes[i],
                        windows,
                        show_all,
                    ) && processes[i].image_name@ == name;
                if i < n {
                    assert(front[i] == processes[i]);
                    assert(rest.contains_key(name));
                }
            }
        }
        assert forall|i: int|
            0 <= i < processes.len() && has_target(#[trigger] processes[i], windows, show_all) && (
            forall|j: int|
                i < j < processes.len() && has_target(#[trigger] processes[j], windows, show_all)
                    ==> processes[j].image_name@ != processes[i].image_name@) implies all[processes[i]
                .image_name@] == processes[i].pid by {
            if i < n {
                assert(front[i] == processes[i]);
                assert forall|j: int|
                    i < j < front.len() && has_target(
                        #[trigger] front[j],
                        windows,
                        show_all,
                    ) implies front[j].image_name@ != front[i].image_name@ by {
                    assert(front[j] == processes[j]);
                }
                assert(rest[front[i].image_name@] == front[i].pid);
                if has_target(p, windows, show_all) {
                    assert(processes[n].image_name@ != processes[i].image_name@);
                }
            }
        }
    }
}

/// A working set without the names of an allow list.
pub open spec fn without(set: Map<Seq<char>, u32>, allow: Set<Seq<char>>) -> Map<Seq<char>, u32> {
    set.remove_keys(allow)
}

/// The entries of a working set that look like applications of the user's.
pub open spec fn plausible_part(set: Map<Seq<char>, u32>) -> Map<Seq<char>, u32> {
    set.restrict(
        Set::new(|name: Seq<char>| set.contains_key(name) && plausible_user_app(set[name], name)),
    )
}

/// The closable set of one poll: the candidates that count as open, less the
/// allow list, less what the name filter turns down.
pub open spec fn closable(
    processes: Seq<ProcessRecord>,
    windows: Seq<WindowInfo>,
    allow: Set<Seq<char>>,
) -> Map<Seq<char>, u32> {
    plausible_part(without(candidates(processes, windows, false), allow))
}

/// The closable set holds exactly the candidates that count as open, that
/// the allow list does not name and that the name filter lets pass, each
/// with the process id that the candidate set gives it.
pub proof fn lemma_closable_members(
    processes: Seq<ProcessRecord>,
    windows: Seq<WindowInfo>,
    allow: Set<Seq<char>>,
)
    ensures
        forall|name: Seq<char>| #[trigger]
            closable(processes, windows, allow).contains_key(name) <==> {
                &&& candidates(processes, windows, false).contains_key(name)
                &&& !allow.contains(name)
                &&& plausible_user_app(candidates(processes, windows, false)[name], name)
            },
        forall|name: Seq<char>| #[trigger]
            closable(processes, windows, allow).contains_key(name) ==> closable(
                processes,
                windows,
                allow,
            )[name] == candidates(processes, windows, false)[name],
{
}

/// Whether a name is among those picked for a sweep; without a selection
/// every name is.
pub open spec fn picked(only: Option<Set<Seq<char>>>, name: Seq<char>) -> bool {
    match only {
        Some(names) => names.contains(name),
        None => true,
    }
}

/// The windows that one sweep over `entries` posts a close request to, in
/// the order of the entries: for each picked entry the close target of its
/// process, where it has one.
pub open spec fn sweep(
    entries: Seq<(Seq<char>, u32)>,
    windows: Seq<WindowInfo>,
    only: Option<Set<Seq<char>>>,
    unconditional: bool,
) -> Seq<u64>
    decreases entries.len(),
{
    if entries.len() == 0 {
        Seq::empty()
    } else {
        let rest = sweep(entries.drop_last(), windows, only, unconditional);
        let e = entries.last();
        match close_target(windows, e.1, unconditional) {
            Some(handle) => if picked(only, e.0) {
                rest.push(handle)
            } else {
                rest
            },
            None => rest,
        }
    }
}

/// The windows that one bulk close posts a close request to: those of the
/// closable set that still count as open, then those of the kill list's names
/// among all processes with a window, open or not.
pub open spec fn dispatch(
    closable: Seq<(Seq<char>, u32)>,
    unfiltered: Seq<(Seq<char>, u32)>,
    kill: Set<Seq<char>>,
    windows: Seq<WindowInfo>,
) -> Seq<u64> {
    sweep(closable, windows, None, false) + sweep(unfiltered, windows, Some(kill), true)
}

/// Some picked entry of the working set has `handle` as its close target.
pub open spec fn wanted_by(
    set: Map<Seq<char>, u32>,
    windows: Seq<WindowInfo>,
    only: Option<Set<Seq<char>>>,
    unconditional: bool,
    handle: u64,
) -> bool {
    exists|name: Seq<char>| #[trigger]
        set.contains_key(name) && picked(only, name) && close_target(
            windows,
            set[name],
            unconditional,
        ) == Some(handle)
}

/// Taking the allow list out of a working set a second time changes nothing.
pub proof fn lemma_without_idempotent(set: Map<Seq<char>, u32>, allow: Set<Seq<char>>)
    ensures
        without(without(set, allow), allow) == without(set, allow),
{
    assert(without(without(set, allow), allow) =~= without(set, allow));
}

/// A sweep posts to exactly the close targets of its picked entries.
pub proof fn lemma_sweep_members(
    entries: Seq<(Seq<char>, u32)>,
    windows: Seq<WindowInfo>,
    only: Option<Set<Seq<char>>>,
    unconditional: bool,
)
    ensures
        forall|handle: u64|
            sweep(entries, windows, only, unconditional).contains(handle) <==> exists|i: int|
                0 <= i < entries.len() && picked(only, (#[trigger] entries[i]).0) && close_target(
                    windows,
                    entries[i].1,
                    unconditional,
                ) == Some(handle),
    decreases entries.len(),
{
    let all = sweep(entries, windows, only, unconditional);
    if entries.len() == 0 {
        assert forall|handle: u64| !all.contains(handle) by {}
    } else {
        let front = entries.drop_last();
        let rest = sweep(front, windows, only, unconditional);
        let e = entries.last();
        lemma_sweep_members(front, windows, only, unconditional);
        assert forall|handle: u64| all.contains(handle) <==> exists|i: int|
            0 <= i < entries.len() && picked(only, (#[trigger] entries[i]).0) && close_target(
                windows,
                entries[i].1,
                unconditional,
            ) == Some(handle) by {
            let hit = picked(only, e.0) && close_target(windows, e.1, unconditional) == Some(
                handle,
            );
            if all.contains(handle) {
                let k = choose|k: int| 0 <= k < all.len() && all[k] == handle;
                if k < rest.len() {
                    assert(rest[k] == handle);
                    assert(rest.contains(handle));
                    let i = choose|i: int|
                        0 <= i < front.len() && picked(only, (#[trigger] front[i]).0)
                            && close_target(windows, front[i].1, unconditional) == Some(handle);
                    assert(entries[i] == front[i]);
                } else {
                    assert(hit);
                    assert(entries[entries.len() - 1] == e);
                }
            }
            if exists|i: int|
                0 <= i < entries.len() && picked(only, (#[trigger] entries[i]).0) && close_target(
                    windows,
                    entries[i].1,
                    unconditional,
                ) == Some(handle) {
                let i = choose|i: int|
                    0 <= i < entries.len() && picked(only, (#[trigger] entries[i]).0)
                        && close_target(windows, entries[i].1, unconditional) == Some(handle);
                if i < front.len() {
                    assert(front[i] == entries[i]);
                    assert(rest.contains(handle));
                    let k = choose|k: int| 0 <= k < rest.len() && rest[k] == handle;
                    assert(all[k] == handle);
                } else {
                    assert(all == rest.push(handle));
                    assert(all[rest.len() as int] == handle);
                }
            }
        }
    }
}

/// A bulk close posts a request to a window exactly if the window is the
/// close target of an entry of the closable set, or the window, open or not,
/// of a process that the kill list names.
pub proof fn lemma_dispatch_members(
    closable: Seq<(Seq<char>, u32)>,
    unfiltered: Seq<(Seq<char>, u32)>,
    kill: Set<Seq<char>>,
    windows: Seq<WindowInfo>,
)
    requires
        keys(closable).no_duplicates(),
        keys(unfiltered).no_duplicates(),
    ensures
        forall|handle: u64| #[trigger]
            dispatch(closable, unfiltered, kill, windows).contains(handle) <==> wanted_by(
                map_of(closable),
                windows,
                None,
                false,
                handle,
            ) || wanted_by(map_of(unfiltered), windows, Some(kill), true, handle),
{
    let first = sweep(closable, windows, None, false);
    let second = sweep(unfiltered, windows, Some(kill), true);
    lemma_sweep_wanted(closable, windows, None, false);
    lemma_sweep_wanted(unfiltered, windows, Some(kill), true);
    assert forall|handle: u64| #[trigger]
        (first + second).contains(handle) <==> first.contains(handle) || second.contains(
            handle,
        ) by {
        if (first + second).contains(handle) {
            let k = choose|k: int| 0 <= k < (first + second).len() && (first + second)[k] == handle;
            if k < first.len() {
                assert(first[k] == handle);
            } else {
                assert(second[k - first.len()] == handle);
            }
        }
        if first.contains(handle) {
            let k = choose|k: int| 0 <= k < first.len() && first[k] == handle;
            assert((first + second)[k] == handle);
        }
        if second.contains(handle) {
            let k = choose|k: int| 0 <= k < second.len() && second[k] == handle;
            assert((first + second)[k + first.len()] == handle);
        }
    }
}

/// With no name twice among the entries, a sweep posts to exactly the close
/// targets of the picked entries of the map that the entries stand for.
pub proof fn lemma_sweep_wanted(
    entries: Seq<(Seq<char>, u32)>,
    windows: Seq<WindowInfo>,
    only: Option<Set<Seq<char>>>,
    unconditional: bool,
)
    requires
        keys(entries).no_duplicates(),
    ensures
        forall|handle: u64| #[trigger]
            sweep(entries, windows, only, unconditional).contains(handle) <==> wanted_by(
                map_of(entries),
                windows,
                only,
                unconditional,
                handle,
            ),
{
    lemma_sweep_members(entries, windows, only, unconditional);
    lemma_map_of(entries);
    let set = map_of(entries);
    assert forall|handle: u64| #[trigger]
        sweep(entries, windows, only, unconditional).contains(handle) <==> wanted_by(
            set,
            windows,
            only,
            unconditional,
            handle,
        ) by {
        if sweep(entries, windows, only, unconditional).contains(handle) {
            let i = choose|i: int|
                0 <= i < entries.len() && picked(only, (#[trigger] entries[i]).0) && close_target(
                    windows,
                    entries[i].1,
                    unconditional,
                ) == Some(handle);
            assert(set.contains_key(entries[i].0) && set[entries[i].0] == entries[i].1);
        }
        if wanted_by(set, windows, only, unconditional, handle) {
            let name = choose|name: Seq<char>| #[trigger]
                set.contains_key(name) && picked(only, name) && close_target(
                    windows,
                    set[name],
                    unconditional,
                ) == Some(handle);
            let i = choose|i: int| 0 <= i < entries.len() && entries[i].0 == name;
            assert(set.contains_key(entries[i].0) && set[entries[i].0] == entries[i].1);
            assert(picked(only, entries[i].0));
        }
    }
}

/// Collects the candidate set of one poll.
fn gather(processes: &Vec<ProcessRecord>, desktop: &Desktop, show_all: bool) -> (found: ProcessList)
    ensures
        found@ == candidates(processes@, desktop.windows@, show_all),
{
    let mut found = ProcessList::new();
    let n: usize = processes.len();
    let mut i: usize = 0;
    while i < n
        invariant
            n == processes@.len(),
            i <= n,
            found@ == candidates(processes@.subrange(0, i as int), desktop.windows@, show_all),
        decreases n - i,
    {
        proof {
            assert(processes@.subrange(0, i + 1).drop_last() =~= processes@.subrange(0, i as int));
        }
        let p = &processes[i];
        if close_by_pid(desktop, &p.pid, show_all).is_some() {
            found.insert(p.image_name.clone(), p.pid);
        }
        i = i + 1;
    }
    assert(processes@.subrange(0, n as int) =~= processes@);
    found
}

/// Takes from a candidate set what the allow list names and what the name
/// filter turns down.
fn screen(found: &ProcessList, allow: &NameList) -> (kept: ProcessList)
    ensures
        kept@ == plausible_part(without(found@, allow@)),
{
    let mut kept = ProcessList::new();
    let n: usize = found.len();
    let mut i: usize = 0;
    assert(plausible_part(without(Map::<Seq<char>, u32>::empty(), allow@)) =~= Map::<
        Seq<char>,
        u32,
    >::empty());
    while i < n
        invariant
            n == found.pairs().len(),
            i <= n,
            found.wf(),
            kept@ == plausible_part(without(map_of(found.pairs().subrange(0, i as int)), allow@)),
        decreases n - i,
    {
        let name = found.name_at(i);
        let pid: u32 = found.pid_at(i);
        proof {
            let all = found.pairs();
            let front = all.subrange(0, i as int);
            let next = all.subrange(0, i + 1);
            assert(next.drop_last() =~= front);
            assert(map_of(next) == map_of(front).insert(name@, pid));
            assert forall|a: int, b: int|
                0 <= a < front.len() && 0 <= b < front.len() && a != b implies keys(front)[a]
                != keys(front)[b] by {
                assert(keys(all)[a] != keys(all)[b]);
            }
            lemma_map_of(front);
            assert(!map_of(front).contains_key(name@)) by {
                if map_of(front).contains_key(name@) {
                    let j = choose|j: int| 0 <= j < front.len() && front[j].0 == name@;
                    assert(keys(all)[j] != keys(all)[i as int]);
                }
            }
            let before = plausible_part(without(map_of(front), allow@));
            let after = plausible_part(without(map_of(next), allow@));
            if !allow@.contains(name@) && plausible_user_app(pid, name@) {
                assert(after =~= before.insert(name@, pid));
            } else {
                assert(after =~= before);
            }
        }
        if !allow.contains(name.as_str()) && loosely_check_if_real_app(&pid, name) {
            kept.insert(name.clone(), pid);
        }
        i = i + 1;
    }
    assert(found.pairs().subrange(0, n as int) =~= found.pairs());
    kept
}

/// One sweep over a working set: the windows to which a close request goes.
fn sweep_list(
    list: &ProcessList,
    desktop: &Desktop,
    only: Option<&NameList>,
    unconditional: bool,
) -> (targets: Vec<u64>)
    ensures
        targets@ == sweep(
            list.pairs(),
            desktop.windows@,
            match only {
                Some(names) => Some(names@),
                None => None,
            },
            unconditional,
        ),
{
    let ghost chosen: Option<Set<Seq<char>>> = match only {
        Some(names) => Some(names@),
        None => None,
    };
    let mut targets: Vec<u64> = Vec::new();
    let n: usize = list.len();
    let mut i: usize = 0;
    while i < n
        invariant
            n == list.pairs().len(),
            i <= n,
            chosen == (match only {
                Some(names) => Some(names@),
                None => None,
            }),
            targets@ == sweep(
                list.pairs().subrange(0, i as int),
                desktop.windows@,
                chosen,
                unconditional,
            ),
        decreases n - i,
    {
        proof {
            assert(list.pairs().subrange(0, i + 1).drop_last() =~= list.pairs().subrange(
                0,
                i as int,
            ));
        }
        let name = list.name_at(i);
        let pid: u32 = list.pid_at(i);
        let wanted: bool = match only {
            Some(names) => names.contains(name.as_str()),
            None => true,
        };
        if wanted {
            match close_by_pid(desktop, &pid, unconditional) {
                Some(handle) => {
                    targets.push(handle);
                },
                None => {},
            }
        }
        i = i + 1;
    }
    assert(list.pairs().subrange(0, n as int) =~= list.pairs());
    targets
}

impl Default for Expurgate {
    /// The state of a first run: empty lists, the flag off.
    fn default() -> (app: Expurgate)
        ensures
            app.processlist@ == Map::<Seq<char>, u32>::empty(),
            app.unf_processlist@ == Map::<Seq<char>, u32>::empty(),
            app.allowlist@ == Set::<Seq<char>>::empty(),
            app.killlist@ == Set::<Seq<char>>::empty(),
            !app.show_all_processes,
    {
        Expurgate::new(None)
    }
}

impl Expurgate {
    /// The state at start-up: the lists and the flag as they were saved, or
    /// empty lists and the flag off where nothing was saved; no process is
    /// known yet.
    pub fn new(saved: Option<SavedState>) -> (app: Expurgate)
        ensures
            app.processlist@ == Map::<Seq<char>, u32>::empty(),
            app.unf_processlist@ == Map::<Seq<char>, u32>::empty(),
            match saved {
                Some(s) => holds_state_of(s, app),
                None => {
                    &&& app.allowlist@ == Set::<Seq<char>>::empty()
                    &&& app.killlist@ == Set::<Seq<char>>::empty()
                    &&& !app.show_all_processes
                },
            },
    {
        match saved {
            Some(s) => Expurgate {
                processlist: ProcessList::new(),
                unf_processlist: ProcessList::new(),
                allowlist: NameList::from_names(&s.allowlist),
                killlist: NameList::from_names(&s.killlist),
                show_all_processes: s.show_all_processes,
            },
            None => Expurgate {
                processlist: ProcessList::new(),
                unf_processlist: ProcessList::new(),
                allowlist: NameList::new(),
                killlist: NameList::new(),
                show_all_processes: false,
            },
        }
    }

    /// What is to be kept for the next run: both lists and the flag.
    pub fn save(&self) -> (saved: SavedState)
        ensures
            holds_state_of(saved, *self),
    {
        SavedState {
            allowlist: self.allowlist.to_vec(),
            killlist: self.killlist.to_vec(),
            show_all_processes: self.show_all_processes,
        }
    }

    /// One poll: works out the closable set and the unfiltered set from a
    /// fresh snapshot of the processes and the windows. The lists of names and
    /// the flag stay as they are.
    pub fn refresh(&mut self, processes: &Vec<ProcessRecord>, desktop: &Desktop)
        ensures
            final(self).processlist@ == closable(
                processes@,
                desktop.windows@,
                old(self).allowlist@,
            ),
            final(self).unf_processlist@ == candidates(processes@, desktop.windows@, true),
            final(self).allowlist == old(self).allowlist,
            final(self).killlist == old(self).killlist,
            final(self).show_all_processes == old(self).show_all_processes,
    {
        let found = gather(processes, desktop, false);
        self.processlist = screen(&found, &self.allowlist);
        self.unf_processlist = gather(processes, desktop, true);
    }

    /// One bulk close: the windows to which a close request is to be posted,
    /// each looked up afresh in the snapshot given. First come the windows of
    /// the closable set that still count as open, then those of the processes
    /// that the kill list names, open or not.
    pub fn close_targets(&self, desktop: &Desktop) -> (targets: Vec<u64>)
        ensures
            targets@ == dispatch(
                self.processlist.pairs(),
                self.unf_processlist.pairs(),
                self.killlist@,
                desktop.windows@,
            ),
            forall|handle: u64| #[trigger]
                targets@.contains(handle) <==> wanted_by(
                    self.processlist@,
                    desktop.windows@,
                    None,
                    false,
                    handle,
                ) || wanted_by(
                    self.unf_processlist@,
                    desktop.windows@,
                    Some(self.killlist@),
                    true,
                    handle,
                ),
    {
        proof {
            use_type_invariant(&self.processlist);
            use_type_invariant(&self.unf_processlist);
            lemma_dispatch_members(
                self.processlist.pairs(),
                self.unf_processlist.pairs(),
                self.killlist@,
                desktop.windows@,
            );
        }
        let mut targets = sweep_list(&self.processlist, desktop, None, false);
        let mut forced = sweep_list(&self.unf_processlist, desktop, Some(&self.killlist), true);
        targets.append(&mut forced);
        targets
    }

    /// What one event from the hotkey listener leads to: each `Kill` is one
    /// bulk close of its own.
    pub fn handle_event(&self, event: HotkeyEvent, desktop: &Desktop) -> (targets: Vec<u64>)
        ensures
            targets@ == dispatch(
                self.processlist.pairs(),
                self.unf_processlist.pairs(),
                self.killlist@,
                desktop.windows@,
            ),
    {
        match event {
            HotkeyEvent::Kill => self.close_targets(desktop),
        }
    }
}

} // verus!
