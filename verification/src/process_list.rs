//! The working set of one poll: image names, each with the id of the one
//! process that stands for it.

use vstd::prelude::*;
use vstd::string::*;

verus! {

/// One process of the working set.
#[derive(Debug)]
pub struct AppEntry {
    pub image_name: String,
    pub pid: u32,
}

/// The names of a sequence of (name, pid) pairs, pair by pair.
pub open spec fn keys(ps: Seq<(Seq<char>, u32)>) -> Seq<Seq<char>> {
    Seq::new(ps.len(), |i: int| ps[i].0)
}

/// The map from name to pid that a sequence of pairs stands for. Where a name
/// comes twice, the later pair counts.
pub open spec fn map_of(ps: Seq<(Seq<char>, u32)>) -> Map<Seq<char>, u32>
    decreases ps.len(),
{
    if ps.len() == 0 {
        Map::empty()
    } else {
        map_of(ps.drop_last()).insert(ps.last().0, ps.last().1)
    }
}

/// With no name twice, the map holds exactly the pairs of the sequence.
pub proof fn lemma_map_of(ps: Seq<(Seq<char>, u32)>)
    requires
        keys(ps).no_duplicates(),
    ensures
        forall|n: Seq<char>| #[trigger]
            map_of(ps).contains_key(n) <==> exists|i: int| 0 <= i < ps.len() && ps[i].0 == n,
        forall|i: int|
            0 <= i < ps.len() ==> map_of(ps).contains_key(#[trigger] ps[i].0) && map_of(
                ps,
            )[ps[i].0] == ps[i].1,
    decreases ps.len(),
{
    if ps.len() > 0 {
        let front = ps.drop_last();
        assert forall|i: int, j: int|
            0 <= i < front.len() && 0 <= j < front.len() && i != j implies keys(front)[i] != keys(
            front,
        )[j] by {
            assert(keys(ps)[i] != keys(ps)[j]);
        }
        lemma_map_of(front);
        assert(map_of(ps) == map_of(front).insert(ps.last().0, ps.last().1));
        assert forall|n: Seq<char>| #[trigger]
            map_of(ps).contains_key(n) <==> exists|i: int| 0 <= i < ps.len() && ps[i].0 == n by {
            if map_of(ps).contains_key(n) {
                if n == ps.last().0 {
                    assert(ps[ps.len() - 1].0 == n);
                } else {
                    assert(map_of(front).contains_key(n));
                    let i = choose|i: int| 0 <= i < front.len() && front[i].0 == n;
                    assert(front[i] == ps[i]);
                    assert(ps[i].0 == n);
                }
            }
            if exists|i: int| 0 <= i < ps.len() && ps[i].0 == n {
                let i = choose|i: int| 0 <= i < ps.len() && ps[i].0 == n;
                if i < front.len() {
                    assert(front[i].0 == n);
                    assert(map_of(front).contains_key(n));
                }
            }
        }
        assert forall|i: int| 0 <= i < ps.len() implies map_of(ps).contains_key(
            #[trigger] ps[i].0,
        ) && map_of(ps)[ps[i].0] == ps[i].1 by {
            if i < front.len() {
                assert(front[i].0 == ps[i].0);
                assert(keys(ps)[i] != keys(ps)[ps.len() - 1]);
            }
        }
    }
}

/// The (name, pid) pairs of a sequence of entries, entry by entry.
pub open spec fn pairs_of(entries: Seq<AppEntry>) -> Seq<(Seq<char>, u32)> {
    Seq::new(entries.len(), |i: int| (entries[i].image_name@, entries[i].pid))
}

/// A map from image name to process id, held as a list of entries with no
/// name twice.
#[derive(Debug)]
pub struct ProcessList {
    entries: Vec<AppEntry>,
}

impl View for ProcessList {
    type V = Map<Seq<char>, u32>;

    open spec fn view(&self) -> Map<Seq<char>, u32> {
        map_of(self.pairs())
    }
}

impl ProcessList {
    /// The entries as (name, pid) pairs, in the order in which the list
    /// stores them.
    pub closed spec fn pairs(&self) -> Seq<(Seq<char>, u32)> {
        pairs_of(self.entries@)
    }

    /// No name is stored twice.
    #[verifier::type_invariant]
    pub open spec fn wf(&self) -> bool {
        keys(self.pairs()).no_duplicates()
    }

    /// The empty list.
    pub fn new() -> (list: ProcessList)
        ensures
            list.pairs() == Seq::<(Seq<char>, u32)>::empty(),
            list@ == Map::<Seq<char>, u32>::empty(),
    {
        let list = ProcessList { entries: Vec::new() };
        assert(list.pairs() =~= Seq::<(Seq<char>, u32)>::empty());
        list
    }

    /// The number of entries.
    pub fn len(&self) -> (n: usize)
        ensures
            n == self.pairs().len(),
            self.wf(),
    {
        proof {
            use_type_invariant(self);
        }
        self.entries.len()
    }

    /// The image name of the entry at index `i`.
    pub fn name_at(&self, i: usize) -> (name: &String)
        requires
            i < self.pairs().len(),
        ensures
            name@ == self.pairs()[i as int].0,
    {
        &self.entries[i].image_name
    }

    /// The process id of the entry at index `i`.
    pub fn pid_at(&self, i: usize) -> (pid: u32)
        requires
            i < self.pairs().len(),
        ensures
            pid == self.pairs()[i as int].1,
    {
        self.entries[i].pid
    }

    /// Where the entry of `name` is stored, if there is one.
    fn position(&self, name: &String) -> (at: Option<usize>)
        ensures
            match at {
                Some(i) => i < self.pairs().len() && self.pairs()[i as int].0 == name@,
                None => forall|j: int| 0 <= j < self.pairs().len() ==> self.pairs()[j].0 != name@,
            },
    {
        let n: usize = self.entries.len();
        let mut i: usize = 0;
        while i < n
            invariant
                n == self.entries@.len(),
                i <= n,
                forall|j: int| 0 <= j < i ==> self.pairs()[j].0 != name@,
            decreases n - i,
        {
            if self.entries[i].image_name == *name {
                return Some(i);
            }
            i = i + 1;
        }
        None
    }

    /// The process id held for `name`, if any.
    pub fn get(&self, name: &str) -> (pid: Option<u32>)
        ensures
            pid == (if self@.contains_key(name@) {
                Some(self@[name@])
            } else {
                None
            }),
    {
        let owned: String = String::from_str(name);
        proof {
            use_type_invariant(self);
            lemma_map_of(self.pairs());
        }
        match self.position(&owned) {
            Some(i) => {
                assert(self.pairs()[i as int].0 == name@);
                Some(self.entries[i].pid)
            },
            None => None,
        }
    }

    /// Sets the process id held for `name`. A name that is held already keeps
    /// its one entry and takes the new id.
    pub fn insert(&mut self, name: String, pid: u32)
        ensures
            final(self)@ == old(self)@.insert(name@, pid),
    {
        proof {
            use_type_invariant(&*self);
        }
        let ghost before = self.pairs();
        let at = self.position(&name);
        let mut entries: Vec<AppEntry> = Vec::new();
        std::mem::swap(&mut entries, &mut self.entries);
        match at {
            Some(i) => {
                entries.set(i, AppEntry { image_name: name, pid });
                proof {
                    let after = pairs_of(entries@);
                    assert(after =~= before.update(i as int, (name@, pid)));
                    assert(keys(after) =~= keys(before));
                    lemma_map_of(before);
                    lemma_map_of(after);
                    assert forall|n: Seq<char>| #[trigger]
                        map_of(after).contains_key(n) <==> map_of(before).insert(
                            name@,
                            pid,
                        ).contains_key(n) by {
                        if map_of(after).contains_key(n) {
                            let j = choose|j: int| 0 <= j < after.len() && after[j].0 == n;
                            assert(before[j].0 == n);
                        }
                        if map_of(before).contains_key(n) {
                            let j = choose|j: int| 0 <= j < before.len() && before[j].0 == n;
                            assert(after[j].0 == n);
                        }
                        if n == name@ {
                            assert(after[i as int].0 == n);
                        }
                    }
                    assert forall|n: Seq<char>| #[trigger]
                        map_of(after).contains_key(n) implies map_of(after)[n] == map_of(
                        before,
                    ).insert(name@, pid)[n] by {
                        let j = choose|j: int| 0 <= j < after.len() && after[j].0 == n;
                        assert(map_of(after)[after[j].0] == after[j].1);
                        assert(before[j].0 == n);
                        assert(map_of(before)[before[j].0] == before[j].1);
                        if j == i {
                        } else {
                            assert(keys(before)[j] != keys(before)[i as int]);
                        }
                    }
                    assert(map_of(after) =~= map_of(before).insert(name@, pid));
                }
            },
            None => {
                entries.push(AppEntry { image_name: name, pid });
                proof {
                    let after = pairs_of(entries@);
                    assert(after =~= before.push((name@, pid)));
                    assert(after.drop_last() =~= before);
                    assert forall|a: int, b: int|
                        0 <= a < after.len() && 0 <= b < after.len() && a != b implies keys(
                        after,
                    )[a] != keys(after)[b] by {
                        if a < before.len() && b < before.len() {
                            assert(keys(before)[a] != keys(before)[b]);
                        }
                    }
                }
            },
        }
        self.entries = entries;
    }
}

} // verus!
