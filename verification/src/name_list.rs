//! A set of process image names, as the allow list and the kill list keep
//! one.

use vstd::prelude::*;
use vstd::string::*;
use crate::text::{is_space, lemma_blank_trims_to_nothing, trim, trimmed};

verus! {

/// The character sequences of a sequence of strings, element by element.
pub open spec fn texts(v: Seq<String>) -> Seq<Seq<char>> {
    Seq::new(v.len(), |i: int| v[i]@)
}

/// A set of names after the user typed `raw_input` to be added: the input
/// goes in without its leading and trailing white space; input that holds
/// nothing else leaves the set as it is.
pub open spec fn with_added(set: Set<Seq<char>>, raw_input: Seq<char>) -> Set<Seq<char>> {
    if trimmed(raw_input).len() > 0 {
        set.insert(trimmed(raw_input))
    } else {
        set
    }
}

/// Adding the same input a second time changes nothing: neither the set nor,
/// for a finite set, its size.
pub proof fn lemma_add_twice(set: Set<Seq<char>>, raw_input: Seq<char>)
    ensures
        with_added(with_added(set, raw_input), raw_input) == with_added(set, raw_input),
        set.finite() ==> with_added(with_added(set, raw_input), raw_input).len() == with_added(
            set,
            raw_input,
        ).len(),
{
    assert(with_added(with_added(set, raw_input), raw_input) =~= with_added(set, raw_input));
}

/// Adding input that is empty or all white space changes nothing.
pub proof fn lemma_add_blank(set: Set<Seq<char>>, raw_input: Seq<char>)
    requires
        forall|i: int| 0 <= i < raw_input.len() ==> is_space(raw_input[i]),
    ensures
        with_added(set, raw_input) == set,
{
    lemma_blank_trims_to_nothing(raw_input);
}

/// A set of image names. The order in which names were added carries no
/// meaning; a name is held at most once.
#[derive(Debug)]
pub struct NameList {
    names: Vec<String>,
}

impl View for NameList {
    type V = Set<Seq<char>>;

    open spec fn view(&self) -> Set<Seq<char>> {
        self.names().to_set()
    }
}

impl NameList {
    /// The names held, in the order in which the list stores them.
    pub closed spec fn names(&self) -> Seq<Seq<char>> {
        texts(self.names@)
    }

    /// No name is stored twice.
    #[verifier::type_invariant]
    pub open spec fn wf(&self) -> bool {
        self.names().no_duplicates()
    }

    /// The empty list.
    pub fn new() -> (list: NameList)
        ensures
            list.names() == Seq::<Seq<char>>::empty(),
            list@ == Set::<Seq<char>>::empty(),
    {
        let list = NameList { names: Vec::new() };
        assert(list.names() =~= Seq::<Seq<char>>::empty());
        assert(list@ =~= Set::<Seq<char>>::empty());
        list
    }

    /// The number of names held.
    pub fn len(&self) -> (n: usize)
        ensures
            n == self.names().len(),
            n == self@.len(),
            self@.finite(),
            self.wf(),
    {
        proof {
            use_type_invariant(self);
            self.names().unique_seq_to_set();
            vstd::seq_lib::seq_to_set_is_finite(self.names());
        }
        self.names.len()
    }

    /// The name stored at index `i`.
    pub fn name_at(&self, i: usize) -> (name: &String)
        requires
            i < self.names().len(),
        ensures
            name@ == self.names()[i as int],
            self@.contains(name@),
    {
        assert(self.names().contains(self.names()[i as int]));
        &self.names[i]
    }

    /// Where `name` is stored, if it is held.
    fn position(&self, name: &String) -> (at: Option<usize>)
        ensures
            match at {
                Some(i) => i < self.names().len() && self.names()[i as int] == name@,
                None => !self@.contains(name@),
            },
    {
        let n: usize = self.names.len();
        let mut i: usize = 0;
        while i < n
            invariant
                n == self.names@.len(),
                i <= n,
                forall|j: int| 0 <= j < i ==> self.names()[j] != name@,
            decreases n - i,
        {
            if self.names[i] == *name {
                return Some(i);
            }
            i = i + 1;
        }
        None
    }

    /// Whether `name` is held, compared character by character.
    pub fn contains(&self, name: &str) -> (held: bool)
        ensures
            held == self@.contains(name@),
    {
        let owned: String = String::from_str(name);
        let at = self.position(&owned);
        proof {
            if let Some(i) = at {
                assert(self.names().contains(self.names()[i as int]));
            }
        }
        at.is_some()
    }

    /// A list of the given names; a name given twice is held once.
    pub fn from_names(names: &Vec<String>) -> (list: NameList)
        ensures
            list@ == texts(names@).to_set(),
    {
        let mut list = NameList::new();
        let n: usize = names.len();
        let mut i: usize = 0;
        while i < n
            invariant
                n == names@.len(),
                i <= n,
                list@ == texts(names@).subrange(0, i as int).to_set(),
            decreases n - i,
        {
            let ghost before = texts(names@).subrange(0, i as int);
            list.insert(names[i].clone());
            proof {
                let after = texts(names@).subrange(0, i + 1);
                assert(after =~= before.push(names@[i as int]@));
                before.lemma_push_to_set_commute(names@[i as int]@);
            }
            i = i + 1;
        }
        assert(texts(names@).subrange(0, n as int) =~= texts(names@));
        list
    }

    /// The names held, each once, in no order that carries meaning.
    pub fn to_vec(&self) -> (names: Vec<String>)
        ensures
            texts(names@) == self.names(),
            texts(names@).to_set() == self@,
    {
        let mut out: Vec<String> = Vec::new();
        let n: usize = self.names.len();
        let mut i: usize = 0;
        while i < n
            invariant
                n == self.names@.len(),
                i <= n,
                texts(out@) == self.names().subrange(0, i as int),
            decreases n - i,
        {
            let ghost before = out@;
            out.push(self.names[i].clone());
            proof {
                let want = self.names().subrange(0, i + 1);
                assert(before.len() == i) by {
                    assert(texts(before).len() == i);
                }
                assert forall|j: int| 0 <= j < want.len() implies texts(out@)[j] == want[j] by {
                    if j < i {
                        assert(texts(before)[j] == self.names().subrange(0, i as int)[j]);
                    }
                }
                assert(texts(out@) =~= want);
            }
            i = i + 1;
        }
        assert(self.names().subrange(0, n as int) =~= self.names());
        out
    }

    /// Puts `name` into the set exactly as given. Returns whether it was new.
    pub fn insert(&mut self, name: String) -> (fresh: bool)
        ensures
            final(self)@ == old(self)@.insert(name@),
            fresh == !old(self)@.contains(name@),
            !fresh ==> final(self).names() == old(self).names(),
            fresh ==> final(self).names() == old(self).names().push(name@),
    {
        proof {
            use_type_invariant(&*self);
        }
        match self.position(&name) {
            Some(i) => {
                proof {
                    assert(self.names().contains(self.names()[i as int]));
                    assert(self@.insert(name@) =~= self@);
                }
                false
            },
            None => {
                let ghost before = self.names();
                let mut names: Vec<String> = Vec::new();
                std::mem::swap(&mut names, &mut self.names);
                names.push(name);
                proof {
                    let after = texts(names@);
                    assert(after =~= before.push(name@));
                    before.lemma_push_to_set_commute(name@);
                    assert forall|i: int, j: int|
                        0 <= i < after.len() && 0 <= j < after.len() && i != j implies after[i]
                        != after[j] by {
                        if i < before.len() {
                            assert(before.contains(before[i]));
                        }
                        if j < before.len() {
                            assert(before.contains(before[j]));
                        }
                    }
                }
                self.names = names;
                true
            },
        }
    }

    /// Adds what the user typed: the input without its leading and trailing
    /// white space. Input that holds nothing else is refused, and the set stays
    /// as it is. Returns whether the input was taken; taking a name that is
    /// held already changes nothing.
    pub fn add(&mut self, raw_input: &str) -> (taken: bool)
        ensures
            taken == (trimmed(raw_input@).len() > 0),
            final(self)@ == with_added(old(self)@, raw_input@),
            !taken ==> final(self).names() == old(self).names(),
    {
        let name: String = trim(raw_input);
        if name.as_str().unicode_len() == 0 {
            return false;
        }
        self.insert(name);
        true
    }

    /// Takes `name` out of the set; nothing happens where it is not held.
    pub fn remove(&mut self, name: &str)
        ensures
            final(self)@ == old(self)@.remove(name@),
    {
        proof {
            use_type_invariant(&*self);
        }
        let owned: String = String::from_str(name);
        match self.position(&owned) {
            Some(i) => {
                let ghost before = self.names();
                let mut names: Vec<String> = Vec::new();
                std::mem::swap(&mut names, &mut self.names);
                names.remove(i);
                proof {
                    let after = texts(names@);
                    assert(after =~= before.remove(i as int));
                    assert forall|a: int, b: int|
                        0 <= a < after.len() && 0 <= b < after.len() && a != b implies after[a]
                        != after[b] by {
                        let a0 = if a < i { a } else { a + 1 };
                        let b0 = if b < i { b } else { b + 1 };
                        assert(after[a] == before[a0] && after[b] == before[b0]);
                    }
                    let want = before.to_set().remove(name@);
                    assert forall|x: Seq<char>| after.to_set().contains(x) <==> want.contains(
                        x,
                    ) by {
                        if after.contains(x) {
                            let a = choose|a: int| 0 <= a < after.len() && after[a] == x;
                            let a0 = if a < i { a } else { a + 1 };
                            assert(before[a0] == x);
                            assert(before.contains(x));
                            assert(a0 != i);
                        }
                        if before.contains(x) && x != name@ {
                            let b = choose|b: int| 0 <= b < before.len() && before[b] == x;
                            let b1 = if b < i { b } else { b - 1 };
                            assert(after[b1] == x);
                        }
                    }
                    assert(after.to_set() =~= want);
                }
                self.names = names;
            },
            None => {
                assert(self@.remove(name@) =~= self@);
            },
        }
    }
}

} // verus!
