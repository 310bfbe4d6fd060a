//! The label map of the assembler: label names and the word offsets they stand for.

use crate::components::chars_of;
use vstd::prelude::*;

verus! {

/// The map that a sequence of (name, pc) entries describes; a later entry wins.
pub open spec fn map_of(e: Seq<(String, u16)>) -> Map<Seq<char>, u16>
    decreases e.len(),
{
    if e.len() == 0 {
        Map::empty()
    } else {
        map_of(e.drop_last()).insert(e.last().0@, e.last().1)
    }
}

/// Label names and the word offsets they stand for.
#[derive(Debug)]
pub struct LabelMap {
    entries: Vec<(String, u16)>,
}

proof fn lemma_map_of_keys(e: Seq<(String, u16)>, k: Seq<char>)
    ensures
        map_of(e).contains_key(k) <==> exists|i: int| 0 <= i < e.len() && (#[trigger] e[i]).0@ == k,
    decreases e.len(),
{
    if e.len() > 0 {
        lemma_map_of_keys(e.drop_last(), k);
        if map_of(e.drop_last()).contains_key(k) {
            let i = choose|i: int| 0 <= i < e.drop_last().len() && (#[trigger] e.drop_last()[i]).0@ == k;
            assert(e[i] == e.drop_last()[i]);
        }
        if exists|i: int| 0 <= i < e.len() && (#[trigger] e[i]).0@ == k {
            let i = choose|i: int| 0 <= i < e.len() && (#[trigger] e[i]).0@ == k;
            if i < e.len() - 1 {
                assert(e.drop_last()[i] == e[i]);
            }
        }
    }
}

proof fn lemma_map_of_value(e: Seq<(String, u16)>, i: int)
    requires
        0 <= i < e.len(),
        forall|a: int, b: int| 0 <= a < b < e.len() ==> (#[trigger] e[a]).0@ != (#[trigger] e[b]).0@,
    ensures
        map_of(e).contains_key(e[i].0@),
        map_of(e)[e[i].0@] == e[i].1,
    decreases e.len(),
{
    if i < e.len() - 1 {
        lemma_map_of_value(e.drop_last(), i);
        assert(e.drop_last()[i] == e[i]);
        assert(e[i].0@ != e[e.len() - 1].0@);
    }
}

proof fn lemma_map_of_len(e: Seq<(String, u16)>)
    requires
        forall|a: int, b: int| 0 <= a < b < e.len() ==> (#[trigger] e[a]).0@ != (#[trigger] e[b]).0@,
    ensures
        map_of(e).len() == e.len(),
        map_of(e).dom().finite(),
    decreases e.len(),
{
    if e.len() > 0 {
        let d = e.drop_last();
        assert forall|a: int, b: int| 0 <= a < b < d.len() implies (#[trigger] d[a]).0@ != (#[trigger] d[b]).0@ by {
            assert(d[a] == e[a] && d[b] == e[b]);
        }
        lemma_map_of_len(d);
        lemma_map_of_keys(d, e.last().0@);
        if map_of(d).contains_key(e.last().0@) {
            let i = choose|i: int| 0 <= i < d.len() && (#[trigger] d[i]).0@ == e.last().0@;
            assert(d[i] == e[i]);
        }
    }
}

impl View for LabelMap {
    type V = Map<Seq<char>, u16>;

    closed spec fn view(&self) -> Map<Seq<char>, u16> {
        map_of(self.entries@)
    }
}

impl LabelMap {
    /// Whether no two entries share a name.
    pub closed spec fn wf(&self) -> bool {
        forall|a: int, b: int|
            0 <= a < b < self.entries@.len() ==> (#[trigger] self.entries@[a]).0@ != (
            #[trigger] self.entries@[b]).0@
    }

    /// An empty map.
    pub fn new() -> (r: Self)
        ensures
            r@ == Map::<Seq<char>, u16>::empty(),
            r.wf(),
    {
        LabelMap { entries: Vec::new() }
    }

    /// Number of labels.
    pub fn len(&self) -> (r: usize)
        requires
            self.wf(),
        ensures
            r == self@.len(),
    {
        proof {
            lemma_map_of_len(self.entries@);
        }
        self.entries.len()
    }

    /// Position of the entry named `name`, if any.
    fn find(&self, name: &Vec<char>) -> (r: Option<usize>)
        requires
            self.wf(),
        ensures
            r is None <==> !self@.contains_key(name@),
            r matches Some(i) ==> i < self.entries@.len() && self.entries@[i as int].0@ == name@
                && self@[name@] == self.entries@[i as int].1,
    {
        let mut i: usize = 0;
        while i < self.entries.len()
            invariant
                self.wf(),
                i <= self.entries@.len(),
                forall|j: int| 0 <= j < i ==> (#[trigger] self.entries@[j]).0@ != name@,
            decreases self.entries@.len() - i,
        {
            let same = eq_string(&self.entries[i].0, name);
            if same {
                proof {
                    lemma_map_of_value(self.entries@, i as int);
                }
                return Some(i);
            }
            i += 1;
        }
        proof {
            lemma_map_of_keys(self.entries@, name@);
        }
        None
    }

    /// Whether a label of that name is present.
    pub fn contains(&self, name: &Vec<char>) -> (r: bool)
        requires
            self.wf(),
        ensures
            r == self@.contains_key(name@),
    {
        self.find(name).is_some()
    }

    /// The word offset of a label, if present.
    pub fn lookup(&self, name: &Vec<char>) -> (r: Option<u16>)
        requires
            self.wf(),
        ensures
            r is None <==> !self@.contains_key(name@),
            r matches Some(v) ==> v == self@[name@],
    {
        match self.find(name) {
            Some(i) => Some(self.entries[i].1),
            None => None,
        }
    }

    /// The word offset of a label, if present.
    pub fn get(&self, name: &str) -> (r: Option<&u16>)
        requires
            self.wf(),
        ensures
            r is None <==> !self@.contains_key(name@),
            r matches Some(v) ==> *v == self@[name@],
    {
        let n = chars_of(name);
        match self.find(&n) {
            Some(i) => Some(&self.entries[i].1),
            None => None,
        }
    }

    /// Adds a label that is not present yet.
    pub fn insert(&mut self, name: String, pc: u16)
        requires
            old(self).wf(),
            !old(self)@.contains_key(name@),
        ensures
            final(self).wf(),
            final(self)@ == old(self)@.insert(name@, pc),
    {
        proof {
            lemma_map_of_keys(self.entries@, name@);
        }
        self.entries.push((name, pc));
        assert(self.entries@.drop_last() =~= old(self).entries@);
    }
}

/// Whether a string holds exactly the given characters.
fn eq_string(s: &String, cs: &Vec<char>) -> (r: bool)
    ensures
        r == (s@ == cs@),
{
    let v = chars_of(s.as_str());
    if v.len() != cs.len() {
        return false;
    }
    let mut i: usize = 0;
    while i < cs.len()
        invariant
            v@ == s@,
            v@.len() == cs@.len(),
            i <= cs@.len(),
            forall|j: int| 0 <= j < i ==> cs@[j] == v@[j],
        decreases cs@.len() - i,
    {
        if cs[i] != v[i] {
            return false;
        }
        i += 1;
    }
    assert(cs@ =~= v@);
    true
}

} // verus!
