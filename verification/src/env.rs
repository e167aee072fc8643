//! A snapshot of the process environment.
//!
//! Resolution of a path is a function of the path and of the variables that
//! were set when the snapshot was taken. The caller fills the snapshot; the
//! library only reads it.

use vstd::prelude::*;

verus! {

/// The variables of an environment, by name.
#[derive(Debug)]
pub struct Env {
    vars: Vec<(String, String)>,
}

/// The map that a list of bindings stands for: a later binding of a name
/// replaces an earlier one.
pub open spec fn bindings(pairs: Seq<(String, String)>) -> Map<Seq<char>, Seq<char>>
    decreases pairs.len(),
{
    if pairs.len() == 0 {
        Map::empty()
    } else {
        bindings(pairs.drop_last()).insert(pairs.last().0@, pairs.last().1@)
    }
}

/// A name that no binding from `from` on mentions has the value that the
/// bindings before `from` give it.
proof fn lemma_bindings_skip(pairs: Seq<(String, String)>, from: int, name: Seq<char>)
    requires
        0 <= from <= pairs.len(),
        forall|j: int| from <= j < pairs.len() ==> pairs[j].0@ != name,
    ensures
        bindings(pairs).contains_key(name) == bindings(pairs.take(from)).contains_key(name),
        bindings(pairs).contains_key(name) ==> bindings(pairs)[name] == bindings(
            pairs.take(from),
        )[name],
    decreases pairs.len() - from,
{
    if from == pairs.len() {
        assert(pairs.take(from) =~= pairs);
    } else {
        let shorter = pairs.drop_last();
        assert(shorter.take(from) =~= pairs.take(from));
        lemma_bindings_skip(shorter, from, name);
    }
}

impl View for Env {
    type V = Map<Seq<char>, Seq<char>>;

    closed spec fn view(&self) -> Map<Seq<char>, Seq<char>> {
        bindings(self.vars@)
    }
}

impl Env {
    /// An environment in which no variable is set.
    pub fn new() -> (env: Env)
        ensures
            env@ == Map::<Seq<char>, Seq<char>>::empty(),
    {
        Env { vars: Vec::new() }
    }

    /// Sets `name` to `value`, replacing what it was set to before.
    pub fn set(&mut self, name: String, value: String)
        ensures
            final(self)@ == old(self)@.insert(name@, value@),
    {
        let ghost before = self.vars@;
        self.vars.push((name, value));
        assert(self.vars@.drop_last() =~= before);
    }

    /// The value of `name`, if it is set.
    pub fn get(&self, name: &str) -> (value: Option<String>)
        ensures
            match value {
                Some(v) => self@.contains_key(name@) && self@[name@] == v@,
                None => !self@.contains_key(name@),
            },
    {
        let wanted: String = name.to_owned();
        let mut i: usize = self.vars.len();
        while i > 0
            invariant
                i <= self.vars.len(),
                wanted@ == name@,
                forall|j: int| i <= j < self.vars.len() ==> self.vars@[j].0@ != name@,
            decreases i,
        {
            i -= 1;
            if self.vars[i].0 == wanted {
                proof {
                    lemma_bindings_skip(self.vars@, i + 1, name@);
                    assert(self.vars@.take(i + 1).drop_last() =~= self.vars@.take(i as int));
                }
                return Some(self.vars[i].1.clone());
            }
        }
        proof {
            lemma_bindings_skip(self.vars@, 0, name@);
        }
        None
    }
}

} // verus!
