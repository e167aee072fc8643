//! The table of declared links and the profiles that group them.

use vstd::prelude::*;
use crate::symlink::Symlink;

verus! {

/// One declared link: the link itself and whether it is switched off.
#[derive(Debug, Clone, PartialEq, Eq)]
pub struct LinkConfig {
    /// `Some(true)` switches the link off: it stays declared and is skipped.
    pub disabled: Option<bool>,
    pub symlink: Symlink,
}

/// The declarations: links by name and, if any are declared, profiles by
/// name, each the names of its links in order.
#[derive(Debug, Clone, PartialEq, Eq)]
pub struct Config {
    pub profiles: Option<Vec<(String, Vec<String>)>>,
    pub links: Vec<(String, LinkConfig)>,
}

/// Where `name` is declared: the index of the first entry of that name, or
/// the number of entries where there is none.
pub open spec fn place<T>(entries: Seq<(String, T)>, name: Seq<char>) -> int
    decreases entries.len(),
{
    if entries.len() == 0 || entries[0].0@ == name {
        0
    } else {
        1 + place(entries.drop_first(), name)
    }
}

/// What is declared under `name`: the first entry of that name.
pub open spec fn found<T>(entries: Seq<(String, T)>, name: Seq<char>) -> Option<T> {
    if place(entries, name) < entries.len() {
        Some(entries[place(entries, name)].1)
    } else {
        None
    }
}

/// The entries with `value` declared under `name`: in place of the first
/// entry of that name, or after all entries where there is none.
pub open spec fn put<T>(entries: Seq<(String, T)>, name: String, value: T) -> Seq<(String, T)> {
    if place(entries, name@) < entries.len() {
        entries.update(place(entries, name@), (name, value))
    } else {
        entries.push((name, value))
    }
}

/// Whether no name is declared twice.
pub open spec fn distinct<T>(entries: Seq<(String, T)>) -> bool {
    forall|i: int, j: int|
        0 <= i < j < entries.len() ==> (#[trigger] entries[i]).0@ != (#[trigger] entries[j]).0@
}

/// The place of a name is the least index at which it stands.
pub proof fn lemma_place<T>(entries: Seq<(String, T)>, name: Seq<char>)
    ensures
        0 <= place(entries, name) <= entries.len(),
        place(entries, name) < entries.len() ==> entries[place(entries, name)].0@ == name,
        forall|j: int| 0 <= j < place(entries, name) ==> (#[trigger] entries[j]).0@ != name,
    decreases entries.len(),
{
    if entries.len() > 0 && entries[0].0@ != name {
        let rest = entries.drop_first();
        lemma_place(rest, name);
        assert forall|j: int| 0 <= j < place(entries, name) implies (#[trigger] entries[j]).0@
            != name by {
            if j > 0 {
                assert(entries[j] == rest[j - 1]);
            }
        }
    }
}

/// An index at which a name stands, with none before it, is its place; and
/// where it stands nowhere, its place is the number of entries.
pub proof fn lemma_place_is<T>(entries: Seq<(String, T)>, name: Seq<char>, at: int)
    requires
        0 <= at <= entries.len(),
        at < entries.len() ==> entries[at].0@ == name,
        forall|j: int| 0 <= j < at ==> entries[j].0@ != name,
    ensures
        place(entries, name) == at,
    decreases at,
{
    if at > 0 {
        let rest = entries.drop_first();
        assert forall|j: int| 0 <= j < at - 1 implies rest[j].0@ != name by {
            assert(rest[j] == entries[j + 1]);
        }
        lemma_place_is(rest, name, at - 1);
    }
}

/// Declaring under a name changes what is found under that name and under
/// no other, and keeps the names distinct.
pub proof fn lemma_put<T>(entries: Seq<(String, T)>, name: String, value: T, other: Seq<char>)
    ensures
        found(put(entries, name, value), name@) == Some(value),
        other != name@ ==> found(put(entries, name, value), other) == found(entries, other),
        distinct(entries) ==> distinct(put(entries, name, value)),
{
    let at = place(entries, name@);
    let after = put(entries, name, value);
    lemma_place(entries, name@);
    lemma_place_is(after, name@, at);
    if other != name@ {
        let there = place(entries, other);
        lemma_place(entries, other);
        lemma_place_is(after, other, if there < entries.len() {
            there
        } else {
            after.len() as int
        });
    }
    if distinct(entries) {
        assert forall|i: int, j: int| 0 <= i < j < after.len() implies (#[trigger] after[i]).0@ != (
        #[trigger] after[j]).0@ by {
            if i != at && j != at {
                assert(entries[i].0@ != entries[j].0@);
            } else if at < entries.len() {
                assert(entries[i].0@ != entries[j].0@);
            }
        }
    }
}

/// Where `name` is declared: the index of the first entry of that name.
pub fn position<T>(entries: &Vec<(String, T)>, name: &str) -> (r: Option<usize>)
    ensures
        match r {
            Some(i) => i < entries.len() && i == place(entries@, name@),
            None => place(entries@, name@) == entries.len(),
        },
{
    let wanted: String = name.to_owned();
    let mut i: usize = 0;
    while i < entries.len()
        invariant
            i <= entries.len(),
            wanted@ == name@,
            forall|j: int| 0 <= j < i ==> entries@[j].0@ != name@,
        decreases entries.len() - i,
    {
        if entries[i].0 == wanted {
            proof {
                lemma_place_is(entries@, name@, i as int);
            }
            return Some(i);
        }
        i += 1;
    }
    proof {
        lemma_place_is(entries@, name@, entries.len() as int);
    }
    None
}

/// Declares `value` under `name`, as `put` says.
pub fn declare<T>(entries: &mut Vec<(String, T)>, name: String, value: T)
    ensures
        final(entries)@ == put(old(entries)@, name, value),
{
    match position(entries, name.as_str()) {
        Some(i) => {
            entries.set(i, (name, value));
        },
        None => {
            entries.push((name, value));
        },
    }
}

impl Config {
    /// Whether no two links and no two profiles have the same name.
    pub open spec fn wf(&self) -> bool {
        &&& distinct(self.links@)
        &&& self.profiles matches Some(profiles) ==> distinct(profiles@)
    }

    /// The link declared under `name`, if there is one.
    pub open spec fn declared(&self, name: Seq<char>) -> Option<LinkConfig> {
        found(self.links@, name)
    }

    /// The profiles, none being as good as an empty list of them.
    pub open spec fn listed(&self) -> Seq<(String, Vec<String>)> {
        match self.profiles {
            Some(profiles) => profiles@,
            None => Seq::empty(),
        }
    }

    /// The names of the links of the profile `name`, if it is declared.
    pub open spec fn members(&self, name: Seq<char>) -> Option<Vec<String>> {
        found(self.listed(), name)
    }

    /// Declarations without links and without profiles.
    pub fn new() -> (config: Config)
        ensures
            config.links@ == Seq::<(String, LinkConfig)>::empty(),
            config.profiles is None,
            config.wf(),
    {
        Config { profiles: None, links: Vec::new() }
    }

    /// Declares `link` under `name`: in place of what was declared under
    /// that name before, or after all other links where the name is new. A
    /// table in which no name stands twice stays one.
    pub fn insert(&mut self, name: String, link: LinkConfig)
        ensures
            final(self).links@ == put(old(self).links@, name, link),
            final(self).profiles == old(self).profiles,
            old(self).wf() ==> final(self).wf(),
    {
        proof {
            lemma_put(self.links@, name, link, name@);
        }
        declare(&mut self.links, name, link);
    }

    /// Declares the profile `name` with these members: in place of what was
    /// declared under that name before, or after all other profiles where
    /// the name is new.
    pub fn add_profile(&mut self, name: String, members: Vec<String>)
        ensures
            final(self).profiles is Some,
            final(self).listed() == put(old(self).listed(), name, members),
            final(self).links == old(self).links,
            old(self).wf() ==> final(self).wf(),
    {
        let mut profiles = match self.profiles.take() {
            Some(profiles) => profiles,
            None => Vec::new(),
        };
        proof {
            assert(profiles@ == old(self).listed());
            lemma_put(profiles@, name, members, name@);
        }
        declare(&mut profiles, name, members);
        self.profiles = Some(profiles);
    }

    /// The names of the links of the profile `name`, if it is declared.
    pub fn profile(&self, name: &str) -> (r: Option<&Vec<String>>)
        ensures
            match r {
                Some(names) => self.members(name@) == Some(*names),
                None => self.members(name@) is None,
            },
    {
        match &self.profiles {
            Some(profiles) => match position(profiles, name) {
                Some(i) => Some(&profiles[i].1),
                None => None,
            },
            None => None,
        }
    }

    /// The link declared under `name`, if there is one.
    pub fn link(&self, name: &str) -> (r: Option<&LinkConfig>)
        ensures
            match r {
                Some(link) => self.declared(name@) == Some(*link),
                None => self.declared(name@) is None,
            },
    {
        match position(&self.links, name) {
            Some(i) => Some(&self.links[i].1),
            None => None,
        }
    }
}

} // verus!
