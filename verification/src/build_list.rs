//! Named build locations: what an enumerator of installs returns.
//!
//! A `BuildList` is a mapping from a name to a base directory, kept as a list
//! in which no name occurs twice. Storing a directory under a name that is
//! there already replaces its directory and keeps its place; a new name goes
//! to the end.

use vstd::prelude::*;
use vstd::string::StringExecFns;

verus! {

/// A name (a version label or a build identifier) and the base directory
/// registered under it.
#[derive(Debug, PartialEq, Eq)]
pub struct BuildLocation {
    pub name: String,
    pub path: String,
}

/// A `BuildLocation` with its texts as sequences of characters.
pub struct BuildLocationView {
    pub name: Seq<char>,
    pub path: Seq<char>,
}

impl View for BuildLocation {
    type V = BuildLocationView;

    open spec fn view(&self) -> BuildLocationView {
        BuildLocationView { name: self.name@, path: self.path@ }
    }
}

/// The locations, each with its texts as sequences of characters.
pub open spec fn location_views(entries: Seq<BuildLocation>) -> Seq<BuildLocationView> {
    Seq::new(entries.len(), |i: int| entries[i]@)
}

/// A mapping from names to base directories.
#[derive(Debug, PartialEq, Eq)]
pub struct BuildList {
    pub entries: Vec<BuildLocation>,
}

/// Whether no name occurs twice among `entries`.
pub open spec fn distinct_names(entries: Seq<BuildLocationView>) -> bool {
    forall|i: int, j: int|
        0 <= i < j < entries.len() ==> (#[trigger] entries[i]).name != (#[trigger] entries[j]).name
}

/// Whether `name` occurs among `entries`.
pub open spec fn has_name(entries: Seq<BuildLocationView>, name: Seq<char>) -> bool {
    exists|i: int| 0 <= i < entries.len() && (#[trigger] entries[i]).name == name
}

/// The list after `path` is stored under `name`: the location of that name
/// gets the new directory where there is one, and a new location is added at
/// the end where there is none.
pub open spec fn stored(entries: Seq<BuildLocationView>, name: Seq<char>, path: Seq<char>) -> Seq<
    BuildLocationView,
> {
    if has_name(entries, name) {
        entries.update(
            choose|i: int| 0 <= i < entries.len() && (#[trigger] entries[i]).name == name,
            BuildLocationView { name, path },
        )
    } else {
        entries.push(BuildLocationView { name, path })
    }
}

/// The mapping that a list of locations stands for: a later location replaces
/// an earlier one of the same name.
pub open spec fn locations_map(entries: Seq<BuildLocationView>) -> Map<Seq<char>, Seq<char>>
    decreases entries.len(),
{
    if entries.len() == 0 {
        Map::empty()
    } else {
        locations_map(entries.drop_last()).insert(entries.last().name, entries.last().path)
    }
}

/// The names of the mapping are the names in the list.
pub proof fn lemma_locations_map_names(entries: Seq<BuildLocationView>, name: Seq<char>)
    ensures
        locations_map(entries).contains_key(name) <==> has_name(entries, name),
    decreases entries.len(),
{
    if entries.len() > 0 {
        let shorter = entries.drop_last();
        lemma_locations_map_names(shorter, name);
        if has_name(entries, name) {
            let i = choose|i: int| 0 <= i < entries.len() && (#[trigger] entries[i]).name == name;
            if i < shorter.len() {
                assert(shorter[i].name == name);
            }
        }
    }
}

/// A list without a repeated name stays one when its last location is taken
/// away.
proof fn lemma_distinct_without_last(entries: Seq<BuildLocationView>)
    requires
        distinct_names(entries),
        entries.len() > 0,
    ensures
        distinct_names(entries.drop_last()),
{
    let shorter = entries.drop_last();
    assert forall|a: int, b: int| 0 <= a < b < shorter.len() implies (#[trigger] shorter[a]).name
        != (#[trigger] shorter[b]).name by {
        assert(shorter[a] == entries[a]);
        assert(shorter[b] == entries[b]);
    }
}

/// In a list without a repeated name, each location is what the mapping holds
/// under its name.
pub proof fn lemma_locations_map_holds(entries: Seq<BuildLocationView>, i: int)
    requires
        distinct_names(entries),
        0 <= i < entries.len(),
    ensures
        locations_map(entries).contains_key(entries[i].name),
        locations_map(entries)[entries[i].name] == entries[i].path,
    decreases entries.len(),
{
    let shorter = entries.drop_last();
    if i < entries.len() - 1 {
        lemma_distinct_without_last(entries);
        lemma_locations_map_holds(shorter, i);
    }
}

/// Replacing the directory of the location at `i` stores it under that
/// location's name.
proof fn lemma_replace_location(entries: Seq<BuildLocationView>, i: int, path: Seq<char>)
    requires
        distinct_names(entries),
        0 <= i < entries.len(),
    ensures
        locations_map(entries.update(i, BuildLocationView { name: entries[i].name, path }))
            == locations_map(entries).insert(entries[i].name, path),
    decreases entries.len(),
{
    let location = BuildLocationView { name: entries[i].name, path };
    let updated = entries.update(i, location);
    let shorter = entries.drop_last();
    let last = entries.len() - 1;
    if i == last {
        assert(updated.drop_last() =~= shorter);
    } else {
        lemma_distinct_without_last(entries);
        lemma_replace_location(shorter, i, path);
        assert(updated.drop_last() =~= shorter.update(i, location));
    }
}

/// Storing a directory under a name keeps the names of the list distinct and
/// changes the mapping at that name only.
pub proof fn lemma_stored(entries: Seq<BuildLocationView>, name: Seq<char>, path: Seq<char>)
    requires
        distinct_names(entries),
    ensures
        distinct_names(stored(entries, name, path)),
        locations_map(stored(entries, name, path)) == locations_map(entries).insert(name, path),
{
    let after = stored(entries, name, path);
    if has_name(entries, name) {
        let i = choose|i: int| 0 <= i < entries.len() && (#[trigger] entries[i]).name == name;
        lemma_replace_location(entries, i, path);
        assert forall|a: int, b: int| 0 <= a < b < after.len() implies (#[trigger] after[a]).name
            != (#[trigger] after[b]).name by {
            assert(entries[a].name != entries[b].name);
        }
    } else {
        assert(after.drop_last() =~= entries);
        assert forall|a: int, b: int| 0 <= a < b < after.len() implies (#[trigger] after[a]).name
            != (#[trigger] after[b]).name by {
            if b < entries.len() {
                assert(entries[a].name != entries[b].name);
            } else {
                assert(entries[a].name != name);
            }
        }
    }
}

impl BuildList {
    /// The locations of the list, in their order.
    pub open spec fn locations(&self) -> Seq<BuildLocationView> {
        location_views(self.entries@)
    }

    /// No name occurs twice in the list.
    pub open spec fn wf(&self) -> bool {
        distinct_names(self.locations())
    }

    /// A list without locations.
    pub fn new() -> (list: Self)
        ensures
            list.wf(),
            list.locations() == Seq::<BuildLocationView>::empty(),
            list@ == Map::<Seq<char>, Seq<char>>::empty(),
    {
        BuildList { entries: Vec::new() }
    }

    /// The base directory stored under `name`, if there is one.
    pub fn get(&self, name: &str) -> (path: Option<&String>)
        requires
            self.wf(),
        ensures
            match path {
                Some(found) => self@.contains_key(name@) && self@[name@] == found@,
                None => !self@.contains_key(name@),
            },
    {
        let wanted = String::from_str(name);
        let mut i: usize = 0;
        while i < self.entries.len()
            invariant
                self.wf(),
                wanted@ == name@,
                i <= self.entries@.len(),
                forall|k: int| 0 <= k < i ==> (#[trigger] self.locations()[k]).name != name@,
            decreases self.entries@.len() - i,
        {
            if self.entries[i].name == wanted {
                proof {
                    lemma_locations_map_holds(self.locations(), i as int);
                }
                return Some(&self.entries[i].path);
            }
            i += 1;
        }
        proof {
            lemma_locations_map_names(self.locations(), name@);
        }
        None
    }

    /// Stores `path` under `name`. A name that is new goes to the end of the
    /// list; one that is there already keeps its place and gets the new
    /// directory.
    pub fn insert(&mut self, name: String, path: String)
        requires
            old(self).wf(),
        ensures
            final(self).wf(),
            final(self).locations() == stored(old(self).locations(), name@, path@),
            final(self)@ == old(self)@.insert(name@, path@),
    {
        let ghost before = self.locations();
        let mut i: usize = 0;
        while i < self.entries.len()
            invariant
                *self == *old(self),
                before == self.locations(),
                self.wf(),
                i <= self.entries@.len(),
                forall|k: int| 0 <= k < i ==> (#[trigger] before[k]).name != name@,
            decreases self.entries@.len() - i,
        {
            if self.entries[i].name == name {
                proof {
                    lemma_stored(before, name@, path@);
                    assert(before[i as int].name == name@);
                    let chosen = choose|k: int|
                        0 <= k < before.len() && (#[trigger] before[k]).name == name@;
                    assert(chosen == i) by {
                        if chosen < i {
                            assert(before[chosen].name != before[i as int].name);
                        } else if i < chosen {
                            assert(before[i as int].name != before[chosen].name);
                        }
                    }
                }
                self.entries.set(i, BuildLocation { name, path });
                assert(self.locations() =~= stored(before, name@, path@));
                return ;
            }
            i += 1;
        }
        proof {
            lemma_stored(before, name@, path@);
        }
        self.entries.push(BuildLocation { name, path });
        assert(self.locations() =~= stored(before, name@, path@));
    }
}

impl View for BuildList {
    type V = Map<Seq<char>, Seq<char>>;

    open spec fn view(&self) -> Map<Seq<char>, Seq<char>> {
        locations_map(self.locations())
    }
}

} // verus!
