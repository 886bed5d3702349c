//! The per-user store of custom builds: a namespace of a key/value store in
//! which each key is a build identifier and its value the base directory of
//! that build.

use vstd::prelude::*;
use crate::build_list::{
    distinct_names, lemma_stored, locations_map, stored, BuildList, BuildLocationView,
};
use crate::engine_utils::DiscoveryError;

verus! {

/// The namespace of the store under which custom builds are registered.
pub const SOURCE_BUILDS_KEY: &'static str = "SOFTWARE\\Epic Games\\Unreal Engine\\Builds";

/// The launcher's data directory, relative to the machine-wide directory for
/// program data.
pub const LAUNCHER_DATA_SUBDIRECTORY: &'static str = "Epic/UnrealEngineLauncher";

/// What the store holds under one key.
#[derive(Debug, PartialEq, Eq)]
pub enum StoreValue {
    /// A string.
    Text(String),
    /// A value of any other type, or one that cannot be read.
    Other,
}

/// One key of the store with its value.
#[derive(Debug, PartialEq, Eq)]
pub struct StoreEntry {
    pub key: String,
    pub value: StoreValue,
}

/// A `StoreValue` with its text as a sequence of characters.
pub enum StoreValueView {
    Text(Seq<char>),
    Other,
}

/// A `StoreEntry` with its texts as sequences of characters.
pub struct StoreEntryView {
    pub key: Seq<char>,
    pub value: StoreValueView,
}

impl View for StoreValue {
    type V = StoreValueView;

    open spec fn view(&self) -> StoreValueView {
        match self {
            StoreValue::Text(text) => StoreValueView::Text(text@),
            StoreValue::Other => StoreValueView::Other,
        }
    }
}

impl View for StoreEntry {
    type V = StoreEntryView;

    open spec fn view(&self) -> StoreEntryView {
        StoreEntryView { key: self.key@, value: self.value@ }
    }
}

/// The entries, each with its texts as sequences of characters.
pub open spec fn store_views(entries: Seq<StoreEntry>) -> Seq<StoreEntryView> {
    Seq::new(entries.len(), |i: int| entries[i]@)
}

/// The custom builds among `entries`, as a list: each key whose value is a
/// string stores that string under the key. A key with a value of another
/// type is left out. Where a key comes twice, the later value counts, at the
/// place of the earlier one.
pub open spec fn source_locations(entries: Seq<StoreEntryView>) -> Seq<BuildLocationView>
    decreases entries.len(),
{
    if entries.len() == 0 {
        Seq::empty()
    } else {
        let before = source_locations(entries.drop_last());
        match entries.last().value {
            StoreValueView::Text(path) => stored(before, entries.last().key, path),
            StoreValueView::Other => before,
        }
    }
}

/// The custom builds among `entries`, as a mapping from the build identifier
/// to the base directory.
pub open spec fn source_builds(entries: Seq<StoreEntryView>) -> Map<Seq<char>, Seq<char>>
    decreases entries.len(),
{
    if entries.len() == 0 {
        Map::empty()
    } else {
        let before = source_builds(entries.drop_last());
        match entries.last().value {
            StoreValueView::Text(path) => before.insert(entries.last().key, path),
            StoreValueView::Other => before,
        }
    }
}

/// Whether `entry` registers a build under `key`: it has that key and its
/// value is a string.
pub open spec fn registers(entry: StoreEntryView, key: Seq<char>) -> bool {
    entry.key == key && entry.value is Text
}

/// The mapping of custom builds holds a key exactly where some entry
/// registers a build under it.
pub proof fn lemma_source_builds_keys(entries: Seq<StoreEntryView>, key: Seq<char>)
    ensures
        source_builds(entries).contains_key(key) <==> exists|i: int|
            0 <= i < entries.len() && registers(#[trigger] entries[i], key),
    decreases entries.len(),
{
    if entries.len() > 0 {
        let shorter = entries.drop_last();
        lemma_source_builds_keys(shorter, key);
        if source_builds(shorter).contains_key(key) {
            let i = choose|i: int| 0 <= i < shorter.len() && registers(#[trigger] shorter[i], key);
            assert(registers(entries[i], key));
        }
        if registers(entries.last(), key) {
            assert(registers(entries[entries.len() - 1], key));
        }
        if exists|i: int| 0 <= i < entries.len() && registers(#[trigger] entries[i], key) {
            let i = choose|i: int| 0 <= i < entries.len() && registers(#[trigger] entries[i], key);
            if i < shorter.len() {
                assert(registers(shorter[i], key));
            }
        }
    }
}

/// Under a key the mapping of custom builds holds the string of the last
/// entry that registers a build under it.
pub proof fn lemma_source_builds_last_counts(entries: Seq<StoreEntryView>, key: Seq<char>, i: int)
    requires
        0 <= i < entries.len(),
        registers(entries[i], key),
        forall|j: int| i < j < entries.len() ==> !registers(#[trigger] entries[j], key),
    ensures
        source_builds(entries).contains_key(key),
        source_builds(entries)[key] == entries[i].value->Text_0,
    decreases entries.len(),
{
    let shorter = entries.drop_last();
    let last = entries.len() - 1;
    if i < last {
        assert(!registers(entries[last], key));
        assert(shorter[i] == entries[i]);
        assert forall|j: int| i < j < shorter.len() implies !registers(
            #[trigger] shorter[j],
            key,
        ) by {
            assert(shorter[j] == entries[j]);
        }
        lemma_source_builds_last_counts(shorter, key, i);
    }
}

/// The list of custom builds holds no identifier twice, and stands for the
/// mapping of custom builds.
pub proof fn lemma_source_locations(entries: Seq<StoreEntryView>)
    ensures
        distinct_names(source_locations(entries)),
        locations_map(source_locations(entries)) == source_builds(entries),
    decreases entries.len(),
{
    if entries.len() > 0 {
        lemma_source_locations(entries.drop_last());
        match entries.last().value {
            StoreValueView::Text(path) => {
                lemma_stored(source_locations(entries.drop_last()), entries.last().key, path);
            },
            StoreValueView::Other => {},
        }
    }
}

/// What the store gives (`None`: its namespace cannot be opened).
pub open spec fn source_locations_of(store: Option<Seq<StoreEntryView>>) -> Result<
    Seq<BuildLocationView>,
    DiscoveryError,
> {
    match store {
        None => Err(DiscoveryError::StoreUnavailable),
        Some(entries) => Ok(source_locations(entries)),
    }
}

/// What was read from the store, with its texts as sequences of characters.
pub open spec fn store_view(store: Option<Vec<StoreEntry>>) -> Option<Seq<StoreEntryView>> {
    match store {
        Some(entries) => Some(store_views(entries@)),
        None => None,
    }
}

/// The custom builds that the store registers, from the entries read under
/// its namespace; `None` stands for a namespace that cannot be opened.
pub fn get_source_builds(store: Option<Vec<StoreEntry>>) -> (builds: Result<
    BuildList,
    DiscoveryError,
>)
    ensures
        match builds {
            Ok(list) => {
                &&& list.wf()
                &&& source_locations_of(store_view(store)) == Ok::<
                    Seq<BuildLocationView>,
                    DiscoveryError,
                >(list.locations())
                &&& store matches Some(entries) && list@ == source_builds(store_views(entries@))
            },
            Err(error) => source_locations_of(store_view(store)) == Err::<
                Seq<BuildLocationView>,
                DiscoveryError,
            >(error),
        },
{
    let entries = match store {
        Some(entries) => entries,
        None => {
            return Err(DiscoveryError::StoreUnavailable);
        },
    };
    let ghost views = store_views(entries@);
    let mut builds = BuildList::new();
    let mut i: usize = 0;
    while i < entries.len()
        invariant
            i <= entries@.len(),
            views == store_views(entries@),
            builds.wf(),
            builds.locations() == source_locations(views.take(i as int)),
        decreases entries@.len() - i,
    {
        let entry = &entries[i];
        proof {
            assert(views.take(i + 1).drop_last() =~= views.take(i as int));
        }
        match &entry.value {
            StoreValue::Text(path) => {
                builds.insert(entry.key.clone(), path.clone());
            },
            StoreValue::Other => {},
        }
        i += 1;
    }
    proof {
        assert(views.take(i as int) =~= views);
        lemma_source_locations(views);
    }
    Ok(builds)
}

} // verus!
