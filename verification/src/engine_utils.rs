//! Installed engine builds: the packaged manifest that lists them, and the
//! list of installs made from every build whose metadata can be used.

use vstd::prelude::*;
use vstd::string::StringExecFns;
use crate::build_list::{
    distinct_names, lemma_stored, locations_map, stored, BuildList, BuildLocationView,
};
use crate::build_version::{
    build_version_of, contents_view, fields_of, get_engine_version, lemma_version_is_required,
    BuildVersionFieldsView, BuildVersionFile, BuildVersionView,
};
use crate::json::{
    document_model, list_field, parse_document, read_list, read_text, text_field, value_model,
    Field, JsonModel,
};
use crate::text::{remove_text_prefix, strip_prefix};

verus! {

/// What the name of an engine build starts with in the packaged manifest;
/// what follows it is the version label. The manifest lists other products
/// too, under other names.
pub const ENGINE_PREFIX: &'static str = "UE_";

/// The file name of the packaged manifest, in the launcher's data directory.
pub const LAUNCHER_MANIFEST_NAME: &'static str = "LauncherInstalled.dat";

/// Why the installs of this machine cannot be listed.
#[derive(Debug, Clone, Copy, PartialEq, Eq, Structural)]
pub enum DiscoveryError {
    /// The packaged manifest is missing or cannot be read.
    ManifestUnreadable,
    /// The packaged manifest is no JSON document with a list of installations
    /// that each name an application and a location.
    ManifestMalformed,
    /// The store of custom builds cannot be opened.
    StoreUnavailable,
}

impl DiscoveryError {
    /// The message for this error.
    pub fn message(&self) -> (text: String)
        ensures
            text@ == match *self {
                DiscoveryError::ManifestUnreadable => "Unable to read launcher DAT"@,
                DiscoveryError::ManifestMalformed => "Unable to parse launcher DAT"@,
                DiscoveryError::StoreUnavailable => "Unable to read source builds from registry"@,
            },
    {
        match self {
            DiscoveryError::ManifestUnreadable => String::from_str("Unable to read launcher DAT"),
            DiscoveryError::ManifestMalformed => String::from_str("Unable to parse launcher DAT"),
            DiscoveryError::StoreUnavailable => String::from_str(
                "Unable to read source builds from registry",
            ),
        }
    }
}

/// One engine build found on this machine, with the version that its own
/// metadata states.
#[derive(Debug, PartialEq, Eq)]
pub struct EngineInstall {
    /// Engine version `major.minor.patch`: for 5.4.3 these are 5, 4 and 3.
    pub major_version: u8,
    pub minor_version: u8,
    pub patch_version: u8,
    /// Changelist of the build: the compatible changelist where the metadata
    /// gives its own changelist as zero.
    pub cl_version: u32,
    /// Whether this build was registered as a custom (source) build.
    pub is_source: bool,
    /// Branch that the metadata names, if it names one.
    pub branch_name: Option<String>,
    /// Base directory of the installation.
    pub base_dir: String,
}

/// An `EngineInstall` with its texts as sequences of characters.
pub struct EngineInstallView {
    pub major_version: u8,
    pub minor_version: u8,
    pub patch_version: u8,
    pub cl_version: u32,
    pub is_source: bool,
    pub branch_name: Option<Seq<char>>,
    pub base_dir: Seq<char>,
}

impl View for EngineInstall {
    type V = EngineInstallView;

    open spec fn view(&self) -> EngineInstallView {
        EngineInstallView {
            major_version: self.major_version,
            minor_version: self.minor_version,
            patch_version: self.patch_version,
            cl_version: self.cl_version,
            is_source: self.is_source,
            branch_name: match self.branch_name {
                Some(name) => Some(name@),
                None => None,
            },
            base_dir: self.base_dir@,
        }
    }
}

impl Clone for EngineInstall {
    fn clone(&self) -> (copy: Self)
        ensures
            copy == *self,
    {
        EngineInstall {
            major_version: self.major_version,
            minor_version: self.minor_version,
            patch_version: self.patch_version,
            cl_version: self.cl_version,
            is_source: self.is_source,
            branch_name: match &self.branch_name {
                Some(name) => Some(name.clone()),
                None => None,
            },
            base_dir: self.base_dir.clone(),
        }
    }
}

/// The changelist that an install shows: the compatible changelist where the
/// build's own changelist is zero, and the build's own otherwise.
pub open spec fn resolved_changelist(changelist: u32, compatible_changelist: u32) -> u32 {
    if changelist == 0 {
        compatible_changelist
    } else {
        changelist
    }
}

/// The install that checked metadata makes, for a build of the given origin
/// at `path`.
pub open spec fn install_from(
    version: BuildVersionView,
    is_source: bool,
    path: Seq<char>,
) -> EngineInstallView {
    EngineInstallView {
        major_version: version.major_version,
        minor_version: version.minor_version,
        patch_version: version.patch_version,
        cl_version: resolved_changelist(version.changelist, version.compatible_changelist),
        is_source,
        branch_name: version.branch_name,
        base_dir: path,
    }
}

impl EngineInstall {
    /// The install that checked metadata makes, for a build of the given
    /// origin at `path`.
    pub fn from_build_version(
        version: BuildVersionFile,
        is_source: bool,
        path: String,
    ) -> (install: Self)
        ensures
            install@ == install_from(version@, is_source, path@),
            version.changelist == 0 ==> install.cl_version == version.compatible_changelist,
            version.changelist != 0 ==> install.cl_version == version.changelist,
    {
        EngineInstall {
            major_version: version.major_version,
            minor_version: version.minor_version,
            patch_version: version.patch_version,
            cl_version: if version.changelist == 0 {
                version.compatible_changelist
            } else {
                version.changelist
            },
            is_source,
            branch_name: version.branch_name,
            base_dir: path,
        }
    }
}

/// The install at `path` whose metadata file reads `metadata` (`None`: the
/// file cannot be read), if that metadata can be used.
pub open spec fn install_of(
    metadata: Option<Seq<char>>,
    is_source: bool,
    path: Seq<char>,
) -> Option<EngineInstallView> {
    match build_version_of(metadata) {
        Ok(version) => Some(install_from(version, is_source, path)),
        Err(_) => None,
    }
}

/// Makes an install of the build at `path` from the contents of its metadata
/// file; `None` stands for a file that is missing or cannot be read. A build
/// without usable metadata makes no install. The name is not used.
pub fn to_engine_install(
    _name: &str,
    is_source: bool,
    path: String,
    metadata: Option<&str>,
) -> (install: Option<EngineInstall>)
    ensures
        match install {
            Some(made) => install_of(contents_view(metadata), is_source, path@) == Some(made@),
            None => install_of(contents_view(metadata), is_source, path@) is None,
        },
{
    match get_engine_version(metadata) {
        Ok(version) => Some(EngineInstall::from_build_version(version, is_source, path)),
        Err(_) => None,
    }
}

/// One entry of the installation list in the packaged manifest.
#[derive(Debug, PartialEq, Eq)]
pub struct LauncherEntry {
    /// `AppName`
    pub app_name: String,
    /// `InstallLocation`
    pub install_location: String,
}

/// A `LauncherEntry` with its texts as sequences of characters.
pub struct LauncherEntryView {
    pub app_name: Seq<char>,
    pub install_location: Seq<char>,
}

impl View for LauncherEntry {
    type V = LauncherEntryView;

    open spec fn view(&self) -> LauncherEntryView {
        LauncherEntryView { app_name: self.app_name@, install_location: self.install_location@ }
    }
}

/// The entries, each with its texts as sequences of characters.
pub open spec fn entry_views(entries: Seq<LauncherEntry>) -> Seq<LauncherEntryView> {
    Seq::new(entries.len(), |i: int| entries[i]@)
}

/// Whether `item` names an application and a location, both as strings.
pub open spec fn is_entry(item: JsonModel) -> bool {
    text_field(item, "AppName"@) is Found && text_field(item, "InstallLocation"@) is Found
}

/// The entry that `item` states.
pub open spec fn entry_of(item: JsonModel) -> LauncherEntryView {
    LauncherEntryView {
        app_name: text_field(item, "AppName"@)->Found_0,
        install_location: text_field(item, "InstallLocation"@)->Found_0,
    }
}

/// The installation list of a manifest document: the entries under
/// `InstallationList`, where that is an array whose every element names an
/// application and a location.
pub open spec fn manifest_entries(document: JsonModel) -> Option<Seq<LauncherEntryView>> {
    match list_field(document, "InstallationList"@) {
        Field::Found(items) => if forall|i: int|
            0 <= i < items.len() ==> is_entry(#[trigger] items[i]) {
            Some(Seq::new(items.len(), |i: int| entry_of(items[i])))
        } else {
            None
        },
        _ => None,
    }
}

/// The engine builds among `entries`, as a list: each entry whose application
/// name starts with `UE_` stores its location under what follows the prefix.
/// Other entries are other products and are left out. Where two entries give
/// one label, the later one counts, at the place of the earlier one.
pub open spec fn launcher_locations(entries: Seq<LauncherEntryView>) -> Seq<BuildLocationView>
    decreases entries.len(),
{
    if entries.len() == 0 {
        Seq::empty()
    } else {
        let before = launcher_locations(entries.drop_last());
        match strip_prefix(entries.last().app_name, "UE_"@) {
            Some(label) => stored(before, label, entries.last().install_location),
            None => before,
        }
    }
}

/// The engine builds among `entries`, as a mapping from the version label to
/// the location.
pub open spec fn launcher_builds(entries: Seq<LauncherEntryView>) -> Map<Seq<char>, Seq<char>>
    decreases entries.len(),
{
    if entries.len() == 0 {
        Map::empty()
    } else {
        let before = launcher_builds(entries.drop_last());
        match strip_prefix(entries.last().app_name, "UE_"@) {
            Some(label) => before.insert(label, entries.last().install_location),
            None => before,
        }
    }
}

/// Whether `entry` is an engine build with the version label `label`: its
/// application name is `UE_` followed by the label.
pub open spec fn has_label(entry: LauncherEntryView, label: Seq<char>) -> bool {
    strip_prefix(entry.app_name, "UE_"@) == Some(label)
}

/// The mapping of engine builds holds a label exactly where some entry has
/// that label.
pub proof fn lemma_launcher_builds_labels(entries: Seq<LauncherEntryView>, label: Seq<char>)
    ensures
        launcher_builds(entries).contains_key(label) <==> exists|i: int|
            0 <= i < entries.len() && has_label(#[trigger] entries[i], label),
    decreases entries.len(),
{
    if entries.len() > 0 {
        let shorter = entries.drop_last();
        lemma_launcher_builds_labels(shorter, label);
        if launcher_builds(shorter).contains_key(label) {
            let i = choose|i: int|
                0 <= i < shorter.len() && has_label(#[trigger] shorter[i], label);
            assert(has_label(entries[i], label));
        }
        if has_label(entries.last(), label) {
            assert(has_label(entries[entries.len() - 1], label));
        }
        if exists|i: int| 0 <= i < entries.len() && has_label(#[trigger] entries[i], label) {
            let i = choose|i: int|
                0 <= i < entries.len() && has_label(#[trigger] entries[i], label);
            if i < shorter.len() {
                assert(has_label(shorter[i], label));
            }
        }
    }
}

/// Under a label the mapping of engine builds holds the location of the last
/// entry that has the label.
pub proof fn lemma_launcher_builds_last_counts(
    entries: Seq<LauncherEntryView>,
    label: Seq<char>,
    i: int,
)
    requires
        0 <= i < entries.len(),
        has_label(entries[i], label),
        forall|j: int| i < j < entries.len() ==> !has_label(#[trigger] entries[j], label),
    ensures
        launcher_builds(entries).contains_key(label),
        launcher_builds(entries)[label] == entries[i].install_location,
    decreases entries.len(),
{
    let shorter = entries.drop_last();
    let last = entries.len() - 1;
    if i < last {
        assert(!has_label(entries[last], label));
        assert(shorter[i] == entries[i]);
        assert forall|j: int| i < j < shorter.len() implies !has_label(
            #[trigger] shorter[j],
            label,
        ) by {
            assert(shorter[j] == entries[j]);
        }
        lemma_launcher_builds_last_counts(shorter, label, i);
    }
}

/// The list of engine builds holds no label twice, and stands for the mapping
/// of engine builds.
pub proof fn lemma_launcher_locations(entries: Seq<LauncherEntryView>)
    ensures
        distinct_names(launcher_locations(entries)),
        locations_map(launcher_locations(entries)) == launcher_builds(entries),
    decreases entries.len(),
{
    if entries.len() > 0 {
        lemma_launcher_locations(entries.drop_last());
        match strip_prefix(entries.last().app_name, "UE_"@) {
            Some(label) => {
                lemma_stored(
                    launcher_locations(entries.drop_last()),
                    label,
                    entries.last().install_location,
                );
            },
            None => {},
        }
    }
}

/// What the packaged manifest `manifest` lists (`None`: the file cannot be
/// read).
pub open spec fn launcher_locations_of(manifest: Option<Seq<char>>) -> Result<
    Seq<BuildLocationView>,
    DiscoveryError,
> {
    match manifest {
        None => Err(DiscoveryError::ManifestUnreadable),
        Some(text) => match document_model(text) {
            None => Err(DiscoveryError::ManifestMalformed),
            Some(document) => match manifest_entries(document) {
                None => Err(DiscoveryError::ManifestMalformed),
                Some(entries) => Ok(launcher_locations(entries)),
            },
        },
    }
}

/// Reads the installation list from a parsed manifest.
pub fn read_launcher_entries(document: &serde_json::Value) -> (entries: Option<Vec<LauncherEntry>>)
    ensures
        match entries {
            Some(list) => manifest_entries(value_model(*document)) == Some(entry_views(list@)),
            None => manifest_entries(value_model(*document)) is None,
        },
{
    let items = match read_list(document, "InstallationList") {
        Field::Found(items) => items,
        _ => {
            return None;
        },
    };
    let ghost models = list_field(value_model(*document), "InstallationList"@)->Found_0;
    let mut entries: Vec<LauncherEntry> = Vec::new();
    let mut i: usize = 0;
    while i < items.len()
        invariant
            i <= items@.len(),
            list_field(value_model(*document), "InstallationList"@) == Field::Found(models),
            models.len() == items@.len(),
            forall|k: int| 0 <= k < items@.len() ==> value_model(#[trigger] items@[k]) == models[k],
            entries@.len() == i,
            forall|k: int| 0 <= k < i ==> is_entry(#[trigger] models[k]),
            forall|k: int| 0 <= k < i ==> (#[trigger] entries@[k])@ == entry_of(models[k]),
        decreases items@.len() - i,
    {
        let item = &items[i];
        let app_name = match read_text(item, "AppName") {
            Field::Found(text) => String::from_str(text),
            _ => {
                return None;
            },
        };
        let install_location = match read_text(item, "InstallLocation") {
            Field::Found(text) => String::from_str(text),
            _ => {
                return None;
            },
        };
        entries.push(LauncherEntry { app_name, install_location });
        i += 1;
    }
    Some(entries)
}

/// The engine builds among the entries of the packaged manifest.
pub fn launcher_builds_from_entries(entries: &Vec<LauncherEntry>) -> (builds: BuildList)
    ensures
        builds.wf(),
        builds.locations() == launcher_locations(entry_views(entries@)),
        builds@ == launcher_builds(entry_views(entries@)),
{
    let mut builds = BuildList::new();
    let mut i: usize = 0;
    while i < entries.len()
        invariant
            i <= entries@.len(),
            builds.wf(),
            builds.locations() == launcher_locations(entry_views(entries@).take(i as int)),
        decreases entries@.len() - i,
    {
        let entry = &entries[i];
        proof {
            let views = entry_views(entries@);
            assert(views.take(i + 1).drop_last() =~= views.take(i as int));
        }
        match remove_text_prefix(entry.app_name.as_str(), ENGINE_PREFIX) {
            Some(label) => {
                builds.insert(String::from_str(label), entry.install_location.clone());
            },
            None => {},
        }
        i += 1;
    }
    proof {
        assert(entry_views(entries@).take(i as int) =~= entry_views(entries@));
        lemma_launcher_locations(entry_views(entries@));
    }
    builds
}

/// The engine builds that the packaged manifest lists, from the contents of
/// the manifest file; `None` stands for a file that is missing or cannot be
/// read.
pub fn get_launcher_builds(manifest: Option<&str>) -> (builds: Result<BuildList, DiscoveryError>)
    ensures
        match builds {
            Ok(list) => list.wf() && launcher_locations_of(contents_view(manifest)) == Ok::<
                Seq<BuildLocationView>,
                DiscoveryError,
            >(list.locations()),
            Err(error) => launcher_locations_of(contents_view(manifest)) == Err::<
                Seq<BuildLocationView>,
                DiscoveryError,
            >(error),
        },
{
    let text = match manifest {
        Some(text) => text,
        None => {
            return Err(DiscoveryError::ManifestUnreadable);
        },
    };
    let document = match parse_document(text) {
        Ok(document) => document,
        Err(_) => {
            return Err(DiscoveryError::ManifestMalformed);
        },
    };
    match read_launcher_entries(&document) {
        Some(entries) => Ok(launcher_builds_from_entries(&entries)),
        None => Err(DiscoveryError::ManifestMalformed),
    }
}

/// A build that an enumerator has found, with the contents of its metadata
/// file as far as they could be read.
#[derive(Debug, PartialEq, Eq)]
pub struct InstallCandidate {
    /// The label or identifier under which the build is registered.
    pub name: String,
    /// The base directory of the build.
    pub path: String,
    /// The contents of the metadata file under `path`; `None` where the file
    /// is missing or cannot be read.
    pub metadata: Option<String>,
}

/// An `InstallCandidate` with its texts as sequences of characters.
pub struct InstallCandidateView {
    pub name: Seq<char>,
    pub path: Seq<char>,
    pub metadata: Option<Seq<char>>,
}

impl View for InstallCandidate {
    type V = InstallCandidateView;

    open spec fn view(&self) -> InstallCandidateView {
        InstallCandidateView {
            name: self.name@,
            path: self.path@,
            metadata: match self.metadata {
                Some(text) => Some(text@),
                None => None,
            },
        }
    }
}

/// The candidates, each with its texts as sequences of characters.
pub open spec fn candidate_views(candidates: Seq<InstallCandidate>) -> Seq<InstallCandidateView> {
    Seq::new(candidates.len(), |i: int| candidates[i]@)
}

/// The installs, each with its texts as sequences of characters.
pub open spec fn install_views(installs: Seq<EngineInstall>) -> Seq<EngineInstallView> {
    Seq::new(installs.len(), |i: int| installs[i]@)
}

/// The installs that `candidates` make, in their order: one for each
/// candidate whose metadata can be used, none for any other.
pub open spec fn installs_of(candidates: Seq<InstallCandidateView>, is_source: bool) -> Seq<
    EngineInstallView,
>
    decreases candidates.len(),
{
    if candidates.len() == 0 {
        Seq::empty()
    } else {
        let before = installs_of(candidates.drop_last(), is_source);
        match install_of(candidates.last().metadata, is_source, candidates.last().path) {
            Some(install) => before.push(install),
            None => before,
        }
    }
}

/// Whether a metadata document misses its major, minor or patch version.
pub open spec fn lacks_version(fields: BuildVersionFieldsView) -> bool {
    !(fields.major_version is Found) || !(fields.minor_version is Found) || !(
    fields.patch_version is Found)
}

/// A candidate that makes no install adds nothing: the installs are those of
/// the list without it.
pub proof fn lemma_unusable_candidate_is_left_out(
    candidates: Seq<InstallCandidateView>,
    is_source: bool,
    i: int,
)
    requires
        0 <= i < candidates.len(),
        install_of(candidates[i].metadata, is_source, candidates[i].path) is None,
    ensures
        installs_of(candidates, is_source) == installs_of(candidates.remove(i), is_source),
    decreases candidates.len(),
{
    let last = candidates.len() - 1;
    if i == last {
        assert(candidates.remove(i) =~= candidates.drop_last());
    } else {
        lemma_unusable_candidate_is_left_out(candidates.drop_last(), is_source, i);
        assert(candidates.remove(i).drop_last() =~= candidates.drop_last().remove(i));
    }
}

/// A candidate whose metadata document misses the major, minor or patch
/// version is left out of the list of installs, whatever else the document
/// holds.
pub proof fn lemma_incomplete_metadata_is_left_out(
    candidates: Seq<InstallCandidateView>,
    is_source: bool,
    i: int,
)
    requires
        0 <= i < candidates.len(),
        candidates[i].metadata matches Some(text) && document_model(text) matches Some(document)
            && lacks_version(fields_of(document)),
    ensures
        installs_of(candidates, is_source) == installs_of(candidates.remove(i), is_source),
{
    let document = document_model(candidates[i].metadata->0)->0;
    lemma_version_is_required(fields_of(document));
    lemma_unusable_candidate_is_left_out(candidates, is_source, i);
}

/// Every install of the list is made whole from the metadata of one
/// candidate: none holds values of two candidates, or of a document that is
/// not complete.
pub proof fn lemma_installs_are_whole(
    candidates: Seq<InstallCandidateView>,
    is_source: bool,
    k: int,
)
    requires
        0 <= k < installs_of(candidates, is_source).len(),
    ensures
        exists|i: int|
            0 <= i < candidates.len() && install_of(
                (#[trigger] candidates[i]).metadata,
                is_source,
                candidates[i].path,
            ) == Some(installs_of(candidates, is_source)[k]),
    decreases candidates.len(),
{
    let shorter = candidates.drop_last();
    let last = candidates.len() - 1;
    let before = installs_of(shorter, is_source);
    if k < before.len() {
        lemma_installs_are_whole(shorter, is_source, k);
        let i = choose|i: int|
            0 <= i < shorter.len() && install_of(
                (#[trigger] shorter[i]).metadata,
                is_source,
                shorter[i].path,
            ) == Some(before[k]);
        assert(candidates[i] == shorter[i]);
    } else {
        assert(install_of(candidates[last].metadata, is_source, candidates[last].path) == Some(
            installs_of(candidates, is_source)[k],
        ));
    }
}

/// The list of installs that the two enumerations make: the error of the
/// packaged manifest where that failed, else the error of the custom-build
/// store where that failed, else the installs of the manifest's builds
/// followed by those of the custom builds.
pub open spec fn engine_installs_of(
    launcher: Result<Seq<InstallCandidateView>, DiscoveryError>,
    source: Result<Seq<InstallCandidateView>, DiscoveryError>,
) -> Result<Seq<EngineInstallView>, DiscoveryError> {
    match launcher {
        Err(error) => Err(error),
        Ok(packaged) => match source {
            Err(error) => Err(error),
            Ok(custom) => Ok(installs_of(packaged, false) + installs_of(custom, true)),
        },
    }
}

/// Every install that a group of candidates makes has the origin of the
/// group.
pub proof fn lemma_installs_have_origin(
    candidates: Seq<InstallCandidateView>,
    is_source: bool,
    k: int,
)
    requires
        0 <= k < installs_of(candidates, is_source).len(),
    ensures
        installs_of(candidates, is_source)[k].is_source == is_source,
    decreases candidates.len(),
{
    if k < installs_of(candidates.drop_last(), is_source).len() {
        lemma_installs_have_origin(candidates.drop_last(), is_source, k);
    }
}

/// In the list of installs every packaged build comes before every custom
/// build.
pub proof fn lemma_packaged_before_custom(
    packaged: Seq<InstallCandidateView>,
    custom: Seq<InstallCandidateView>,
    i: int,
    j: int,
)
    requires
        engine_installs_of(Ok(packaged), Ok(custom)) matches Ok(installs) && 0 <= i < j
            < installs.len() && installs[i].is_source,
    ensures
        engine_installs_of(Ok(packaged), Ok(custom)) matches Ok(installs) && installs[j].is_source,
{
    let first = installs_of(packaged, false);
    if i < first.len() {
        lemma_installs_have_origin(packaged, false, i);
    } else {
        lemma_installs_have_origin(custom, true, j - first.len());
    }
}

/// What an enumeration gave, with its texts as sequences of characters.
pub open spec fn enumeration_view(
    enumeration: Result<Vec<InstallCandidate>, DiscoveryError>,
) -> Result<Seq<InstallCandidateView>, DiscoveryError> {
    match enumeration {
        Ok(candidates) => Ok(candidate_views(candidates@)),
        Err(error) => Err(error),
    }
}

/// Adds to `installs` the installs that `candidates` make.
fn collect_installs(
    installs: &mut Vec<EngineInstall>,
    candidates: &Vec<InstallCandidate>,
    is_source: bool,
)
    ensures
        install_views(final(installs)@) == install_views(old(installs)@) + installs_of(
            candidate_views(candidates@),
            is_source,
        ),
{
    let ghost views = candidate_views(candidates@);
    let ghost before = install_views(installs@);
    let mut i: usize = 0;
    while i < candidates.len()
        invariant
            i <= candidates@.len(),
            views == candidate_views(candidates@),
            install_views(installs@) == before + installs_of(views.take(i as int), is_source),
        decreases candidates@.len() - i,
    {
        let candidate = &candidates[i];
        let metadata = match &candidate.metadata {
            Some(text) => Some(text.as_str()),
            None => None,
        };
        proof {
            assert(views.take(i + 1).drop_last() =~= views.take(i as int));
        }
        let path = candidate.path.clone();
        match to_engine_install(candidate.name.as_str(), is_source, path, metadata) {
            Some(install) => {
                installs.push(install);
                assert((before + installs_of(views.take(i as int), is_source)).push(install@)
                    =~= before + installs_of(views.take(i as int), is_source).push(install@));
            },
            None => {},
        }
        i += 1;
    }
    assert(views.take(i as int) =~= views);
}

/// The installs of this machine, from what the two enumerators found: the
/// builds of the packaged manifest first, then the custom builds, each group
/// in the order given. A build without usable metadata is left out. Where an
/// enumeration failed, its error is the outcome, that of the packaged
/// manifest first.
pub fn get_engine_installs(
    launcher: Result<Vec<InstallCandidate>, DiscoveryError>,
    source: Result<Vec<InstallCandidate>, DiscoveryError>,
) -> (outcome: Result<Vec<EngineInstall>, DiscoveryError>)
    ensures
        match outcome {
            Ok(installs) => engine_installs_of(enumeration_view(launcher), enumeration_view(source))
                == Ok::<Seq<EngineInstallView>, DiscoveryError>(install_views(installs@)),
            Err(error) => engine_installs_of(enumeration_view(launcher), enumeration_view(source))
                == Err::<Seq<EngineInstallView>, DiscoveryError>(error),
        },
{
    let packaged = match launcher {
        Ok(candidates) => candidates,
        Err(error) => {
            return Err(error);
        },
    };
    let custom = match source {
        Ok(candidates) => candidates,
        Err(error) => {
            return Err(error);
        },
    };
    let mut installs: Vec<EngineInstall> = Vec::new();
    collect_installs(&mut installs, &packaged, false);
    collect_installs(&mut installs, &custom, true);
    Ok(installs)
}

} // verus!
