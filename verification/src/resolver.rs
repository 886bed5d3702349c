//! The version specifier grammar and the rules that pick one install.
//!
//! A specifier has one of four shapes, tried in this order: `cl-` and a
//! changelist, the word `latest`, `source-` and a version, or a bare version.
//! A version is `major[.minor[.patch]]` with each component a number from 0
//! to 255; a component that is left out matches any value.

use vstd::prelude::*;
use vstd::slice::slice_subrange;
use crate::engine_utils::EngineInstall;
use crate::text::{
    is_decimal, parse_decimal, read_decimal, remove_prefix, same_chars, spells_decimal, split_on,
    split_ranges, strip_prefix, to_chars,
};

verus! {

/// Why a specifier selected no install.
#[derive(Debug, Clone, Copy, PartialEq, Eq, Structural)]
pub enum ResolveError {
    /// What follows `cl-` is not an unsigned 32-bit integer.
    InvalidInteger,
    /// The version has no major component, a patch component without a minor
    /// one, or a component above 255.
    InvalidSpecifier,
    /// The specifier is well formed and no install matches it.
    NoMatch,
}

/// A version with its minor and patch components optional. A component that
/// is `None` matches any value.
#[derive(Debug, Clone, Copy, PartialEq, Eq, Structural)]
pub struct VersionPattern {
    pub major: u8,
    pub minor: Option<u8>,
    pub patch: Option<u8>,
}

/// The four shapes of a specifier.
#[derive(Debug, Clone, Copy, PartialEq, Eq, Structural)]
pub enum Specifier {
    /// `cl-N`: the install whose changelist is `N`.
    Changelist(u32),
    /// `latest`: the install with the highest version.
    Latest,
    /// `source-V`: the first source build whose version matches `V`.
    SourceVersion(VersionPattern),
    /// `V`: the first install whose version matches `V`.
    Version(VersionPattern),
}

impl VersionPattern {
    /// A patch component is only given together with a minor one.
    pub open spec fn wf(self) -> bool {
        self.patch is Some ==> self.minor is Some
    }

    /// Whether `install` has this version, a missing component matching any
    /// value.
    pub open spec fn admits(self, install: EngineInstall) -> bool {
        &&& self.major == install.major_version
        &&& (self.minor matches Some(minor) ==> minor == install.minor_version)
        &&& (self.patch matches Some(patch) ==> patch == install.patch_version)
    }

    /// Whether `install` has this version.
    pub fn matches(&self, install: &EngineInstall) -> (admitted: bool)
        ensures
            admitted == self.admits(*install),
    {
        let minor_fits = match self.minor {
            Some(minor) => minor == install.minor_version,
            None => true,
        };
        let patch_fits = match self.patch {
            Some(patch) => patch == install.patch_version,
            None => true,
        };
        self.major == install.major_version && minor_fits && patch_fits
    }
}

/// The number by which `latest` orders installs:
/// `major * 10000 + minor * 100 + patch`. It orders versions as their
/// components do as long as minor and patch stay below 100.
pub open spec fn version_ordinal(install: EngineInstall) -> int {
    install.major_version * 10000 + install.minor_version * 100 + install.patch_version
}

/// As long as minor and patch versions stay below 100, the ordinal orders
/// installs as their versions do, component by component.
pub proof fn lemma_ordinal_orders_versions(a: EngineInstall, b: EngineInstall)
    requires
        a.minor_version < 100,
        a.patch_version < 100,
        b.minor_version < 100,
        b.patch_version < 100,
    ensures
        version_ordinal(a) < version_ordinal(b) <==> {
            ||| a.major_version < b.major_version
            ||| a.major_version == b.major_version && a.minor_version < b.minor_version
            ||| a.major_version == b.major_version && a.minor_version == b.minor_version
                && a.patch_version < b.patch_version
        },
{
}

/// `version_ordinal` of `install`.
pub fn ordinal_of(install: &EngineInstall) -> (ordinal: u32)
    ensures
        ordinal == version_ordinal(*install),
{
    install.major_version as u32 * 10000 + install.minor_version as u32 * 100
        + install.patch_version as u32
}

/// What a version holds at one of its dot-separated places.
#[derive(Debug, Clone, Copy, PartialEq, Eq, Structural)]
pub enum Component {
    /// Nothing, or a text that spells no number.
    LeftOut,
    /// A number above 255: no version has such a component.
    TooLarge,
    /// A number from 0 to 255.
    Given(u8),
}

/// The `k`-th dot-separated component of a version.
pub open spec fn component(version: Seq<char>, k: int) -> Component {
    let pieces = split_on(version, '.');
    if 0 <= k < pieces.len() {
        match parse_decimal(pieces[k], 255) {
            Some(n) => Component::Given(n as u8),
            None => if is_decimal(pieces[k]) {
                Component::TooLarge
            } else {
                Component::LeftOut
            },
        }
    } else {
        Component::LeftOut
    }
}

/// The number that a component gives, if it gives one.
pub open spec fn component_value(component: Component) -> Option<u8> {
    match component {
        Component::Given(n) => Some(n),
        _ => None,
    }
}

/// The pattern that a version text `major[.minor[.patch]]` stands for. The
/// major component must be given, and a patch component needs a minor one.
/// A minor or patch component that is missing or spells no number counts as
/// left out. A component above 255 can match no install, so there is no
/// pattern with one. What follows a third dot is not looked at.
pub open spec fn version_pattern(version: Seq<char>) -> Option<VersionPattern> {
    let major = component(version, 0);
    let minor = component(version, 1);
    let patch = component(version, 2);
    if !(major is Given) || minor is TooLarge || patch is TooLarge || (patch is Given
        && minor is LeftOut) {
        None
    } else {
        Some(
            VersionPattern {
                major: major->Given_0,
                minor: component_value(minor),
                patch: component_value(patch),
            },
        )
    }
}

/// The specifier that `name` spells, or why it spells none.
pub open spec fn specifier_of(name: Seq<char>) -> Result<Specifier, ResolveError> {
    if strip_prefix(name, "cl-"@) is Some {
        match parse_decimal(strip_prefix(name, "cl-"@)->0, u32::MAX as nat) {
            Some(n) => Ok(Specifier::Changelist(n as u32)),
            None => Err(ResolveError::InvalidInteger),
        }
    } else if name == "latest"@ {
        Ok(Specifier::Latest)
    } else if strip_prefix(name, "source-"@) is Some {
        match version_pattern(strip_prefix(name, "source-"@)->0) {
            Some(pattern) => Ok(Specifier::SourceVersion(pattern)),
            None => Err(ResolveError::InvalidSpecifier),
        }
    } else {
        match version_pattern(name) {
            Some(pattern) => Ok(Specifier::Version(pattern)),
            None => Err(ResolveError::InvalidSpecifier),
        }
    }
}

/// Whether `install` is one that `specifier` may select. Every install is a
/// candidate for `latest`.
pub open spec fn is_candidate(specifier: Specifier, install: EngineInstall) -> bool {
    match specifier {
        Specifier::Changelist(changelist) => install.cl_version == changelist,
        Specifier::Latest => true,
        Specifier::SourceVersion(pattern) => install.is_source && pattern.admits(install),
        Specifier::Version(pattern) => pattern.admits(install),
    }
}

/// Whether the install at position `i` is the one that `specifier` selects:
/// for `latest` the install with the highest ordinal, the last of those that
/// share it; for every other shape the first candidate in the list.
pub open spec fn is_selected(installs: Seq<EngineInstall>, specifier: Specifier, i: int) -> bool {
    &&& 0 <= i < installs.len()
    &&& match specifier {
        Specifier::Latest => {
            &&& forall|j: int|
                0 <= j < installs.len() ==> version_ordinal(#[trigger] installs[j])
                    <= version_ordinal(installs[i])
            &&& forall|j: int|
                i < j < installs.len() ==> version_ordinal(#[trigger] installs[j])
                    < version_ordinal(installs[i])
        },
        _ => {
            &&& is_candidate(specifier, installs[i])
            &&& forall|j: int| 0 <= j < i ==> !is_candidate(specifier, #[trigger] installs[j])
        },
    }
}

/// The position of the install that `specifier` selects, if it selects one.
pub open spec fn selection(installs: Seq<EngineInstall>, specifier: Specifier) -> Option<int> {
    if exists|i: int| is_selected(installs, specifier, i) {
        Some(choose|i: int| is_selected(installs, specifier, i))
    } else {
        None
    }
}

/// A specifier selects at most one position.
pub proof fn lemma_selected_once(
    installs: Seq<EngineInstall>,
    specifier: Specifier,
    i: int,
    j: int,
)
    requires
        is_selected(installs, specifier, i),
        is_selected(installs, specifier, j),
    ensures
        i == j,
{
    // Of two selected positions the earlier one would be a candidate before
    // the first candidate, or rank both below and not below the later one.
    let (first, second) = if i < j {
        (i, j)
    } else {
        (j, i)
    };
    if first < second {
        if specifier is Latest {
            assert(version_ordinal(installs[second]) < version_ordinal(installs[first]));
        } else {
            assert(!is_candidate(specifier, installs[first]));
        }
    }
}

/// The selected position is the one that `is_selected` holds of.
pub proof fn lemma_selection_is(installs: Seq<EngineInstall>, specifier: Specifier, i: int)
    requires
        is_selected(installs, specifier, i),
    ensures
        selection(installs, specifier) == Some(i),
{
    lemma_selected_once(
        installs,
        specifier,
        i,
        choose|k: int| is_selected(installs, specifier, k),
    );
}

/// A specifier selects nothing exactly where the list holds no candidate; for
/// `latest` that is where the list is empty.
pub proof fn lemma_selection_none(installs: Seq<EngineInstall>, specifier: Specifier)
    ensures
        selection(installs, specifier) is None <==> forall|j: int|
            0 <= j < installs.len() ==> !is_candidate(specifier, #[trigger] installs[j]),
        specifier is Latest ==> (selection(installs, specifier) is None <==> installs.len() == 0),
{
    if exists|j: int| 0 <= j < installs.len() && is_candidate(specifier, #[trigger] installs[j]) {
        let j = choose|j: int|
            0 <= j < installs.len() && is_candidate(specifier, #[trigger] installs[j]);
        lemma_candidate_selects(installs, specifier, j);
    } else {
        if specifier is Latest && installs.len() > 0 {
            assert(is_candidate(specifier, installs[0]));
        }
        assert forall|i: int| !is_selected(installs, specifier, i) by {
            if 0 <= i < installs.len() {
                assert(!is_candidate(specifier, installs[i]));
            }
        }
    }
}

/// Where the list holds a candidate, the specifier selects a position.
pub proof fn lemma_candidate_selects(installs: Seq<EngineInstall>, specifier: Specifier, j: int)
    requires
        0 <= j < installs.len(),
        is_candidate(specifier, installs[j]),
    ensures
        selection(installs, specifier) is Some,
    decreases installs.len(),
{
    let shorter = installs.drop_last();
    let last = installs.len() - 1;
    if specifier is Latest {
        if last == 0 {
            assert(is_selected(installs, specifier, 0));
        } else {
            lemma_candidate_selects(shorter, specifier, 0);
            let i = choose|i: int| is_selected(shorter, specifier, i);
            if version_ordinal(installs[i]) > version_ordinal(installs[last]) {
                assert forall|k: int| 0 <= k < installs.len() implies version_ordinal(
                    #[trigger] installs[k],
                ) <= version_ordinal(installs[i]) by {
                    if k < last {
                        assert(shorter[k] == installs[k]);
                    }
                }
                assert forall|k: int| i < k < installs.len() implies version_ordinal(
                    #[trigger] installs[k],
                ) < version_ordinal(installs[i]) by {
                    if k < last {
                        assert(shorter[k] == installs[k]);
                    }
                }
                assert(is_selected(installs, specifier, i));
            } else {
                assert forall|k: int| 0 <= k < installs.len() implies version_ordinal(
                    #[trigger] installs[k],
                ) <= version_ordinal(installs[last]) by {
                    if k < last {
                        assert(shorter[k] == installs[k]);
                    }
                }
                assert(is_selected(installs, specifier, last));
            }
        }
    } else if j < last {
        lemma_candidate_selects(shorter, specifier, j);
        let i = choose|i: int| is_selected(shorter, specifier, i);
        assert forall|k: int| 0 <= k < i implies !is_candidate(
            specifier,
            #[trigger] installs[k],
        ) by {
            assert(shorter[k] == installs[k]);
        }
        assert(is_selected(installs, specifier, i));
    } else {
        if exists|k: int| 0 <= k < last && is_candidate(specifier, #[trigger] installs[k]) {
            let k = choose|k: int| 0 <= k < last && is_candidate(specifier, #[trigger] installs[k]);
            lemma_candidate_selects(shorter, specifier, k);
            let i = choose|i: int| is_selected(shorter, specifier, i);
            assert forall|m: int| 0 <= m < i implies !is_candidate(
                specifier,
                #[trigger] installs[m],
            ) by {
                assert(shorter[m] == installs[m]);
            }
            assert(is_selected(installs, specifier, i));
        } else {
            assert(is_selected(installs, specifier, last));
        }
    }
}

/// Reads the `k`-th dot-separated component of a version.
fn read_component(version: &[char], ranges: &Vec<(usize, usize)>, k: usize) -> (found: Component)
    requires
        ranges@.len() == split_on(version@, '.').len(),
        forall|m: int|
            0 <= m < ranges@.len() ==> {
                &&& (#[trigger] ranges@[m]).0 <= ranges@[m].1 <= version@.len()
                &&& version@.subrange(ranges@[m].0 as int, ranges@[m].1 as int) == split_on(
                    version@,
                    '.',
                )[m]
            },
    ensures
        found == component(version@, k as int),
{
    if k < ranges.len() {
        let range = ranges[k];
        let piece = slice_subrange(version, range.0, range.1);
        match read_decimal(piece, 255) {
            Some(n) => Component::Given(n as u8),
            None => if spells_decimal(piece) {
                Component::TooLarge
            } else {
                Component::LeftOut
            },
        }
    } else {
        Component::LeftOut
    }
}

/// Reads a version `major[.minor[.patch]]`.
pub fn parse_version_pattern(version: &[char]) -> (pattern: Option<VersionPattern>)
    ensures
        pattern == version_pattern(version@),
        pattern matches Some(p) ==> p.wf(),
{
    let ranges = split_ranges(version, '.');
    let major = match read_component(version, &ranges, 0) {
        Component::Given(major) => major,
        _ => {
            return None;
        },
    };
    let minor = match read_component(version, &ranges, 1) {
        Component::Given(minor) => Some(minor),
        Component::LeftOut => None,
        Component::TooLarge => {
            return None;
        },
    };
    let patch = match read_component(version, &ranges, 2) {
        Component::Given(patch) => Some(patch),
        Component::LeftOut => None,
        Component::TooLarge => {
            return None;
        },
    };
    if patch.is_some() && minor.is_none() {
        None
    } else {
        Some(VersionPattern { major, minor, patch })
    }
}

/// Reads a specifier.
pub fn parse_specifier(name: &str) -> (specifier: Result<Specifier, ResolveError>)
    ensures
        specifier == specifier_of(name@),
{
    let chars = to_chars(name);
    let changelist_prefix = to_chars("cl-");
    let latest = to_chars("latest");
    let source_prefix = to_chars("source-");
    if let Some(rest) = remove_prefix(chars.as_slice(), changelist_prefix.as_slice()) {
        return match read_decimal(rest, u32::MAX) {
            Some(changelist) => Ok(Specifier::Changelist(changelist)),
            None => Err(ResolveError::InvalidInteger),
        };
    }
    if same_chars(chars.as_slice(), latest.as_slice()) {
        return Ok(Specifier::Latest);
    }
    if let Some(rest) = remove_prefix(chars.as_slice(), source_prefix.as_slice()) {
        return match parse_version_pattern(rest) {
            Some(pattern) => Ok(Specifier::SourceVersion(pattern)),
            None => Err(ResolveError::InvalidSpecifier),
        };
    }
    match parse_version_pattern(chars.as_slice()) {
        Some(pattern) => Ok(Specifier::Version(pattern)),
        None => Err(ResolveError::InvalidSpecifier),
    }
}

/// Whether `install` is a candidate for `specifier`.
pub fn accepts(specifier: &Specifier, install: &EngineInstall) -> (accepted: bool)
    ensures
        accepted == is_candidate(*specifier, *install),
{
    match specifier {
        Specifier::Changelist(changelist) => install.cl_version == *changelist,
        Specifier::Latest => true,
        Specifier::SourceVersion(pattern) => install.is_source && pattern.matches(install),
        Specifier::Version(pattern) => pattern.matches(install),
    }
}

/// The position of the install with the highest version, the last of those
/// that share it.
fn select_latest(installs: &Vec<EngineInstall>) -> (position: Option<usize>)
    ensures
        match position {
            Some(i) => is_selected(installs@, Specifier::Latest, i as int),
            None => installs@.len() == 0,
        },
{
    if installs.len() == 0 {
        return None;
    }
    let mut best: usize = 0;
    let mut best_ordinal: u32 = ordinal_of(&installs[0]);
    let mut i: usize = 1;
    while i < installs.len()
        invariant
            1 <= i <= installs@.len(),
            best < i,
            best_ordinal == version_ordinal(installs@[best as int]),
            forall|j: int|
                0 <= j < i ==> version_ordinal(#[trigger] installs@[j]) <= best_ordinal,
            forall|j: int|
                best < j < i ==> version_ordinal(#[trigger] installs@[j]) < best_ordinal,
        decreases installs@.len() - i,
    {
        let ordinal = ordinal_of(&installs[i]);
        if ordinal >= best_ordinal {
            best = i;
            best_ordinal = ordinal;
        }
        i += 1;
    }
    Some(best)
}

/// The position of the install that `specifier` selects.
pub fn select(installs: &Vec<EngineInstall>, specifier: &Specifier) -> (position: Option<usize>)
    ensures
        match position {
            Some(i) => selection(installs@, *specifier) == Some(i as int),
            None => selection(installs@, *specifier) is None,
        },
{
    let found = match specifier {
        Specifier::Latest => select_latest(installs),
        _ => {
            let mut i: usize = 0;
            let mut first: Option<usize> = None;
            while i < installs.len() && first.is_none()
                invariant
                    i <= installs@.len(),
                    !(*specifier is Latest),
                    forall|j: int|
                        0 <= j < i && first is None ==> !is_candidate(
                            *specifier,
                            #[trigger] installs@[j],
                        ),
                    first matches Some(f) ==> is_selected(installs@, *specifier, f as int),
                decreases installs@.len() - i + if first is None { 1int } else { 0int },
            {
                if accepts(specifier, &installs[i]) {
                    first = Some(i);
                } else {
                    i += 1;
                }
            }
            first
        },
    };
    proof {
        match found {
            Some(i) => {
                lemma_selection_is(installs@, *specifier, i as int);
            },
            None => {
                lemma_selection_none(installs@, *specifier);
            },
        }
    }
    found
}

/// What `name` resolves to against `installs`: the install that its specifier
/// selects, or why there is none.
pub open spec fn resolution(installs: Seq<EngineInstall>, name: Seq<char>) -> Result<
    EngineInstall,
    ResolveError,
> {
    match specifier_of(name) {
        Err(error) => Err(error),
        Ok(specifier) => match selection(installs, specifier) {
            Some(i) => Ok(installs[i]),
            None => Err(ResolveError::NoMatch),
        },
    }
}

/// What a resolution says: an install that resolves is the selected one of
/// the list, and where a well-formed specifier resolves to nothing, the list
/// holds no candidate for it.
pub proof fn lemma_resolution(installs: Seq<EngineInstall>, name: Seq<char>)
    ensures
        match specifier_of(name) {
            Err(error) => resolution(installs, name) == Err::<EngineInstall, ResolveError>(error),
            Ok(specifier) => match resolution(installs, name) {
                Ok(install) => exists|i: int|
                    is_selected(installs, specifier, i) && #[trigger] installs[i] == install,
                Err(error) => error == ResolveError::NoMatch && forall|j: int|
                    0 <= j < installs.len() ==> !is_candidate(specifier, #[trigger] installs[j]),
            },
        },
{
    match specifier_of(name) {
        Err(_) => {},
        Ok(specifier) => {
            lemma_selection_none(installs, specifier);
            match selection(installs, specifier) {
                Some(i) => {
                    assert(is_selected(installs, specifier, i));
                },
                None => {},
            }
        },
    }
}

/// `latest` resolves to an install of the list that no other install
/// outranks, and to the last of those that rank as high. It resolves to
/// nothing only where the list is empty.
pub proof fn lemma_latest_is_highest(installs: Seq<EngineInstall>)
    ensures
        match resolution(installs, "latest"@) {
            Ok(install) => exists|i: int|
                0 <= i < installs.len() && #[trigger] installs[i] == install && (forall|j: int|
                    0 <= j < installs.len() ==> version_ordinal(#[trigger] installs[j])
                        <= version_ordinal(install)) && (forall|j: int|
                    i < j < installs.len() ==> version_ordinal(#[trigger] installs[j])
                        < version_ordinal(install)),
            Err(error) => error == ResolveError::NoMatch && installs.len() == 0,
        },
{
    reveal_strlit("latest");
    reveal_strlit("cl-");
    assert("latest"@.take(3)[0] == 'l');
    lemma_resolution(installs, "latest"@);
    lemma_selection_none(installs, Specifier::Latest);
}

/// A bare version resolves to the first install, in the order of the list,
/// that has the version; the installs before it do not have it. It resolves
/// to nothing only where no install has the version.
pub proof fn lemma_version_is_first_match(
    installs: Seq<EngineInstall>,
    name: Seq<char>,
    pattern: VersionPattern,
)
    requires
        specifier_of(name) == Ok::<Specifier, ResolveError>(Specifier::Version(pattern)),
    ensures
        match resolution(installs, name) {
            Ok(install) => exists|i: int|
                0 <= i < installs.len() && #[trigger] installs[i] == install && pattern.admits(
                    install,
                ) && (forall|j: int| 0 <= j < i ==> !pattern.admits(#[trigger] installs[j])),
            Err(error) => error == ResolveError::NoMatch && forall|j: int|
                0 <= j < installs.len() ==> !pattern.admits(#[trigger] installs[j]),
        },
{
    lemma_resolution(installs, name);
    if resolution(installs, name) is Ok {
        let i = choose|i: int|
            is_selected(installs, Specifier::Version(pattern), i) && #[trigger] installs[i]
                == resolution(installs, name)->Ok_0;
        assert forall|j: int| 0 <= j < i implies !pattern.admits(#[trigger] installs[j]) by {
            assert(!is_candidate(Specifier::Version(pattern), installs[j]));
        }
    } else {
        assert forall|j: int| 0 <= j < installs.len() implies !pattern.admits(
            #[trigger] installs[j],
        ) by {
            assert(!is_candidate(Specifier::Version(pattern), installs[j]));
        }
    }
}

/// A version with the prefix `source-` resolves to source builds only: to the
/// first source build, in the order of the list, that has the version. Where
/// no source build has it there is no match, whatever packaged builds the
/// list holds.
pub proof fn lemma_source_version_is_source_build(
    installs: Seq<EngineInstall>,
    name: Seq<char>,
    pattern: VersionPattern,
)
    requires
        specifier_of(name) == Ok::<Specifier, ResolveError>(Specifier::SourceVersion(pattern)),
    ensures
        match resolution(installs, name) {
            Ok(install) => exists|i: int|
                0 <= i < installs.len() && #[trigger] installs[i] == install && install.is_source
                    && pattern.admits(install) && (forall|j: int|
                    0 <= j < i ==> !((#[trigger] installs[j]).is_source && pattern.admits(
                        installs[j],
                    ))),
            Err(error) => error == ResolveError::NoMatch && forall|j: int|
                0 <= j < installs.len() ==> !((#[trigger] installs[j]).is_source && pattern.admits(
                    installs[j],
                )),
        },
{
    lemma_resolution(installs, name);
    if resolution(installs, name) is Ok {
        let i = choose|i: int|
            is_selected(installs, Specifier::SourceVersion(pattern), i) && #[trigger] installs[i]
                == resolution(installs, name)->Ok_0;
        assert forall|j: int| 0 <= j < i implies !((#[trigger] installs[j]).is_source
            && pattern.admits(installs[j])) by {
            assert(!is_candidate(Specifier::SourceVersion(pattern), installs[j]));
        }
    } else {
        assert forall|j: int| 0 <= j < installs.len() implies !((#[trigger] installs[j]).is_source
            && pattern.admits(installs[j])) by {
            assert(!is_candidate(Specifier::SourceVersion(pattern), installs[j]));
        }
    }
}

/// A changelist specifier resolves to an install with that changelist, the
/// first of the list: so where exactly one install has the changelist, to
/// that one. It resolves to nothing only where no install has it.
pub proof fn lemma_changelist_is_matched(
    installs: Seq<EngineInstall>,
    name: Seq<char>,
    changelist: u32,
)
    requires
        specifier_of(name) == Ok::<Specifier, ResolveError>(Specifier::Changelist(changelist)),
    ensures
        match resolution(installs, name) {
            Ok(install) => exists|i: int|
                0 <= i < installs.len() && #[trigger] installs[i] == install && install.cl_version
                    == changelist && (forall|j: int|
                    0 <= j < i ==> (#[trigger] installs[j]).cl_version != changelist),
            Err(error) => error == ResolveError::NoMatch && forall|j: int|
                0 <= j < installs.len() ==> (#[trigger] installs[j]).cl_version != changelist,
        },
        forall|k: int|
            0 <= k < installs.len() && installs[k].cl_version == changelist && (forall|j: int|
                0 <= j < installs.len() && j != k ==> (#[trigger] installs[j]).cl_version
                    != changelist) ==> resolution(installs, name) == Ok::<
                EngineInstall,
                ResolveError,
            >(#[trigger] installs[k]),
{
    lemma_resolution(installs, name);
    let specifier = Specifier::Changelist(changelist);
    if resolution(installs, name) is Ok {
        let i = choose|i: int|
            is_selected(installs, specifier, i) && #[trigger] installs[i] == resolution(
                installs,
                name,
            )->Ok_0;
        assert forall|j: int| 0 <= j < i implies (#[trigger] installs[j]).cl_version
            != changelist by {
            assert(!is_candidate(specifier, installs[j]));
        }
    } else {
        assert forall|j: int| 0 <= j < installs.len() implies (#[trigger] installs[j]).cl_version
            != changelist by {
            assert(!is_candidate(specifier, installs[j]));
        }
    }
    assert forall|k: int|
        0 <= k < installs.len() && installs[k].cl_version == changelist && (forall|j: int|
            0 <= j < installs.len() && j != k ==> (#[trigger] installs[j]).cl_version
                != changelist) implies resolution(installs, name) == Ok::<
        EngineInstall,
        ResolveError,
    >(#[trigger] installs[k]) by {
        assert forall|j: int| 0 <= j < k implies !is_candidate(
            specifier,
            #[trigger] installs[j],
        ) by {
            assert(installs[j].cl_version != changelist);
        }
        lemma_selection_is(installs, specifier, k);
    }
}

/// What follows `cl-` must be an unsigned integer of 32 bits: a name with
/// that prefix and anything else behind it resolves to nothing, whatever the
/// list holds.
pub proof fn lemma_changelist_must_be_integer(installs: Seq<EngineInstall>, name: Seq<char>)
    requires
        strip_prefix(name, "cl-"@) matches Some(rest) && parse_decimal(rest, u32::MAX as nat)
            is None,
    ensures
        resolution(installs, name) == Err::<EngineInstall, ResolveError>(
            ResolveError::InvalidInteger,
        ),
{
}

/// Resolves `name` against `installs`: the install that the specifier selects,
/// or why there is none.
pub fn resolve(installs: &Vec<EngineInstall>, name: &str) -> (outcome: Result<
    EngineInstall,
    ResolveError,
>)
    ensures
        outcome == resolution(installs@, name@),
{
    match parse_specifier(name) {
        Err(error) => Err(error),
        Ok(specifier) => match select(installs, &specifier) {
            Some(i) => Ok(installs[i].clone()),
            None => Err(ResolveError::NoMatch),
        },
    }
}

/// The install that `name` selects from `installs`, if it selects one. A
/// specifier that is not well formed selects none.
pub fn find_engine_version(installs: &Vec<EngineInstall>, name: &str) -> (found: Option<
    EngineInstall,
>)
    ensures
        found == match resolution(installs@, name@) {
            Ok(install) => Some(install),
            Err(_) => None,
        },
{
    match resolve(installs, name) {
        Ok(install) => Some(install),
        Err(_) => None,
    }
}

} // verus!
