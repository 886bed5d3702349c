//! The metadata document of an install, `Engine/Build/Build.version` under
//! its base directory: a flat JSON object that states the version of the
//! build.

use vstd::prelude::*;
use vstd::string::StringExecFns;
use crate::json::{
    document_model, parse_document, read_text, read_unsigned, text_field, unsigned_field,
    value_model, Field, JsonModel,
};

verus! {

/// Where the metadata document lies, relative to the base directory of an
/// install.
pub const BUILD_VERSION_RELATIVE_PATH: &'static str = "Engine/Build/Build.version";

/// Why an install candidate has no usable metadata.
#[derive(Debug, Clone, Copy, PartialEq, Eq, Structural)]
pub enum MetadataError {
    /// The metadata file is missing or cannot be read.
    ReadError,
    /// The metadata file is no JSON document, lacks a required number, or
    /// holds a value of the wrong kind or out of range.
    ParseError,
}

impl MetadataError {
    /// The message for this error.
    pub fn message(&self) -> (text: String)
        ensures
            text@ == match *self {
                MetadataError::ReadError => "Unable to read Build.version file"@,
                MetadataError::ParseError => "Unable to parse Build.version file"@,
            },
    {
        match self {
            MetadataError::ReadError => String::from_str("Unable to read Build.version file"),
            MetadataError::ParseError => String::from_str("Unable to parse Build.version file"),
        }
    }
}

/// What a metadata document holds under the keys that this library reads,
/// before any of it is checked.
#[derive(Debug, PartialEq, Eq)]
pub struct BuildVersionFields {
    /// `MajorVersion`
    pub major_version: Field<u64>,
    /// `MinorVersion`
    pub minor_version: Field<u64>,
    /// `PatchVersion`
    pub patch_version: Field<u64>,
    /// `Changelist`
    pub changelist: Field<u64>,
    /// `CompatibleChangelist`
    pub compatible_changelist: Field<u64>,
    /// `IsLicenseeVersion`
    pub is_licensee_version: Field<u64>,
    /// `IsPromotedBuild`
    pub is_promoted_build: Field<u64>,
    /// `BranchName`
    pub branch_name: Field<String>,
}

/// `BuildVersionFields` with its text as a sequence of characters.
pub struct BuildVersionFieldsView {
    pub major_version: Field<u64>,
    pub minor_version: Field<u64>,
    pub patch_version: Field<u64>,
    pub changelist: Field<u64>,
    pub compatible_changelist: Field<u64>,
    pub is_licensee_version: Field<u64>,
    pub is_promoted_build: Field<u64>,
    pub branch_name: Field<Seq<char>>,
}

impl View for BuildVersionFields {
    type V = BuildVersionFieldsView;

    open spec fn view(&self) -> BuildVersionFieldsView {
        BuildVersionFieldsView {
            major_version: self.major_version,
            minor_version: self.minor_version,
            patch_version: self.patch_version,
            changelist: self.changelist,
            compatible_changelist: self.compatible_changelist,
            is_licensee_version: self.is_licensee_version,
            is_promoted_build: self.is_promoted_build,
            branch_name: match self.branch_name {
                Field::Found(name) => Field::Found(name@),
                Field::Mistyped => Field::Mistyped,
                Field::Missing => Field::Missing,
            },
        }
    }
}

/// A metadata document that passed every check.
#[derive(Debug, PartialEq, Eq)]
pub struct BuildVersionFile {
    pub major_version: u8,
    pub minor_version: u8,
    pub patch_version: u8,
    pub changelist: u32,
    /// Stands in for `changelist` where that is zero, as it is in most source
    /// builds.
    pub compatible_changelist: u32,
    /// A flag, stored as a number.
    pub is_licensee_version: u8,
    /// A flag, stored as a number.
    pub is_promoted_build: u8,
    /// Not every version of the document has a branch name.
    pub branch_name: Option<String>,
}

/// `BuildVersionFile` with its text as a sequence of characters.
pub struct BuildVersionView {
    pub major_version: u8,
    pub minor_version: u8,
    pub patch_version: u8,
    pub changelist: u32,
    pub compatible_changelist: u32,
    pub is_licensee_version: u8,
    pub is_promoted_build: u8,
    pub branch_name: Option<Seq<char>>,
}

impl View for BuildVersionFile {
    type V = BuildVersionView;

    open spec fn view(&self) -> BuildVersionView {
        BuildVersionView {
            major_version: self.major_version,
            minor_version: self.minor_version,
            patch_version: self.patch_version,
            changelist: self.changelist,
            compatible_changelist: self.compatible_changelist,
            is_licensee_version: self.is_licensee_version,
            is_promoted_build: self.is_promoted_build,
            branch_name: match self.branch_name {
                Some(name) => Some(name@),
                None => None,
            },
        }
    }
}

/// What `document` holds under the keys of a metadata document.
pub open spec fn fields_of(document: JsonModel) -> BuildVersionFieldsView {
    BuildVersionFieldsView {
        major_version: unsigned_field(document, "MajorVersion"@),
        minor_version: unsigned_field(document, "MinorVersion"@),
        patch_version: unsigned_field(document, "PatchVersion"@),
        changelist: unsigned_field(document, "Changelist"@),
        compatible_changelist: unsigned_field(document, "CompatibleChangelist"@),
        is_licensee_version: unsigned_field(document, "IsLicenseeVersion"@),
        is_promoted_build: unsigned_field(document, "IsPromotedBuild"@),
        branch_name: text_field(document, "BranchName"@),
    }
}

/// The number in `field`, where there is one and it is at most `max`.
pub open spec fn number_within(field: Field<u64>, max: u64) -> Option<u64> {
    match field {
        Field::Found(n) => if n <= max {
            Some(n)
        } else {
            None
        },
        _ => None,
    }
}

/// Whether every number that a metadata document must state is there and
/// fits its width, and the branch name, where there is one, is a string.
pub open spec fn is_complete(fields: BuildVersionFieldsView) -> bool {
    &&& number_within(fields.major_version, u8::MAX as u64) is Some
    &&& number_within(fields.minor_version, u8::MAX as u64) is Some
    &&& number_within(fields.patch_version, u8::MAX as u64) is Some
    &&& number_within(fields.changelist, u32::MAX as u64) is Some
    &&& number_within(fields.compatible_changelist, u32::MAX as u64) is Some
    &&& number_within(fields.is_licensee_version, u8::MAX as u64) is Some
    &&& number_within(fields.is_promoted_build, u8::MAX as u64) is Some
    &&& !(fields.branch_name is Mistyped)
}

/// The checked document that `fields` make: all of it where `fields` are
/// complete, and a `ParseError` where they are not. There is no document with
/// only some of its numbers.
pub open spec fn checked(fields: BuildVersionFieldsView) -> Result<
    BuildVersionView,
    MetadataError,
> {
    if is_complete(fields) {
        Ok(
            BuildVersionView {
                major_version: fields.major_version->Found_0 as u8,
                minor_version: fields.minor_version->Found_0 as u8,
                patch_version: fields.patch_version->Found_0 as u8,
                changelist: fields.changelist->Found_0 as u32,
                compatible_changelist: fields.compatible_changelist->Found_0 as u32,
                is_licensee_version: fields.is_licensee_version->Found_0 as u8,
                is_promoted_build: fields.is_promoted_build->Found_0 as u8,
                branch_name: match fields.branch_name {
                    Field::Found(name) => Some(name),
                    _ => None,
                },
            },
        )
    } else {
        Err(MetadataError::ParseError)
    }
}

/// What the metadata text `contents` states: a `ReadError` where there is no
/// text, a `ParseError` where the text is no JSON document or its fields are
/// not complete, and the checked document otherwise.
pub open spec fn build_version_of(contents: Option<Seq<char>>) -> Result<
    BuildVersionView,
    MetadataError,
> {
    match contents {
        None => Err(MetadataError::ReadError),
        Some(text) => match document_model(text) {
            None => Err(MetadataError::ParseError),
            Some(document) => checked(fields_of(document)),
        },
    }
}

/// A metadata document without a major, minor or patch version makes no
/// checked document, whatever else it holds.
pub proof fn lemma_version_is_required(fields: BuildVersionFieldsView)
    requires
        !(fields.major_version is Found) || !(fields.minor_version is Found) || !(
        fields.patch_version is Found),
    ensures
        checked(fields) == Err::<BuildVersionView, MetadataError>(MetadataError::ParseError),
{
}

/// The number in `field`, where there is one and it is at most `max`.
fn within(field: Field<u64>, max: u64) -> (number: Option<u64>)
    ensures
        number == number_within(field, max),
{
    match field {
        Field::Found(n) => if n <= max {
            Some(n)
        } else {
            None
        },
        _ => None,
    }
}

/// Reads the fields of a metadata document from a parsed JSON value.
pub fn read_build_version_fields(document: &serde_json::Value) -> (fields: BuildVersionFields)
    ensures
        fields@ == fields_of(value_model(*document)),
{
    let branch_name = match read_text(document, "BranchName") {
        Field::Found(name) => Field::Found(String::from_str(name)),
        Field::Mistyped => Field::Mistyped,
        Field::Missing => Field::Missing,
    };
    BuildVersionFields {
        major_version: read_unsigned(document, "MajorVersion"),
        minor_version: read_unsigned(document, "MinorVersion"),
        patch_version: read_unsigned(document, "PatchVersion"),
        changelist: read_unsigned(document, "Changelist"),
        compatible_changelist: read_unsigned(document, "CompatibleChangelist"),
        is_licensee_version: read_unsigned(document, "IsLicenseeVersion"),
        is_promoted_build: read_unsigned(document, "IsPromotedBuild"),
        branch_name,
    }
}

/// Checks the fields of a metadata document: every number must be there and
/// fit its width.
pub fn check_build_version(fields: BuildVersionFields) -> (outcome: Result<
    BuildVersionFile,
    MetadataError,
>)
    ensures
        match outcome {
            Ok(version) => checked(fields@) == Ok::<BuildVersionView, MetadataError>(version@),
            Err(error) => checked(fields@) == Err::<BuildVersionView, MetadataError>(error),
        },
{
    let major = within(fields.major_version, 255);
    let minor = within(fields.minor_version, 255);
    let patch = within(fields.patch_version, 255);
    let changelist = within(fields.changelist, 4294967295);
    let compatible = within(fields.compatible_changelist, 4294967295);
    let licensee = within(fields.is_licensee_version, 255);
    let promoted = within(fields.is_promoted_build, 255);
    let branch_name = match fields.branch_name {
        Field::Found(name) => Some(name),
        Field::Mistyped => {
            return Err(MetadataError::ParseError);
        },
        Field::Missing => None,
    };
    match (major, minor, patch, changelist, compatible, licensee, promoted) {
        (
            Some(major),
            Some(minor),
            Some(patch),
            Some(changelist),
            Some(compatible),
            Some(licensee),
            Some(promoted),
        ) => Ok(
            BuildVersionFile {
                major_version: major as u8,
                minor_version: minor as u8,
                patch_version: patch as u8,
                changelist: changelist as u32,
                compatible_changelist: compatible as u32,
                is_licensee_version: licensee as u8,
                is_promoted_build: promoted as u8,
                branch_name,
            },
        ),
        _ => Err(MetadataError::ParseError),
    }
}

/// Reads the metadata of an install from the contents of its metadata file;
/// `None` stands for a file that is missing or cannot be read.
pub fn get_engine_version(contents: Option<&str>) -> (outcome: Result<
    BuildVersionFile,
    MetadataError,
>)
    ensures
        match outcome {
            Ok(version) => build_version_of(contents_view(contents)) == Ok::<
                BuildVersionView,
                MetadataError,
            >(version@),
            Err(error) => build_version_of(contents_view(contents)) == Err::<
                BuildVersionView,
                MetadataError,
            >(error),
        },
{
    match contents {
        None => Err(MetadataError::ReadError),
        Some(text) => match parse_document(text) {
            Err(_) => Err(MetadataError::ParseError),
            Ok(document) => check_build_version(read_build_version_fields(&document)),
        },
    }
}

/// The characters of a text that may be absent.
pub open spec fn contents_view(contents: Option<&str>) -> Option<Seq<char>> {
    match contents {
        Some(text) => Some(text@),
        None => None,
    }
}

} // verus!
