use vstd::prelude::*;

verus! {

/// Why a catalog could not be built or a query not be answered.
#[derive(Clone, Copy, Debug, PartialEq, Eq, Structural)]
pub enum CatalogError {
    /// The release lists no asset.
    EmptyRelease,
    /// The catalog holds no template of that name.
    UnknownTemplate,
    /// The template is not offered for that version.
    UnsupportedVersion,
}

/// Why a command could not be carried out.
#[derive(Clone, Copy, Debug, PartialEq, Eq, Structural)]
pub enum CommandError {
    /// The host lists no release.
    NoReleases,
    /// No template's name contains what was searched for.
    NoMatchingTemplates,
    /// The name given is not that of a template kind.
    InvalidTemplateType,
    /// The template is not offered for the version asked for.
    InvalidVersion,
    /// The catalog could not be built or did not answer.
    Catalog(CatalogError),
}

} // verus!
