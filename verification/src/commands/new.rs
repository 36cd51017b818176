use crate::catalog::Catalog;
use crate::error::{CatalogError, CommandError};
use crate::naming::FORGE_FABRIC;
use crate::text::{ends_with, same_text};
use crate::web::{AssetData, AssetDataView, Release};
use vstd::prelude::*;
use vstd::string::StringExecFns;

verus! {

/// Name of the template for Forge alone, which has no mixin variant.
pub const FORGE: &'static str = "forge";

/// Name of the template for Forge and Quilt.
pub const FORGE_QUILT: &'static str = "forge-quilt";

/// Name of the template for Forge and Fabric-like loaders.
pub const FORGE_FABRIC_LIKE: &'static str = "forge-fabric-like";

/// Name of the template for Forge, Fabric and Quilt.
pub const FORGE_FABRIC_QUILT: &'static str = "forge-fabric-quilt";

/// What is added to a template's name for its mixin variant.
pub const MIXIN_SUFFIX: &'static str = "-mixin";

/// The end of the name of an archive entry that is a directory.
pub const DIRECTORY_END: &'static str = "/";

/// The kinds of template, each but the first with the choice of its
/// mixin variant.
#[derive(Clone, Copy, Debug, PartialEq, Eq, Structural)]
pub enum TemplateType {
    Forge,
    ForgeFabric(bool),
    ForgeQuilt(bool),
    ForgeFabricLike(bool),
    ForgeFabricQuilt(bool),
}

/// The kind of template that `name` names.
pub open spec fn template_type(name: Seq<char>, mixin: bool) -> Result<TemplateType, CommandError> {
    if name == FORGE@ {
        Ok(TemplateType::Forge)
    } else if name == FORGE_FABRIC@ {
        Ok(TemplateType::ForgeFabric(mixin))
    } else if name == FORGE_QUILT@ {
        Ok(TemplateType::ForgeQuilt(mixin))
    } else if name == FORGE_FABRIC_LIKE@ {
        Ok(TemplateType::ForgeFabricLike(mixin))
    } else if name == FORGE_FABRIC_QUILT@ {
        Ok(TemplateType::ForgeFabricQuilt(mixin))
    } else {
        Err(CommandError::InvalidTemplateType)
    }
}

/// The name under which a catalog holds the template asked for: the name
/// given, with the mixin suffix where the mixin variant of a template
/// that has one is asked for.
pub open spec fn catalog_name(template: Seq<char>, mixin: bool) -> Result<Seq<char>, CommandError> {
    match template_type(template, mixin) {
        Ok(TemplateType::Forge) => Ok(template),
        Ok(_) => Ok(
            if mixin {
                template + MIXIN_SUFFIX@
            } else {
                template
            },
        ),
        Err(e) => Err(e),
    }
}

/// The asset that creating a project from `template` at `version` takes
/// from the catalog `c`.
pub open spec fn selected(
    c: Catalog,
    template: Seq<char>,
    mixin: bool,
    version: Seq<char>,
) -> Result<AssetDataView, CommandError> {
    match catalog_name(template, mixin) {
        Ok(name) => if !c.contains_key(name) {
            Err(CommandError::Catalog(CatalogError::UnknownTemplate))
        } else if !c[name].contains_key(version) {
            Err(CommandError::InvalidVersion)
        } else {
            Ok(c[name][version])
        },
        Err(e) => Err(e),
    }
}

impl TemplateType {
    /// Reads the kind of template off its name.
    pub fn from_str(s: &str, mixin: bool) -> (r: Result<TemplateType, CommandError>)
        ensures
            r == template_type(s@, mixin),
    {
        if same_text(s, FORGE) {
            Ok(TemplateType::Forge)
        } else if same_text(s, FORGE_FABRIC) {
            Ok(TemplateType::ForgeFabric(mixin))
        } else if same_text(s, FORGE_QUILT) {
            Ok(TemplateType::ForgeQuilt(mixin))
        } else if same_text(s, FORGE_FABRIC_LIKE) {
            Ok(TemplateType::ForgeFabricLike(mixin))
        } else if same_text(s, FORGE_FABRIC_QUILT) {
            Ok(TemplateType::ForgeFabricQuilt(mixin))
        } else {
            Err(CommandError::InvalidTemplateType)
        }
    }
}

/// Creates a project from a template.
#[derive(Debug)]
pub struct NewSubcommand {
    /// The Minecraft version to create the project for.
    pub version: String,
    /// Whether the mixin variant of the template is asked for.
    pub mixin: bool,
    /// The name of the template.
    pub template: String,
    /// The directory to create the project in.
    pub directory: String,
}

impl NewSubcommand {
    /// The name under which a catalog holds the template asked for.
    pub fn template_name(&self) -> (r: Result<String, CommandError>)
        ensures
            match r {
                Ok(name) => catalog_name(self.template@, self.mixin) == Ok::<
                    Seq<char>,
                    CommandError,
                >(name@),
                Err(e) => catalog_name(self.template@, self.mixin) == Err::<
                    Seq<char>,
                    CommandError,
                >(e),
            },
    {
        match TemplateType::from_str(self.template.as_str(), self.mixin) {
            Ok(TemplateType::Forge) => Ok(self.template.clone()),
            Ok(_) => {
                let mut name = self.template.clone();
                if self.mixin {
                    name.append(MIXIN_SUFFIX);
                }
                Ok(name)
            },
            Err(e) => Err(e),
        }
    }

    /// The asset to create the project from.
    pub fn select_asset<'a>(&self, release: &'a Release) -> (r: Result<&'a AssetData, CommandError>)
        ensures
            match r {
                Ok(asset) => selected(release@, self.template@, self.mixin, self.version@) == Ok::<
                    AssetDataView,
                    CommandError,
                >(asset@),
                Err(e) => selected(release@, self.template@, self.mixin, self.version@) == Err::<
                    AssetDataView,
                    CommandError,
                >(e),
            },
    {
        let name = match self.template_name() {
            Ok(name) => name,
            Err(e) => {
                return Err(e);
            },
        };
        match release.is_supported_version(name.as_str(), self.version.as_str()) {
            Ok(true) => {},
            Ok(false) => {
                return Err(CommandError::InvalidVersion);
            },
            Err(e) => {
                return Err(CommandError::Catalog(e));
            },
        }
        match release.get_asset(name.as_str(), self.version.as_str()) {
            Ok(asset) => Ok(asset),
            Err(e) => Err(CommandError::Catalog(e)),
        }
    }
}

/// What to do with one entry of a template's archive.
#[derive(Clone, Copy, Debug, PartialEq, Eq, Structural)]
pub enum EntryAction {
    /// The entry's name leads out of the project directory: leave it.
    Skip,
    /// The entry is a directory: create it.
    CreateDirectory,
    /// The entry is a file: write it, below its parent directory.
    WriteFile,
}

/// What the entry `name` asks for, given whether its name stays inside
/// the project directory.
pub fn entry_action(enclosed: bool, name: &str) -> (action: EntryAction)
    ensures
        action == if !enclosed {
            EntryAction::Skip
        } else if DIRECTORY_END@.is_suffix_of(name@) {
            EntryAction::CreateDirectory
        } else {
            EntryAction::WriteFile
        },
{
    if !enclosed {
        EntryAction::Skip
    } else if ends_with(name, DIRECTORY_END) {
        EntryAction::CreateDirectory
    } else {
        EntryAction::WriteFile
    }
}

} // verus!
