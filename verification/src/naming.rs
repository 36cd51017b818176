use crate::text::{ends_with, same_text, starts_with};
use vstd::prelude::*;

verus! {

/// How many trailing characters of an asset name make up its extension.
pub const EXTENSION_LEN: usize = 4;

/// Stem of the oldest mixin assets, and the ending of every mixin stem.
pub const MIXIN: &'static str = "mixin";

/// Beginning of the stems published while the default template was called
/// after the project itself.
pub const ARCHITECTURY: &'static str = "architectury";

/// The default template.
pub const FORGE_FABRIC: &'static str = "forge-fabric";

/// The mixin variant of the default template.
pub const FORGE_FABRIC_MIXIN: &'static str = "forge-fabric-mixin";

/// Index of the first `-` of `name`, or 0 where `name` holds none.
pub open spec fn dash_pos(name: Seq<char>) -> int {
    match name.index_of_first('-') {
        Some(i) => i,
        None => 0,
    }
}

/// The version segment: what stands before `dash_pos`. It is empty where
/// the name has no dash or begins with one.
pub open spec fn version_of(name: Seq<char>) -> Seq<char> {
    name.subrange(0, dash_pos(name))
}

/// The stem: what stands between the character at `dash_pos` and the
/// extension, whatever that character is. A name too short to hold that
/// character and an extension has an empty stem.
pub open spec fn stem_of(name: Seq<char>) -> Seq<char> {
    if dash_pos(name) + 1 <= name.len() - EXTENSION_LEN {
        name.subrange(dash_pos(name) + 1, name.len() - EXTENSION_LEN)
    } else {
        Seq::empty()
    }
}

/// The template that an asset of this name belongs to.
///
/// A stem that is exactly `mixin` is the mixin variant of the default
/// template. Otherwise, where `dash_pos` is not 0, a stem that begins with
/// `architectury` is the default template, or its mixin variant if it also
/// ends with `mixin`, and any other stem is the template's name as it
/// stands. Where `dash_pos` is 0, the name is the default template.
pub open spec fn template_of(name: Seq<char>) -> Seq<char> {
    let stem = stem_of(name);
    if stem == MIXIN@ {
        FORGE_FABRIC_MIXIN@
    } else if dash_pos(name) > 0 {
        if ARCHITECTURY@.is_prefix_of(stem) {
            if MIXIN@.is_suffix_of(stem) {
                FORGE_FABRIC_MIXIN@
            } else {
                FORGE_FABRIC@
            }
        } else {
            stem
        }
    } else {
        FORGE_FABRIC@
    }
}

/// The slot of the catalog that an asset name stands for.
#[derive(Debug)]
pub struct AssetKey {
    /// The template that the asset belongs to.
    pub template: String,
    /// The Minecraft version that the asset is for.
    pub version: String,
}

/// Finds the first `-` of `name`, which has `len` characters; 0 where
/// there is none.
fn find_dash(name: &str, len: usize) -> (pos: usize)
    requires
        len == name@.len(),
    ensures
        pos == dash_pos(name@),
{
    let mut found: Option<usize> = None;
    let mut i: usize = 0;
    for c in it: name.chars()
        invariant
            it.seq() == name@,
            len == name@.len(),
            i == it.index(),
            match found {
                Some(p) => p < i && name@[p as int] == '-' && forall|j: int|
                    0 <= j < p ==> name@[j] != '-',
                None => forall|j: int| 0 <= j < i ==> name@[j] != '-',
            },
    {
        if found.is_none() && c == '-' {
            found = Some(i);
        }
        i += 1;
    }
    proof {
        name@.index_of_first_ensures('-');
    }
    match found {
        Some(p) => p,
        None => 0,
    }
}

/// Reads the template and the version off an asset's file name.
pub fn parse_asset_name(name: &str) -> (key: AssetKey)
    ensures
        key.template@ == template_of(name@),
        key.version@ == version_of(name@),
{
    let len = name.unicode_len();
    let dash = find_dash(name, len);
    proof {
        name@.index_of_first_ensures('-');
    }
    let version = name.substring_char(0, dash).to_owned();
    let stem = if len >= EXTENSION_LEN && dash + 1 <= len - EXTENSION_LEN {
        name.substring_char(dash + 1, len - EXTENSION_LEN)
    } else {
        name.substring_char(0, 0)
    };
    assert(stem@ =~= stem_of(name@));
    let template = if same_text(stem, MIXIN) {
        FORGE_FABRIC_MIXIN.to_owned()
    } else if dash > 0 {
        if starts_with(stem, ARCHITECTURY) {
            if ends_with(stem, MIXIN) {
                FORGE_FABRIC_MIXIN.to_owned()
            } else {
                FORGE_FABRIC.to_owned()
            }
        } else {
            stem.to_owned()
        }
    } else {
        FORGE_FABRIC.to_owned()
    };
    AssetKey { template, version }
}

} // verus!
