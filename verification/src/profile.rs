//! Game profiles and the rule that selects one after an archive is opened.
//!
//! Exactly one profile is active at a time. It is replaced only as an effect
//! of a successful open response, never by a command alone. The selection
//! rule prefers the previously active profile when it belongs to the family
//! of the detected version, and falls back to a fixed per-family default
//! otherwise.

use vstd::prelude::*;

use crate::archive::ArchiveFlags;
use crate::archive::PackVersion;

verus! {

/// The closed set of supported game identifiers.
#[derive(Clone, Copy, Debug, PartialEq, Eq, Structural)]
pub enum GameProfile {
    ThreeKingdoms,
    Warhammer2,
    Warhammer,
    ThronesOfBritannia,
    Attila,
    Rome2,
    Shogun2,
    Napoleon,
    Empire,
    /// The fixed legacy online profile, selected when a version-5 archive
    /// carries the extended-header flag.
    Arena,
}

/// The profile that an open response makes active, from the detected version
/// and flags, the previously active profile, and an optional explicit hint.
pub open spec fn spec_select_profile(
    version: PackVersion,
    flags: ArchiveFlags,
    prior: GameProfile,
    hint: Option<GameProfile>,
) -> GameProfile {
    match hint {
        Some(h) => h,
        None => match version {
            PackVersion::V5 => if flags.extended_header {
                GameProfile::Arena
            } else if prior == GameProfile::ThreeKingdoms || prior == GameProfile::Warhammer2 {
                prior
            } else {
                GameProfile::Warhammer2
            },
            PackVersion::V4 => if prior == GameProfile::Warhammer
                || prior == GameProfile::ThronesOfBritannia
                || prior == GameProfile::Attila {
                prior
            } else {
                GameProfile::Rome2
            },
            PackVersion::V3 => GameProfile::Shogun2,
            PackVersion::V0 => if prior == GameProfile::Napoleon {
                prior
            } else {
                GameProfile::Empire
            },
        },
    }
}

/// Decides the next active profile. An explicit hint wins outright; otherwise
/// the prior profile is kept when it is compatible with the detected version
/// family, and the family default is chosen when it is not.
pub fn select_profile(
    version: PackVersion,
    flags: ArchiveFlags,
    prior: GameProfile,
    hint: Option<GameProfile>,
) -> (p: GameProfile)
    ensures
        p == spec_select_profile(version, flags, prior, hint),
{
    match hint {
        Some(h) => h,
        None => match version {
            PackVersion::V5 => {
                if flags.extended_header {
                    GameProfile::Arena
                } else if prior == GameProfile::ThreeKingdoms || prior == GameProfile::Warhammer2 {
                    prior
                } else {
                    GameProfile::Warhammer2
                }
            },
            PackVersion::V4 => {
                if prior == GameProfile::Warhammer
                    || prior == GameProfile::ThronesOfBritannia
                    || prior == GameProfile::Attila {
                    prior
                } else {
                    GameProfile::Rome2
                }
            },
            PackVersion::V3 => GameProfile::Shogun2,
            PackVersion::V0 => {
                if prior == GameProfile::Napoleon {
                    prior
                } else {
                    GameProfile::Empire
                }
            },
        },
    }
}

/// The profile a game folder name stands for. Unknown names fall back to
/// the oldest supported game.
pub open spec fn spec_profile_named(s: Seq<char>) -> GameProfile {
    if s == "three_kingdoms"@ {
        GameProfile::ThreeKingdoms
    } else if s == "warhammer_2"@ {
        GameProfile::Warhammer2
    } else if s == "warhammer"@ {
        GameProfile::Warhammer
    } else if s == "thrones_of_britannia"@ {
        GameProfile::ThronesOfBritannia
    } else if s == "attila"@ {
        GameProfile::Attila
    } else if s == "rome_2"@ {
        GameProfile::Rome2
    } else if s == "shogun_2"@ {
        GameProfile::Shogun2
    } else if s == "napoleon"@ {
        GameProfile::Napoleon
    } else {
        GameProfile::Empire
    }
}

/// The profile hint an open request carries: present only when the caller
/// supplied a non-empty game folder and opens a single archive.
pub open spec fn spec_hint(game_folder: Seq<char>, path_count: nat) -> Option<GameProfile> {
    if game_folder.len() > 0 && path_count == 1 {
        Some(spec_profile_named(game_folder))
    } else {
        None
    }
}

/// Parses the explicit profile hint of an open request: a non-empty game
/// folder name, honoured only when exactly one archive path is opened.
pub fn hint_from_folder(game_folder: &str, path_count: usize) -> (h: Option<GameProfile>)
    ensures
        h == spec_hint(game_folder@, path_count as nat),
{
    if game_folder.is_empty() || path_count != 1 {
        return None;
    }
    let gf = game_folder.to_owned();
    let p = if gf == "three_kingdoms".to_owned() {
        GameProfile::ThreeKingdoms
    } else if gf == "warhammer_2".to_owned() {
        GameProfile::Warhammer2
    } else if gf == "warhammer".to_owned() {
        GameProfile::Warhammer
    } else if gf == "thrones_of_britannia".to_owned() {
        GameProfile::ThronesOfBritannia
    } else if gf == "attila".to_owned() {
        GameProfile::Attila
    } else if gf == "rome_2".to_owned() {
        GameProfile::Rome2
    } else if gf == "shogun_2".to_owned() {
        GameProfile::Shogun2
    } else if gf == "napoleon".to_owned() {
        GameProfile::Napoleon
    } else {
        GameProfile::Empire
    };
    Some(p)
}

/// A hint always wins: whatever the detected version, flags and prior profile
/// say, an explicit hint becomes the active profile.
pub proof fn lemma_hint_overrides_detection(
    version: PackVersion,
    flags: ArchiveFlags,
    prior: GameProfile,
    h: GameProfile,
)
    ensures
        spec_select_profile(version, flags, prior, Some(h)) == h,
{
}

/// A version-5 archive with the extended-header flag set selects the fixed
/// legacy online profile, regardless of the prior profile.
pub proof fn lemma_extended_header_selects_legacy(flags: ArchiveFlags, prior: GameProfile)
    requires
        flags.extended_header,
    ensures
        spec_select_profile(PackVersion::V5, flags, prior, None) == GameProfile::Arena,
{
}

/// When the prior profile belongs to the detected version-4 family, it is
/// kept as it is.
pub proof fn lemma_compatible_prior_is_kept(flags: ArchiveFlags, prior: GameProfile)
    requires
        prior == GameProfile::Warhammer || prior == GameProfile::ThronesOfBritannia || prior
            == GameProfile::Attila,
    ensures
        spec_select_profile(PackVersion::V4, flags, prior, None) == prior,
{
}

} // verus!
