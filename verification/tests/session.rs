use archive_session::app_ui::AppUI;
use archive_session::app_ui::Confirmation;
use archive_session::app_ui::Notification;
use archive_session::app_ui::OperationalMode;
use archive_session::app_ui::SessionError;
use archive_session::archive::ArchiveFlags;
use archive_session::archive::ArchiveInfo;
use archive_session::archive::CompressionState;
use archive_session::archive::PackType;
use archive_session::archive::PackVersion;
use archive_session::archive::compression_is_on;
use archive_session::bus::BusError;
use archive_session::bus::ErrorKind;
use archive_session::bus::Response;
use archive_session::profile::GameProfile;
use archive_session::profile::hint_from_folder;
use archive_session::profile::select_profile;
use archive_session::registry::OpenEntryHandle;

fn s(x: &str) -> String {
    x.to_owned()
}

fn path(segs: &[&str]) -> Vec<String> {
    segs.iter().map(|x| s(x)).collect()
}

fn info(version: PackVersion, extended_header: bool) -> ArchiveInfo {
    ArchiveInfo {
        pack_type: PackType::Mod,
        version,
        flags: ArchiveFlags {
            encrypted_data: false,
            index_has_timestamps: false,
            encrypted_index: false,
            extended_header,
        },
        compression: CompressionState::Disabled,
    }
}

#[test]
fn version_5_extended_header_selects_legacy_profile() {
    let mut ui = AppUI::new();
    ui.profile = GameProfile::ThreeKingdoms;
    let r = ui.open_packfile(
        vec![s("mods/pack_a")],
        "",
        Response::ArchiveInfo(info(PackVersion::V5, true)),
    );
    assert!(r.is_ok());
    assert_eq!(ui.profile, GameProfile::Arena);
}

#[test]
fn version_4_keeps_prior_attila() {
    let mut ui = AppUI::new();
    ui.profile = GameProfile::Attila;
    let r = ui.open_packfile(
        vec![s("mods/pack_a")],
        "",
        Response::ArchiveInfo(info(PackVersion::V4, false)),
    );
    assert!(r.is_ok());
    assert_eq!(ui.profile, GameProfile::Attila);
}

#[test]
fn profile_decision_table() {
    let flags_plain = ArchiveFlags {
        encrypted_data: false,
        index_has_timestamps: false,
        encrypted_index: false,
        extended_header: false,
    };
    // version 5 without the extended header: keep a compatible prior,
    // fall back to the family default otherwise
    assert_eq!(
        select_profile(PackVersion::V5, flags_plain, GameProfile::ThreeKingdoms, None),
        GameProfile::ThreeKingdoms
    );
    assert_eq!(
        select_profile(PackVersion::V5, flags_plain, GameProfile::Attila, None),
        GameProfile::Warhammer2
    );
    // version 4 family
    assert_eq!(
        select_profile(PackVersion::V4, flags_plain, GameProfile::Warhammer, None),
        GameProfile::Warhammer
    );
    assert_eq!(
        select_profile(PackVersion::V4, flags_plain, GameProfile::Empire, None),
        GameProfile::Rome2
    );
    // version 3 is fixed
    assert_eq!(
        select_profile(PackVersion::V3, flags_plain, GameProfile::Attila, None),
        GameProfile::Shogun2
    );
    // version 0 keeps napoleon, defaults to empire
    assert_eq!(
        select_profile(PackVersion::V0, flags_plain, GameProfile::Napoleon, None),
        GameProfile::Napoleon
    );
    assert_eq!(
        select_profile(PackVersion::V0, flags_plain, GameProfile::Attila, None),
        GameProfile::Empire
    );
    // an explicit hint wins outright
    assert_eq!(
        select_profile(PackVersion::V3, flags_plain, GameProfile::Attila, Some(GameProfile::Warhammer)),
        GameProfile::Warhammer
    );
}

#[test]
fn hint_honoured_only_for_single_path_open() {
    assert_eq!(hint_from_folder("attila", 1), Some(GameProfile::Attila));
    assert_eq!(hint_from_folder("attila", 2), None);
    assert_eq!(hint_from_folder("", 1), None);
    assert_eq!(hint_from_folder("some_unknown_game", 1), Some(GameProfile::Empire));
}

#[test]
fn open_with_hint_sets_linked_mod_mode() {
    let mut ui = AppUI::new();
    let r = ui.open_packfile(
        vec![s("mods/pack_a")],
        "shogun_2",
        Response::ArchiveInfo(info(PackVersion::V5, false)),
    );
    assert!(r.is_ok());
    assert_eq!(ui.profile, GameProfile::Shogun2);
    assert_eq!(ui.mode, OperationalMode::LinkedMod);

    let r2 = ui.open_packfile(
        vec![s("mods/pack_b")],
        "",
        Response::ArchiveInfo(info(PackVersion::V3, false)),
    );
    assert!(r2.is_ok());
    assert_eq!(ui.mode, OperationalMode::Normal);
}

#[test]
fn menu_enablement_rules() {
    let mut ui = AppUI::new();
    assert!(ui.registry.menu_enablement());
    ui.registry.register(path(&["DB", "unit_tables", "main"]), OpenEntryHandle::new(1));
    assert!(!ui.registry.menu_enablement());
    ui.registry.unregister(&path(&["DB", "unit_tables", "main"]));
    assert!(ui.registry.menu_enablement());
    ui.registry.register(path(&["text", "x.LOC"]), OpenEntryHandle::new(2));
    assert!(!ui.registry.menu_enablement());
    ui.registry.unregister(&path(&["text", "x.LOC"]));
    ui.registry.register(path(&["models", "thing.bin"]), OpenEntryHandle::new(3));
    assert!(ui.registry.menu_enablement());
}

#[test]
fn unexpected_response_is_fatal_exactly_once() {
    let mut ui = AppUI::new();
    // an import result cannot answer an open
    let r = ui.open_packfile(
        vec![s("mods/pack_a")],
        "",
        Response::ImportResult { succeeded: Vec::new(), failed: Vec::new() },
    );
    assert_eq!(r, Err(SessionError::Bus(BusError::Desynchronized)));
    // the bus refuses everything afterwards: no silent continuation
    let r2 = ui.open_packfile(
        vec![s("mods/pack_a")],
        "",
        Response::ArchiveInfo(info(PackVersion::V3, false)),
    );
    assert_eq!(r2, Err(SessionError::Bus(BusError::Desynchronized)));
}

#[test]
fn worker_error_leaves_state_unchanged() {
    let mut ui = AppUI::new();
    ui.profile = GameProfile::Napoleon;
    ui.registry.register(path(&["a", "b"]), OpenEntryHandle::new(7));
    let r = ui.open_packfile(vec![s("mods/pack_a")], "", Response::Error(ErrorKind::OpenFailed));
    assert_eq!(r, Err(SessionError::Worker(ErrorKind::OpenFailed)));
    assert_eq!(ui.profile, GameProfile::Napoleon);
    assert!(ui.archive.is_none());
    assert!(ui.registry.is_registered(&path(&["a", "b"])));
    // and the session stays usable
    let r2 = ui.open_packfile(
        vec![s("mods/pack_a")],
        "",
        Response::ArchiveInfo(info(PackVersion::V3, false)),
    );
    assert!(r2.is_ok());
}

#[test]
fn second_open_clears_all_open_views() {
    let mut ui = AppUI::new();
    let r = ui.open_packfile(
        vec![s("mods/pack_a")],
        "",
        Response::ArchiveInfo(info(PackVersion::V5, false)),
    );
    assert!(r.is_ok());
    ui.registry.register(path(&["db", "units", "main"]), OpenEntryHandle::new(1));
    ui.registry.register(path(&["text", "names.loc"]), OpenEntryHandle::new(2));
    assert_eq!(ui.registry.len(), 2);
    let r2 = ui.open_packfile(
        vec![s("mods/pack_b")],
        "",
        Response::ArchiveInfo(info(PackVersion::V4, false)),
    );
    assert!(r2.is_ok());
    assert_eq!(ui.registry.len(), 0);
    let ns = r2.unwrap();
    assert_eq!(
        ns,
        vec![Notification::RebuildTree, Notification::EnableProfileSwitch(true)]
    );
}

#[test]
fn partial_import_purges_and_reports_exactly() {
    let mut ui = AppUI::new();
    let ok_a = path(&["db", "units", "main"]);
    let ok_b = path(&["text", "names.loc"]);
    let failed_c = path(&["scripts", "broken.lua"]);
    // one of the succeeding entries already has an open view
    ui.registry.register(ok_a.clone(), OpenEntryHandle::new(1));
    ui.registry.register(path(&["other", "view"]), OpenEntryHandle::new(2));
    let selection = vec![ok_a.clone(), ok_b.clone(), failed_c.clone()];
    let r = ui.import_entries(
        selection,
        Response::ImportResult {
            succeeded: vec![ok_a.clone(), ok_b.clone()],
            failed: vec![failed_c.clone()],
        },
    );
    let ns = r.unwrap();
    // the pre-existing view of a succeeded entry is purged, others stay
    assert!(!ui.registry.is_registered(&ok_a));
    assert!(ui.registry.is_registered(&path(&["other", "view"])));
    // the tree "add" names exactly the two succeeded paths, and the error
    // lists exactly the one failed path
    assert_eq!(
        ns,
        vec![
            Notification::AddPaths(vec![ok_a, ok_b]),
            Notification::ShowError(ErrorKind::ImportFailed(vec![failed_c])),
        ]
    );
}

#[test]
fn fully_successful_import_reports_no_error() {
    let mut ui = AppUI::new();
    let p = path(&["a", "b"]);
    let r = ui.import_entries(
        vec![p.clone()],
        Response::ImportResult { succeeded: vec![p.clone()], failed: Vec::new() },
    );
    assert_eq!(r.unwrap(), vec![Notification::AddPaths(vec![p])]);
}

#[test]
fn save_table_outcomes() {
    let mut ui = AppUI::new();
    let r = ui.save_table(path(&["db", "units", "main"]), Response::TableSaved);
    assert_eq!(r.unwrap(), Vec::new());
    let r2 = ui.save_table(path(&["db", "units", "main"]), Response::Error(ErrorKind::SaveFailed));
    assert_eq!(r2, Err(SessionError::Worker(ErrorKind::SaveFailed)));
}

#[test]
fn confirmation_decision() {
    let mut ui = AppUI::new();
    assert_eq!(ui.are_you_sure(true), Confirmation::AskDeleteLinkedMod);
    assert_eq!(ui.are_you_sure(false), Confirmation::Proceed);
    ui.modified = true;
    assert_eq!(ui.are_you_sure(false), Confirmation::AskUnsavedChanges);
    assert_eq!(ui.are_you_sure(true), Confirmation::AskDeleteLinkedMod);
}

#[test]
fn purge_one_reenables_only_when_nothing_blocks() {
    let mut ui = AppUI::new();
    ui.registry.register(path(&["db", "units", "main"]), OpenEntryHandle::new(1));
    ui.registry.register(path(&["db", "units", "extra"]), OpenEntryHandle::new(2));
    let ns = ui.purge_that_one_specifically(&path(&["db", "units", "main"]));
    // another schema view is still open: the control stays disabled
    assert_eq!(ns, Vec::new());
    let ns2 = ui.purge_that_one_specifically(&path(&["db", "units", "extra"]));
    assert_eq!(ns2, vec![Notification::EnableProfileSwitch(true)]);
}

#[test]
fn released_handles_are_marked_released() {
    let mut ui = AppUI::new();
    ui.registry.register(path(&["a"]), OpenEntryHandle::new(1));
    ui.registry.register(path(&["b"]), OpenEntryHandle::new(2));
    let freed = ui.registry.clear_all();
    assert_eq!(freed.len(), 2);
    assert!(freed.iter().all(|h| h.released));
    // overwriting a path releases the prior handle
    ui.registry.register(path(&["c"]), OpenEntryHandle::new(3));
    let prior = ui.registry.register(path(&["c"]), OpenEntryHandle::new(4));
    let prior = prior.unwrap();
    assert!(prior.released);
    assert_eq!(prior.id, 3);
    // releasing twice must not fail
    let mut again = prior;
    again.release();
    assert!(again.released);
}

#[test]
fn compression_state_presented_as_on_only_when_enabled() {
    assert!(compression_is_on(CompressionState::Enabled));
    assert!(!compression_is_on(CompressionState::Partial));
    assert!(!compression_is_on(CompressionState::Disabled));
}

#[test]
fn loc_suffix_cases() {
    let mut ui = AppUI::new();
    // exactly the four suffix characters block
    ui.registry.register(path(&[".loc"]), OpenEntryHandle::new(1));
    assert!(!ui.registry.menu_enablement());
    ui.registry.clear_all();
    // a suffix in the middle of the name does not
    ui.registry.register(path(&["x.LOCx"]), OpenEntryHandle::new(2));
    assert!(ui.registry.menu_enablement());
    ui.registry.clear_all();
    // too short to carry the suffix
    ui.registry.register(path(&["loc"]), OpenEntryHandle::new(3));
    assert!(ui.registry.menu_enablement());
}

#[test]
fn save_gate_follows_search_pattern() {
    let ui = AppUI::new();
    assert!(!ui.save_on_edit_needed(""));
    assert!(ui.save_on_edit_needed("unit"));
}
