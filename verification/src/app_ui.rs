//! The session context of the interactive thread.
//!
//! `AppUI` gathers the command bus, the session registry and the archive
//! session state, and reacts to worker responses: opening archives replaces
//! the session wholesale, imports invalidate the affected views, and every
//! outcome is surfaced — recoverable errors to the user, a protocol
//! desynchronization as a fatal bus fault.

use vstd::prelude::*;

use crate::archive::ArchiveInfo;
use crate::bus::BusError;
use crate::bus::Command;
use crate::bus::CommandBus;
use crate::bus::ErrorKind;
use crate::bus::Response;
use crate::profile::GameProfile;
use crate::profile::hint_from_folder;
use crate::profile::select_profile;
use crate::profile::spec_hint;
use crate::profile::spec_select_profile;
use crate::registry::SessionRegistry;

verus! {

/// How the session was started: through an explicit profile hint
/// (linked-mod) or plainly.
#[derive(Clone, Copy, Debug, PartialEq, Eq, Structural)]
pub enum OperationalMode {
    Normal,
    LinkedMod,
}

/// What a session operation can fail with: a fault of the bus itself, or a
/// recoverable error the worker reported.
#[derive(Clone, Debug, PartialEq, Eq)]
pub enum SessionError {
    Bus(BusError),
    Worker(ErrorKind),
}

/// A notification to the presentation sink. The core never touches
/// rendering state; it only emits these values.
#[derive(Clone, Debug, PartialEq, Eq)]
pub enum Notification {
    /// Rebuild the archive tree from scratch.
    RebuildTree,
    /// Add exactly these entry paths to the tree.
    AddPaths(Vec<Vec<String>>),
    /// Enable or disable the profile-switch control.
    EnableProfileSwitch(bool),
    /// Surface a recoverable error to the user.
    ShowError(ErrorKind),
}

/// What a confirmation request should ask, if anything.
#[derive(Clone, Copy, Debug, PartialEq, Eq, Structural)]
pub enum Confirmation {
    /// Nothing at risk: proceed without asking.
    Proceed,
    /// About to delete the linked mod from disk.
    AskDeleteLinkedMod,
    /// There are unsaved changes.
    AskUnsavedChanges,
}

/// The session context: everything the interactive thread mutates, and
/// mutates only after a response or a local edit.
pub struct AppUI {
    /// The bus to the background worker.
    pub bus: CommandBus,
    /// Which entries have an open view.
    pub registry: SessionRegistry,
    /// The loaded archive's detected data; `None` while no archive is open.
    pub archive: Option<ArchiveInfo>,
    /// The active game profile.
    pub profile: GameProfile,
    /// How the current session was started.
    pub mode: OperationalMode,
    /// Whether the open archive has unsaved changes.
    pub modified: bool,
    /// Whether editing is locked while a foreign archive view is shown.
    pub editing_locked: bool,
}

impl AppUI {
    /// The context's structural invariant.
    pub open spec fn wf(&self) -> bool {
        self.registry.wf()
    }

    /// A fresh session context: idle bus, no archive, no open views.
    pub fn new() -> (ui: AppUI)
        ensures
            ui.wf(),
            !ui.bus.busy(),
            ui.bus.surface_enabled(),
            !ui.bus.desynchronized(),
            ui.registry.paths().len() == 0,
            ui.archive is None,
            ui.profile == GameProfile::Warhammer2,
            ui.mode == OperationalMode::Normal,
            !ui.modified,
            !ui.editing_locked,
    {
        AppUI {
            bus: CommandBus::new(),
            registry: SessionRegistry::new(),
            archive: None,
            profile: GameProfile::Warhammer2,
            mode: OperationalMode::Normal,
            modified: false,
            editing_locked: false,
        }
    }

    /// Decides whether an in-edition save should reach the worker at all:
    /// only while the dependent search index has a pattern to keep fresh.
    pub fn save_on_edit_needed(&self, search_pattern: &str) -> (b: bool)
        ensures
            b == (search_pattern@.len() > 0),
    {
        !search_pattern.is_empty()
    }

    /// Decides whether an action that may lose unsaved data needs a
    /// confirmation dialog first, and which one.
    pub fn are_you_sure(&self, is_delete_linked_mod: bool) -> (c: Confirmation)
        ensures
            is_delete_linked_mod ==> c == Confirmation::AskDeleteLinkedMod,
            !is_delete_linked_mod && self.modified ==> c == Confirmation::AskUnsavedChanges,
            !is_delete_linked_mod && !self.modified ==> c == Confirmation::Proceed,
    {
        if is_delete_linked_mod {
            Confirmation::AskDeleteLinkedMod
        } else if self.modified {
            Confirmation::AskUnsavedChanges
        } else {
            Confirmation::Proceed
        }
    }

    /// Releases every open entry view: the registry is emptied, editing is
    /// unlocked, and the profile-switch control may be enabled again.
    pub fn purge_them_all(&mut self) -> (ns: Vec<Notification>)
        requires
            old(self).wf(),
        ensures
            final(self).wf(),
            final(self).registry.paths().len() == 0,
            !final(self).editing_locked,
            final(self).bus == old(self).bus,
            final(self).archive == old(self).archive,
            final(self).profile == old(self).profile,
            final(self).mode == old(self).mode,
            final(self).modified == old(self).modified,
            ns@ =~= seq![Notification::EnableProfileSwitch(true)],
    {
        let _released = self.registry.clear_all();
        self.editing_locked = false;
        let mut ns: Vec<Notification> = Vec::new();
        ns.push(Notification::EnableProfileSwitch(true));
        ns
    }

    /// Releases and removes the view open under `path`, if any, and
    /// re-derives whether the profile-switch control may be enabled from
    /// the views that remain.
    pub fn purge_that_one_specifically(&mut self, path: &Vec<String>) -> (ns: Vec<Notification>)
        requires
            old(self).wf(),
        ensures
            final(self).wf(),
            !final(self).registry.registered(path.deep_view()),
            forall|q: Seq<Seq<char>>|
                q != path.deep_view() ==> final(self).registry.registered(q) == old(
                    self,
                ).registry.registered(q),
            final(self).bus == old(self).bus,
            final(self).archive == old(self).archive,
            final(self).profile == old(self).profile,
            final(self).mode == old(self).mode,
            final(self).modified == old(self).modified,
            final(self).editing_locked == old(self).editing_locked,
            !final(self).registry.any_blocking() ==> ns@ =~= seq![
                Notification::EnableProfileSwitch(true),
            ],
            final(self).registry.any_blocking() ==> ns@ =~= Seq::<Notification>::empty(),
    {
        let _released = self.registry.unregister(path);
        let mut ns: Vec<Notification> = Vec::new();
        if self.registry.menu_enablement() {
            ns.push(Notification::EnableProfileSwitch(true));
        }
        ns
    }

    /// Opens the archives at `pack_file_paths`, replacing the whole
    /// session.
    ///
    /// The request is answered by `response`, the worker's reply to exactly
    /// this command. On success the archive data is replaced wholesale, the
    /// profile is re-derived — an explicit hint from a non-empty
    /// `game_folder` on a single-path open wins outright — every previously
    /// open view is purged, and the mode becomes linked-mod exactly when a
    /// hint was given. A worker error leaves all local state unchanged. A
    /// response variant that does not answer an open is a fatal
    /// desynchronization.
    pub fn open_packfile(
        &mut self,
        pack_file_paths: Vec<String>,
        game_folder: &str,
        response: Response,
    ) -> (r: Result<Vec<Notification>, SessionError>)
        requires
            old(self).wf(),
        ensures
            final(self).wf(),
            old(self).bus.desynchronized() ==> *final(self) == *old(self) && r == Err::<
                Vec<Notification>,
                SessionError,
            >(SessionError::Bus(BusError::Desynchronized)),
            !old(self).bus.desynchronized() && old(self).bus.busy() ==> *final(self) == *old(self)
                && r == Err::<Vec<Notification>, SessionError>(SessionError::Bus(BusError::Busy)),
            !old(self).bus.desynchronized() && !old(self).bus.busy() ==> {
                let hint = spec_hint(game_folder@, pack_file_paths@.len());
                match response {
                    Response::ArchiveInfo(info) => {
                        &&& final(self).archive == Some(info)
                        &&& final(self).profile == spec_select_profile(
                            info.version,
                            info.flags,
                            old(self).profile,
                            hint,
                        )
                        &&& final(self).mode == (if hint is Some {
                            OperationalMode::LinkedMod
                        } else {
                            OperationalMode::Normal
                        })
                        &&& final(self).registry.paths().len() == 0
                        &&& !final(self).editing_locked
                        &&& final(self).modified == old(self).modified
                        &&& !final(self).bus.busy()
                        &&& final(self).bus.surface_enabled()
                        &&& !final(self).bus.desynchronized()
                        &&& (r matches Ok(ns) && ns@ =~= seq![
                            Notification::RebuildTree,
                            Notification::EnableProfileSwitch(true),
                        ])
                    },
                    Response::Error(kind) => {
                        &&& r == Err::<Vec<Notification>, SessionError>(
                            SessionError::Worker(kind),
                        )
                        &&& final(self).archive == old(self).archive
                        &&& final(self).profile == old(self).profile
                        &&& final(self).mode == old(self).mode
                        &&& final(self).registry == old(self).registry
                        &&& final(self).modified == old(self).modified
                        &&& final(self).editing_locked == old(self).editing_locked
                        &&& !final(self).bus.busy()
                        &&& final(self).bus.surface_enabled()
                        &&& !final(self).bus.desynchronized()
                    },
                    _ => {
                        &&& r == Err::<Vec<Notification>, SessionError>(
                            SessionError::Bus(BusError::Desynchronized),
                        )
                        &&& final(self).bus.desynchronized()
                        &&& final(self).archive == old(self).archive
                        &&& final(self).profile == old(self).profile
                        &&& final(self).mode == old(self).mode
                        &&& final(self).registry == old(self).registry
                    },
                }
            },
    {
        let hint = hint_from_folder(game_folder, pack_file_paths.len());
        let cmd = Command::OpenArchives { paths: pack_file_paths, hint };
        match self.bus.send(cmd) {
            Err(e) => {
                return Err(SessionError::Bus(e));
            },
            Ok(()) => {},
        }
        match self.bus.complete(response) {
            Err(e) => Err(SessionError::Bus(e)),
            Ok(Response::Error(kind)) => Err(SessionError::Worker(kind)),
            Ok(Response::ArchiveInfo(info)) => {
                self.archive = Some(info);
                self.profile = select_profile(info.version, info.flags, self.profile, hint);
                self.mode = if hint.is_some() {
                    OperationalMode::LinkedMod
                } else {
                    OperationalMode::Normal
                };
                let mut out: Vec<Notification> = Vec::new();
                out.push(Notification::RebuildTree);
                let mut purge_ns = self.purge_them_all();
                out.append(&mut purge_ns);
                Ok(out)
            },
            Ok(_) => {
                proof {
                    assert(false);
                }
                Err(SessionError::Bus(BusError::Desynchronized))
            },
        }
    }

    /// Imports the selected entries from another archive.
    ///
    /// The request is answered by `response`. Partial failure is a
    /// first-class outcome: every path that succeeded has its pre-existing
    /// view purged and is named — exactly once, all of them — in the tree
    /// "add" notification, while the failed paths are surfaced as one
    /// error, without rolling the successes back.
    pub fn import_entries(&mut self, selection: Vec<Vec<String>>, response: Response) -> (r: Result<
        Vec<Notification>,
        SessionError,
    >)
        requires
            old(self).wf(),
        ensures
            final(self).wf(),
            old(self).bus.desynchronized() ==> *final(self) == *old(self) && r == Err::<
                Vec<Notification>,
                SessionError,
            >(SessionError::Bus(BusError::Desynchronized)),
            !old(self).bus.desynchronized() && old(self).bus.busy() ==> *final(self) == *old(self)
                && r == Err::<Vec<Notification>, SessionError>(SessionError::Bus(BusError::Busy)),
            !old(self).bus.desynchronized() && !old(self).bus.busy() ==> match response {
                Response::ImportResult { succeeded, failed } => {
                    &&& forall|q: Seq<Seq<char>>|
                        final(self).registry.registered(q) == (old(self).registry.registered(q)
                            && !succeeded.deep_view().contains(q))
                    &&& final(self).archive == old(self).archive
                    &&& final(self).profile == old(self).profile
                    &&& final(self).mode == old(self).mode
                    &&& final(self).modified == old(self).modified
                    &&& final(self).editing_locked == old(self).editing_locked
                    &&& !final(self).bus.busy()
                    &&& final(self).bus.surface_enabled()
                    &&& !final(self).bus.desynchronized()
                    &&& (failed@.len() == 0 ==> (r matches Ok(ns) && ns@ =~= seq![
                        Notification::AddPaths(succeeded),
                    ]))
                    &&& (failed@.len() > 0 ==> (r matches Ok(ns) && ns@ =~= seq![
                        Notification::AddPaths(succeeded),
                        Notification::ShowError(ErrorKind::ImportFailed(failed)),
                    ]))
                },
                Response::Error(kind) => {
                    &&& r == Err::<Vec<Notification>, SessionError>(SessionError::Worker(kind))
                    &&& final(self).registry == old(self).registry
                    &&& final(self).archive == old(self).archive
                    &&& final(self).profile == old(self).profile
                    &&& final(self).mode == old(self).mode
                    &&& !final(self).bus.busy()
                    &&& final(self).bus.surface_enabled()
                    &&& !final(self).bus.desynchronized()
                },
                _ => {
                    &&& r == Err::<Vec<Notification>, SessionError>(
                        SessionError::Bus(BusError::Desynchronized),
                    )
                    &&& final(self).bus.desynchronized()
                    &&& final(self).registry == old(self).registry
                    &&& final(self).archive == old(self).archive
                    &&& final(self).profile == old(self).profile
                    &&& final(self).mode == old(self).mode
                },
            },
    {
        let cmd = Command::ImportEntries { selection };
        match self.bus.send(cmd) {
            Err(e) => {
                return Err(SessionError::Bus(e));
            },
            Ok(()) => {},
        }
        match self.bus.complete(response) {
            Err(e) => Err(SessionError::Bus(e)),
            Ok(Response::Error(kind)) => Err(SessionError::Worker(kind)),
            Ok(Response::ImportResult { succeeded, failed }) => {
                let ghost pre = *self;
                proof {
                    assert(succeeded.deep_view().take(0) =~= Seq::<Seq<Seq<char>>>::empty());
                }
                let n = succeeded.len();
                for i in 0..n
                    invariant
                        n == succeeded@.len(),
                        self.registry.wf(),
                        self.bus == pre.bus,
                        self.archive == pre.archive,
                        self.profile == pre.profile,
                        self.mode == pre.mode,
                        self.modified == pre.modified,
                        self.editing_locked == pre.editing_locked,
                        forall|q: Seq<Seq<char>>|
                            (#[trigger] pre.registry.registered(q)) ==> self.registry.registered(q)
                                == !succeeded.deep_view().take(i as int).contains(q),
                        forall|q: Seq<Seq<char>>|
                            !(#[trigger] pre.registry.registered(q)) ==> !self.registry.registered(
                                q,
                            ),
                {
                    let ghost before = self.registry;
                    let _released = self.registry.unregister(&succeeded[i]);
                    proof {
                        let s = succeeded.deep_view();
                        let p = succeeded[i as int].deep_view();
                        assert(s.take(i + 1) =~= s.take(i as int).push(p));
                        assert forall|q: Seq<Seq<char>>|
                            (#[trigger] pre.registry.registered(q)) implies self.registry.registered(
                            q,
                        ) == !s.take(i + 1).contains(q) by {
                            if q == p {
                                assert(s.take(i + 1)[i as int] == p);
                                assert(s.take(i + 1).contains(q));
                                assert(!self.registry.registered(q));
                            } else {
                                assert(self.registry.registered(q) == before.registered(q));
                                if s.take(i as int).contains(q) {
                                    let j = choose|j: int|
                                        0 <= j < i && #[trigger] s.take(i as int)[j] == q;
                                    assert(s.take(i + 1)[j] == q);
                                    assert(s.take(i + 1).contains(q));
                                }
                                if s.take(i + 1).contains(q) {
                                    let j = choose|j: int|
                                        0 <= j < i + 1 && #[trigger] s.take(i + 1)[j] == q;
                                    assert(j < i);
                                    assert(s.take(i as int)[j] == q);
                                    assert(s.take(i as int).contains(q));
                                }
                                assert(s.take(i + 1).contains(q) == s.take(i as int).contains(q));
                            }
                        }
                        assert forall|q: Seq<Seq<char>>|
                            !(#[trigger] pre.registry.registered(q)) implies !self.registry.registered(
                            q,
                        ) by {
                            if q == p {
                                assert(!self.registry.registered(q));
                            } else {
                                assert(self.registry.registered(q) == before.registered(q));
                            }
                        }
                    }
                }
                proof {
                    let s = succeeded.deep_view();
                    assert(s.take(n as int) =~= s);
                    assert forall|q: Seq<Seq<char>>|
                        self.registry.registered(q) == (old(self).registry.registered(q)
                            && !s.contains(q)) by {
                        assert(pre.registry.registered(q) == old(self).registry.registered(q));
                    }
                }
                let mut ns: Vec<Notification> = Vec::new();
                let report_failure = failed.len() > 0;
                ns.push(Notification::AddPaths(succeeded));
                if report_failure {
                    ns.push(Notification::ShowError(ErrorKind::ImportFailed(failed)));
                }
                Ok(ns)
            },
            Ok(_) => {
                proof {
                    assert(false);
                }
                Err(SessionError::Bus(BusError::Desynchronized))
            },
        }
    }

    /// Saves the table under `path` back into the archive. The request is
    /// answered by `response`; no local state changes either way.
    pub fn save_table(&mut self, path: Vec<String>, response: Response) -> (r: Result<
        Vec<Notification>,
        SessionError,
    >)
        requires
            old(self).wf(),
        ensures
            final(self).wf(),
            final(self).registry == old(self).registry,
            final(self).archive == old(self).archive,
            final(self).profile == old(self).profile,
            final(self).mode == old(self).mode,
            final(self).modified == old(self).modified,
            final(self).editing_locked == old(self).editing_locked,
            old(self).bus.desynchronized() ==> *final(self) == *old(self) && r == Err::<
                Vec<Notification>,
                SessionError,
            >(SessionError::Bus(BusError::Desynchronized)),
            !old(self).bus.desynchronized() && old(self).bus.busy() ==> *final(self) == *old(self)
                && r == Err::<Vec<Notification>, SessionError>(SessionError::Bus(BusError::Busy)),
            !old(self).bus.desynchronized() && !old(self).bus.busy() ==> match response {
                Response::TableSaved => {
                    &&& (r matches Ok(ns) && ns@ =~= Seq::<Notification>::empty())
                    &&& !final(self).bus.busy()
                    &&& final(self).bus.surface_enabled()
                    &&& !final(self).bus.desynchronized()
                },
                Response::Error(kind) => {
                    &&& r == Err::<Vec<Notification>, SessionError>(SessionError::Worker(kind))
                    &&& !final(self).bus.busy()
                    &&& final(self).bus.surface_enabled()
                    &&& !final(self).bus.desynchronized()
                },
                _ => {
                    &&& r == Err::<Vec<Notification>, SessionError>(
                        SessionError::Bus(BusError::Desynchronized),
                    )
                    &&& final(self).bus.desynchronized()
                },
            },
    {
        let cmd = Command::SaveTable { path };
        match self.bus.send(cmd) {
            Err(e) => {
                return Err(SessionError::Bus(e));
            },
            Ok(()) => {},
        }
        match self.bus.complete(response) {
            Err(e) => Err(SessionError::Bus(e)),
            Ok(Response::Error(kind)) => Err(SessionError::Worker(kind)),
            Ok(Response::TableSaved) => Ok(Vec::new()),
            Ok(_) => {
                proof {
                    assert(false);
                }
                Err(SessionError::Bus(BusError::Desynchronized))
            },
        }
    }
}

} // verus!
