//! The session registry: which archive entries currently have an open view.
//!
//! The registry owns one handle per registered path. A handle is released on
//! every removal path — individually when an entry is closed or overwritten,
//! en masse when the whole archive is replaced — and releasing a handle twice
//! is harmless. From the registered paths the registry derives whether the
//! profile-switch control may stay enabled.

use vstd::prelude::*;

use crate::paths::blocks_profile_switch;
use crate::paths::path_blocks_profile_switch;
use crate::paths::paths_equal;

verus! {

/// One live view of one archive entry. The registry owns it; `release` gives
/// its presentation resources back and may be called more than once.
#[derive(Clone, Copy, Debug)]
pub struct OpenEntryHandle {
    /// An identifier the front end uses to address the view's resources.
    pub id: u64,
    /// Whether the view's resources have been given back.
    pub released: bool,
}

impl OpenEntryHandle {
    /// A fresh, unreleased handle.
    pub fn new(id: u64) -> (h: OpenEntryHandle)
        ensures
            h.id == id,
            !h.released,
    {
        OpenEntryHandle { id, released: false }
    }

    /// Gives the view's resources back. Idempotent: releasing a released
    /// handle changes nothing and does not fail.
    pub fn release(&mut self)
        ensures
            final(self).id == old(self).id,
            final(self).released,
    {
        self.released = true;
    }
}

struct RegistryEntry {
    path: Vec<String>,
    handle: OpenEntryHandle,
}

/// The set of currently open entry views, keyed by path. Lookup is
/// case-sensitive.
pub struct SessionRegistry {
    entries: Vec<RegistryEntry>,
}

impl SessionRegistry {
    /// The registered paths, in registration order.
    pub closed spec fn paths(&self) -> Seq<Seq<Seq<char>>> {
        Seq::new(self.entries@.len(), |i: int| self.entries@[i].path.deep_view())
    }

    /// The owned handles, aligned with `paths`.
    pub closed spec fn handles(&self) -> Seq<OpenEntryHandle> {
        Seq::new(self.entries@.len(), |i: int| self.entries@[i].handle)
    }

    /// The handle identifiers, aligned with `paths`.
    pub open spec fn ids(&self) -> Seq<u64> {
        Seq::new(self.handles().len(), |i: int| self.handles()[i].id)
    }

    /// Each path is registered at most once, and every owned handle is still
    /// live.
    pub open spec fn wf(&self) -> bool {
        &&& forall|i: int, j: int|
            0 <= i < j < self.paths().len() ==> self.paths()[i] != self.paths()[j]
        &&& forall|i: int| 0 <= i < self.handles().len() ==> !self.handles()[i].released
    }

    /// Whether a view is registered under this path.
    pub open spec fn registered(&self, p: Seq<Seq<char>>) -> bool {
        exists|i: int| 0 <= i < self.paths().len() && self.paths()[i] == p
    }

    /// Whether some registered path forces the profile-switch control off.
    pub open spec fn any_blocking(&self) -> bool {
        exists|i: int| 0 <= i < self.paths().len() && blocks_profile_switch(self.paths()[i])
    }

    /// An empty registry.
    pub fn new() -> (r: SessionRegistry)
        ensures
            r.wf(),
            r.paths().len() == 0,
    {
        let r = SessionRegistry { entries: Vec::new() };
        proof {
            assert(r.paths() =~= Seq::<Seq<Seq<char>>>::empty());
        }
        r
    }

    /// How many views are registered.
    pub fn len(&self) -> (n: usize)
        ensures
            n == self.paths().len(),
    {
        self.entries.len()
    }

    /// The position of a path, when it is registered.
    fn find(&self, path: &Vec<String>) -> (r: Option<usize>)
        ensures
            match r {
                Some(k) => 0 <= k < self.paths().len() && self.paths()[k as int]
                    == path.deep_view(),
                None => !self.registered(path.deep_view()),
            },
    {
        let n = self.entries.len();
        for i in 0..n
            invariant
                n == self.entries@.len(),
                forall|j: int| 0 <= j < i ==> self.paths()[j] != path.deep_view(),
        {
            if paths_equal(&self.entries[i].path, path) {
                assert(self.paths()[i as int] == path.deep_view());
                return Some(i);
            }
        }
        None
    }

    /// Whether a view is registered under this path.
    pub fn is_registered(&self, path: &Vec<String>) -> (r: bool)
        ensures
            r == self.registered(path.deep_view()),
    {
        self.find(path).is_some()
    }

    /// Records that `path` now has a live view. Any prior handle for the
    /// same path is first released and handed back; the paths of all other
    /// entries are unchanged.
    pub fn register(&mut self, path: Vec<String>, handle: OpenEntryHandle) -> (prior: Option<
        OpenEntryHandle,
    >)
        requires
            old(self).wf(),
            !handle.released,
        ensures
            final(self).wf(),
            final(self).registered(path.deep_view()),
            match prior {
                Some(h) => {
                    &&& old(self).registered(path.deep_view())
                    &&& h.released
                    &&& final(self).paths() == old(self).paths()
                },
                None => {
                    &&& !old(self).registered(path.deep_view())
                    &&& final(self).paths() == old(self).paths().push(path.deep_view())
                },
            },
    {
        let found = self.find(&path);
        match found {
            Some(k) => {
                assert(self.registered(path.deep_view()));
                let mut prior = self.entries[k].handle;
                prior.release();
                self.entries[k] = RegistryEntry { path, handle };
                proof {
                    assert(self.paths() =~= old(self).paths());
                    assert(self.handles() =~= old(self).handles().update(k as int, handle));
                    assert(self.paths()[k as int] == path.deep_view());
                }
                Some(prior)
            },
            None => {
                self.entries.push(RegistryEntry { path, handle });
                proof {
                    assert(self.paths() =~= old(self).paths().push(path.deep_view()));
                    assert(self.handles() =~= old(self).handles().push(handle));
                    assert(self.paths()[self.paths().len() - 1] == path.deep_view());
                }
                None
            },
        }
    }

    /// Releases and removes the view registered under `path`; a no-op when
    /// none is. The released handle is handed back.
    pub fn unregister(&mut self, path: &Vec<String>) -> (r: Option<OpenEntryHandle>)
        requires
            old(self).wf(),
        ensures
            final(self).wf(),
            !final(self).registered(path.deep_view()),
            forall|q: Seq<Seq<char>>|
                q != path.deep_view() ==> final(self).registered(q) == old(self).registered(q),
            match r {
                Some(h) => {
                    &&& old(self).registered(path.deep_view())
                    &&& h.released
                    &&& exists|k: int|
                        0 <= k < old(self).paths().len() && old(self).paths()[k]
                            == path.deep_view() && final(self).paths() == old(
                            self,
                        ).paths().remove(k)
                },
                None => {
                    &&& !old(self).registered(path.deep_view())
                    &&& final(self).paths() == old(self).paths()
                },
            },
    {
        let found = self.find(path);
        match found {
            Some(k) => {
                let mut entry = self.entries.remove(k);
                entry.handle.release();
                proof {
                    assert(self.paths() =~= old(self).paths().remove(k as int));
                    assert(self.handles() =~= old(self).handles().remove(k as int));
                    assert forall|i: int|
                        0 <= i < self.paths().len() implies self.paths()[i]
                        != path.deep_view() by {
                        if i < k {
                            assert(old(self).paths()[i] != old(self).paths()[k as int]);
                        } else {
                            assert(old(self).paths()[i + 1] != old(self).paths()[k as int]);
                        }
                    }
                    assert forall|q: Seq<Seq<char>>|
                        q != path.deep_view() implies self.registered(q) == old(self).registered(
                        q,
                    ) by {
                        if self.registered(q) {
                            let i = choose|i: int|
                                0 <= i < self.paths().len() && self.paths()[i] == q;
                            if i < k {
                                assert(old(self).paths()[i] == q);
                            } else {
                                assert(old(self).paths()[i + 1] == q);
                            }
                        }
                        if old(self).registered(q) {
                            let i = choose|i: int|
                                0 <= i < old(self).paths().len() && old(self).paths()[i] == q;
                            if i < k {
                                assert(self.paths()[i] == q);
                            } else if i > k {
                                assert(self.paths()[i - 1] == q);
                            }
                        }
                    }
                }
                Some(entry.handle)
            },
            None => None,
        }
    }

    /// Releases and removes every view; used when the whole archive is
    /// replaced. Every removed handle is handed back, released.
    pub fn clear_all(&mut self) -> (r: Vec<OpenEntryHandle>)
        requires
            old(self).wf(),
        ensures
            final(self).wf(),
            final(self).paths().len() == 0,
            r@.len() == old(self).paths().len(),
            forall|i: int| 0 <= i < r@.len() ==> r@[i].released && r@[i].id == old(self).ids()[i],
    {
        let mut out: Vec<OpenEntryHandle> = Vec::new();
        let n = self.entries.len();
        for i in 0..n
            invariant
                n == self.entries@.len(),
                self == old(self),
                out@.len() == i,
                forall|j: int|
                    0 <= j < i ==> (#[trigger] out@[j]).released && out@[j].id == old(
                        self,
                    ).ids()[j],
        {
            let mut h = self.entries[i].handle;
            h.release();
            out.push(h);
        }
        self.entries = Vec::new();
        proof {
            assert(self.paths() =~= Seq::<Seq<Seq<char>>>::empty());
        }
        out
    }

    /// Whether the profile-switch control may be enabled: true exactly when
    /// no registered path has the schema folder as its first segment or a
    /// localization suffix on its last segment. Recomputed on every call
    /// because the rule depends on the set that remains.
    pub fn menu_enablement(&self) -> (r: bool)
        ensures
            r == !self.any_blocking(),
    {
        let n = self.entries.len();
        for i in 0..n
            invariant
                n == self.entries@.len(),
                forall|j: int| 0 <= j < i ==> !blocks_profile_switch(self.paths()[j]),
        {
            if path_blocks_profile_switch(&self.entries[i].path) {
                assert(blocks_profile_switch(self.paths()[i as int]));
                return false;
            }
        }
        true
    }
}

/// The menu-enablement rule, stated once for all registries: an empty
/// registry enables the control, and any registered path whose first segment
/// is the schema folder — in any letter case — or whose last segment carries
/// the localization suffix disables it.
pub proof fn lemma_menu_enablement_rule(reg: &SessionRegistry)
    ensures
        reg.paths().len() == 0 ==> !reg.any_blocking(),
        forall|i: int|
            0 <= i < reg.paths().len() && (#[trigger] reg.paths()[i]).len() > 0
                && crate::paths::is_schema_segment(reg.paths()[i][0]) ==> reg.any_blocking(),
        forall|i: int|
            0 <= i < reg.paths().len() && (#[trigger] reg.paths()[i]).len() > 0
                && crate::paths::is_loc_segment(
                reg.paths()[i][reg.paths()[i].len() - 1],
            ) ==> reg.any_blocking(),
{
}

} // verus!
