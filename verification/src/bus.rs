//! The command/response bus between the interactive thread and the single
//! background worker.
//!
//! At most one command is in flight: sending disables the interactive
//! surface, and consuming the response re-enables it. The worker answers
//! every command with exactly one response, in order. A response variant
//! that is not valid for the pending command is a protocol
//! desynchronization: fatal, never silently continued from.

use vstd::prelude::*;

use crate::archive::ArchiveInfo;
use crate::profile::GameProfile;

verus! {

/// A recoverable domain error reported by the worker or surfaced to the
/// user. It never changes local state.
#[derive(Clone, Debug, PartialEq, Eq)]
pub enum ErrorKind {
    /// The archive could not be opened.
    OpenFailed,
    /// These entries could not be imported; the paths name exactly the
    /// entries that failed.
    ImportFailed(Vec<Vec<String>>),
    /// The table could not be saved back.
    SaveFailed,
}

/// A request to the background worker. Immutable once sent; exactly one is
/// in flight at a time.
#[derive(Clone, Debug, PartialEq, Eq)]
pub enum Command {
    /// Open the archives at these file paths, replacing the current
    /// session. A hint, when present, names the profile to adopt outright.
    OpenArchives { paths: Vec<String>, hint: Option<GameProfile> },
    /// Import the selected entries from another archive.
    ImportEntries { selection: Vec<Vec<String>> },
    /// Save the table under this entry path back into the archive.
    SaveTable { path: Vec<String> },
}

/// The worker's answer to one command.
#[derive(Clone, Debug, PartialEq, Eq)]
pub enum Response {
    /// A successful open: the detected archive data.
    ArchiveInfo(ArchiveInfo),
    /// The outcome of an import; both lists may be non-empty at once.
    ImportResult { succeeded: Vec<Vec<String>>, failed: Vec<Vec<String>> },
    /// A successful table save.
    TableSaved,
    /// A recoverable domain error.
    Error(ErrorKind),
}

/// Which response variants answer which command. An error answers any
/// command; every other variant answers exactly one.
pub open spec fn valid_response(c: Command, r: Response) -> bool {
    match r {
        Response::Error(_) => true,
        Response::ArchiveInfo(_) => c is OpenArchives,
        Response::ImportResult { .. } => c is ImportEntries,
        Response::TableSaved => c is SaveTable,
    }
}

/// A fault of the bus itself, as opposed to a domain error.
#[derive(Clone, Copy, Debug, PartialEq, Eq, Structural)]
pub enum BusError {
    /// A command is already in flight; overlapping requests are rejected.
    Busy,
    /// A response variant arrived that is not valid for the pending
    /// command. Fatal: the bus refuses all further traffic.
    Desynchronized,
}

/// The interactive side of the bus. It holds the pending command, the
/// explicit mutual-exclusion state of the interactive surface, and the
/// fatal desynchronization latch.
pub struct CommandBus {
    in_flight: Option<Command>,
    surface_enabled: bool,
    desynchronized: bool,
}

impl CommandBus {
    /// The pending command, when one is in flight.
    pub closed spec fn pending(&self) -> Option<Command> {
        self.in_flight
    }

    /// Whether a command is in flight.
    pub open spec fn busy(&self) -> bool {
        self.pending() is Some
    }

    /// Whether the interactive surface currently accepts user input.
    pub closed spec fn surface_enabled(&self) -> bool {
        self.surface_enabled
    }

    /// Whether a protocol desynchronization has been raised. Once true it
    /// never clears.
    pub closed spec fn desynchronized(&self) -> bool {
        self.desynchronized
    }

    /// An idle bus with the interactive surface enabled.
    pub fn new() -> (bus: CommandBus)
        ensures
            !bus.busy(),
            bus.surface_enabled(),
            !bus.desynchronized(),
    {
        CommandBus { in_flight: None, surface_enabled: true, desynchronized: false }
    }

    /// Enqueues one command and disables the interactive surface until its
    /// response is consumed. Rejects overlapping commands, and everything
    /// after a desynchronization.
    pub fn send(&mut self, c: Command) -> (r: Result<(), BusError>)
        ensures
            send_transition(*old(self), c, *final(self), r),
            old(self).desynchronized() ==> r == Err::<(), BusError>(BusError::Desynchronized)
                && *final(self) == *old(self),
            !old(self).desynchronized() && old(self).busy() ==> r == Err::<(), BusError>(
                BusError::Busy,
            ) && *final(self) == *old(self),
            !old(self).desynchronized() && !old(self).busy() ==> {
                &&& r == Ok::<(), BusError>(())
                &&& final(self).pending() == Some(c)
                &&& !final(self).surface_enabled()
                &&& !final(self).desynchronized()
            },
    {
        if self.desynchronized {
            Err(BusError::Desynchronized)
        } else if self.in_flight.is_some() {
            Err(BusError::Busy)
        } else {
            self.surface_enabled = false;
            self.in_flight = Some(c);
            Ok(())
        }
    }

    /// The command the worker should execute next, if any.
    pub fn pending_request(&self) -> (r: Option<&Command>)
        ensures
            match r {
                Some(c) => self.pending() == Some(*c),
                None => self.pending() is None,
            },
    {
        self.in_flight.as_ref()
    }

    /// Consumes the response to the pending command.
    ///
    /// A valid response — an error included — completes the exchange: the
    /// surface is re-enabled and the bus is idle again. An invalid variant
    /// raises the fatal desynchronization: the response is not handed out,
    /// the surface stays disabled, and the bus refuses all further traffic.
    pub fn complete(&mut self, response: Response) -> (r: Result<Response, BusError>)
        requires
            old(self).busy(),
            !old(self).desynchronized(),
        ensures
            valid_response(old(self).pending()->0, response) ==> {
                &&& r == Ok::<Response, BusError>(response)
                &&& !final(self).busy()
                &&& final(self).surface_enabled()
                &&& !final(self).desynchronized()
            },
            !valid_response(old(self).pending()->0, response) ==> {
                &&& r == Err::<Response, BusError>(BusError::Desynchronized)
                &&& final(self).desynchronized()
                &&& !final(self).busy()
                &&& !final(self).surface_enabled()
            },
    {
        let cmd = self.in_flight.as_ref().unwrap();
        let valid = match &response {
            Response::Error(_) => true,
            Response::ArchiveInfo(_) => matches!(cmd, Command::OpenArchives { .. }),
            Response::ImportResult { .. } => matches!(cmd, Command::ImportEntries { .. }),
            Response::TableSaved => matches!(cmd, Command::SaveTable { .. }),
        };
        self.in_flight = None;
        if valid {
            self.surface_enabled = true;
            Ok(response)
        } else {
            self.surface_enabled = false;
            self.desynchronized = true;
            Err(BusError::Desynchronized)
        }
    }
}

/// The desynchronization latch is final: once raised, neither another send
/// nor anything else brings the bus back.
pub proof fn lemma_desync_is_fatal(bus: CommandBus, c: Command)
    requires
        bus.desynchronized(),
    ensures
        forall|b2: CommandBus, r: Result<(), BusError>|
            send_transition(bus, c, b2, r) ==> r == Err::<(), BusError>(BusError::Desynchronized)
                && b2.desynchronized(),
{
}

/// The relation `send` establishes between the bus before and after.
pub open spec fn send_transition(
    b1: CommandBus,
    c: Command,
    b2: CommandBus,
    r: Result<(), BusError>,
) -> bool {
    if b1.desynchronized() {
        b2 == b1 && r == Err::<(), BusError>(BusError::Desynchronized)
    } else if b1.busy() {
        b2 == b1 && r == Err::<(), BusError>(BusError::Busy)
    } else {
        b2.pending() == Some(c) && !b2.surface_enabled() && !b2.desynchronized() && r == Ok::<
            (),
            BusError,
        >(())
    }
}

} // verus!
