//! Server lifecycle state: the shutdown/reload mode and the worker count.
//!
//! The signal handlers and the listener notification plumbing live with the
//! runtime outside; here is the state they share and every transition on
//! it.  Where the process would notify its last-worker listeners, the
//! transition returns `true`.

use vstd::prelude::*;

verus! {

/// Whether the server is running normally or draining for shutdown.
#[derive(Clone, Copy, Debug, PartialEq, Eq, Structural)]
pub enum ServerMode {
    Normal,
    Shutdown,
}

/// The process-wide server state.
pub struct ServerState {
    pub mode: ServerMode,
    pub worker_count: usize,
    pub reload_request: bool,
}

impl ServerState {
    pub fn new() -> (r: ServerState)
        ensures
            r.mode == ServerMode::Normal,
            r.worker_count == 0,
            !r.reload_request,
    {
        ServerState { mode: ServerMode::Normal, worker_count: 0, reload_request: false }
    }

    /// A shutdown was requested in order to reload, not to stop.
    pub fn is_reload_request(&self) -> (r: bool)
        ensures
            r == (self.mode == ServerMode::Shutdown && self.reload_request),
    {
        match self.mode {
            ServerMode::Shutdown => self.reload_request,
            ServerMode::Normal => false,
        }
    }

    /// Record why the shutdown signal fired: a reload keeps the flag, an
    /// interrupt clears it.
    pub fn set_reload_request(&mut self, reload: bool)
        ensures
            final(self).mode == old(self).mode,
            final(self).worker_count == old(self).worker_count,
            final(self).reload_request == reload,
    {
        self.reload_request = reload;
    }

    /// Enter shutdown mode; reports whether the last-worker listeners must
    /// be notified, which is the case once no worker is left.
    pub fn server_shutdown(&mut self) -> (notify: bool)
        ensures
            final(self).mode == ServerMode::Shutdown,
            final(self).worker_count == old(self).worker_count,
            final(self).reload_request == old(self).reload_request,
            notify == (old(self).worker_count == 0),
    {
        self.mode = ServerMode::Shutdown;
        self.check_last_worker()
    }

    /// Record the number of live workers; reports whether the last-worker
    /// listeners must be notified.
    pub fn set_worker_count(&mut self, count: usize) -> (notify: bool)
        ensures
            final(self).mode == old(self).mode,
            final(self).reload_request == old(self).reload_request,
            final(self).worker_count == count,
            notify == (old(self).mode == ServerMode::Shutdown && count == 0),
    {
        self.worker_count = count;
        self.check_last_worker()
    }

    /// The server is shutting down and the last worker has finished.
    pub fn check_last_worker(&self) -> (r: bool)
        ensures
            r == (self.mode == ServerMode::Shutdown && self.worker_count == 0),
    {
        match self.mode {
            ServerMode::Shutdown => self.worker_count == 0,
            ServerMode::Normal => false,
        }
    }
}

} // verus!
