//! Clipboard sessions: a copy belongs to the session that made it, and revoking the
//! session (on lock or exit) stops copies that have not finished yet.
use std::sync::atomic::AtomicBool;
use std::sync::Arc;
use vstd::prelude::*;

verus! {

/// A session of copies, shared by everything that copies for it. Another thread may
/// revoke it at any moment, so whether it is revoked is only known by asking.
#[derive(Clone)]
pub struct ClipboardSession(pub Arc<AtomicBool>);

impl ClipboardSession {
    /// A session that is not revoked.
    pub fn new() -> Self {
        ClipboardSession(Arc::new(AtomicBool::new(false)))
    }

    /// Whether the session was revoked.
    pub fn revoked(&self) -> bool {
        self.0.load(std::sync::atomic::Ordering::SeqCst)
    }

    /// Revokes the session for every holder of it.
    pub fn revoke(&self) {
        self.0.store(true, std::sync::atomic::Ordering::SeqCst);
    }
}

/// Starts the helper processes that own copied text until it expires.
pub struct ClipboardManager;

impl ClipboardManager {
    pub fn new() -> Self {
        ClipboardManager
    }
}

} // verus!
