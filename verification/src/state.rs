//! The state that the application shares between its commands: where the database lives and
//! whether an import is running.
use std::path::PathBuf;
use std::sync::atomic::AtomicBool;
use std::sync::Arc;
use vstd::prelude::*;

verus! {

/// `std::path::PathBuf`, carried through opaquely.
#[verifier::external_type_specification]
#[verifier::external_body]
pub struct ExPathBuf(PathBuf);

/// `Clone` for `PathBuf`: the clone is the same path.
pub assume_specification[ <PathBuf as Clone>::clone ](path: &PathBuf) -> (r: PathBuf)
    ensures
        r == *path,
;

/// The database path and the flag that keeps two imports from running at once.
///
/// The flag is shared between the clones of a state, so that a background import started
/// from one of them is seen by all.
#[derive(Clone)]
pub struct AppState {
    db_path: PathBuf,
    import_running: Arc<AtomicBool>,
}

impl AppState {
    /// The path of the database that this state was made with.
    pub closed spec fn database(&self) -> PathBuf {
        self.db_path
    }

    /// A state for the database at `db_path`, with no import running.
    pub fn new(db_path: PathBuf) -> (r: Self)
        ensures
            r.database() == db_path,
    {
        AppState { db_path, import_running: Arc::new(AtomicBool::new(false)) }
    }

    /// The database path.
    pub fn db_path(&self) -> (r: &PathBuf)
        ensures
            *r == self.database(),
    {
        &self.db_path
    }

    /// Marks an import as running; `true` when none was running before, `false` when one
    /// already was, in which case nothing changes.
    ///
    /// The flag is read and set in one atomic step, so of two callers racing for it at most
    /// one gets `true`. Which one, and what the flag held, is up to the other threads: no
    /// clause here states the result.
    pub fn try_start_import(&self) -> bool {
        let was_running = self.import_running.swap(true, std::sync::atomic::Ordering::SeqCst);
        !was_running
    }

    /// Marks the running import as finished.
    pub fn finish_import(&self) {
        self.import_running.store(false, std::sync::atomic::Ordering::SeqCst);
    }
}

} // verus!
