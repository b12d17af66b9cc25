//! Durable storage of a node's persistent state.
use crate::log::EntryModel;
use crate::node::PersistentState;
use vstd::prelude::*;

verus! {

/// Why state could not be saved or loaded.
#[derive(Clone, Debug, PartialEq)]
pub enum StorageError {
    Unspecified,
    IoError(String),
    DeserializationError(String),
    SerializationError(String),
}

pub type StorageResult<T> = Result<T, StorageError>;

/// The mathematical value of a persistent state: term, vote and log.
pub open spec fn state_model(s: PersistentState) -> (u64, Option<u64>, Seq<EntryModel>) {
    (s.current_term, s.voted_for, s.log@)
}

/// Durable storage for a node's persistent state, supplied by the user of a node. A
/// successful `save_state` must survive a crash immediately after it returns.
///
/// A medium returns from `load_state` the state last saved, and `None` before the first
/// save. Implementations live outside the verified code, so that part is their own duty;
/// what every implementation is held to here is that a loaded state is well formed and
/// which errors each operation may report.
pub trait Storage: Sized {
    /// A medium holding nothing yet. First-time setup that needs more can be done on the
    /// first load or save.
    fn new() -> Self;

    /// The state last saved, or `None` before the first save; a failure is an I/O or a
    /// decoding error.
    fn load_state(&self) -> (r: StorageResult<Option<PersistentState>>)
        ensures
            match r {
                Ok(Some(p)) => p.log.wf(),
                Ok(None) => true,
                Err(e) => e is IoError || e is DeserializationError,
            },
    ;

    /// Saves `state`, which later loads return; a failure is an I/O or an encoding error.
    fn save_state(&mut self, state: &PersistentState) -> (r: StorageResult<()>)
        requires
            state.log.wf(),
        ensures
            r matches Err(e) ==> (e is IoError || e is SerializationError),
    ;
}

/// Storage that keeps the state in memory only: it does not survive the process and is
/// meant for tests and examples.
pub struct MemoryStorage {
    inner: Option<PersistentState>,
}

impl MemoryStorage {
    /// The state last saved, as a value.
    pub closed spec fn saved(&self) -> Option<(u64, Option<u64>, Seq<EntryModel>)> {
        match self.inner {
            Some(p) => Some(state_model(p)),
            None => None,
        }
    }

    /// A saved state is always well formed.
    #[verifier::type_invariant]
    spec fn inv(&self) -> bool {
        self.inner matches Some(p) ==> p.log.wf()
    }

    /// Storage holding nothing yet.
    pub fn new() -> (r: MemoryStorage)
        ensures
            r.saved().is_none(),
    {
        MemoryStorage { inner: None }
    }

    /// Keeps a copy of `state`; never fails.
    pub fn save_state(&mut self, state: &PersistentState) -> (r: StorageResult<()>)
        requires
            state.log.wf(),
        ensures
            r is Ok,
            final(self).saved() == Some(state_model(*state)),
    {
        self.inner = Some(state.copy());
        Ok(())
    }

    /// A copy of the state last saved, or `None` before the first save; never fails.
    pub fn load_state(&self) -> (r: StorageResult<Option<PersistentState>>)
        ensures
            r matches Ok(o) && (o matches Some(p) ==> p.log.wf()) && match o {
                Some(p) => self.saved() == Some(state_model(p)),
                None => self.saved().is_none(),
            },
    {
        proof {
            use_type_invariant(self);
        }
        match &self.inner {
            Some(p) => Ok(Some(p.copy())),
            None => Ok(None),
        }
    }
}

impl Storage for MemoryStorage {
    fn new() -> (r: MemoryStorage) {
        MemoryStorage::new()
    }

    fn load_state(&self) -> (r: StorageResult<Option<PersistentState>>) {
        MemoryStorage::load_state(self)
    }

    fn save_state(&mut self, state: &PersistentState) -> (r: StorageResult<()>) {
        MemoryStorage::save_state(self, state)
    }
}

} // verus!
