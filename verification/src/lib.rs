//! Persistence of wallet updates under zero-padded counter file names, and the
//! request/response logic of an Esplora blockchain backend.

pub mod consensus;
pub mod counter;
pub mod encoding;
pub mod error;
pub mod esplora;
pub mod persister;

pub use counter::Counter;
pub use error::{HexErrorKind, IntErrorKind, WolletError};
pub use esplora::{EsploraClient, EsploraTx, HistoryEntry, Status};
pub use persister::{FsPersister, FsPersisterIter, MemoryPersister, NoPersist, Persister};
