//! Durable, recoverable migration bookkeeping: descriptors, the applied-migration
//! ledger and its integrity-tagged text form, recovery checkpoints, and the
//! decisions of the migration runner.

pub mod codec;
pub mod descriptor;
pub mod files;
pub mod integrity;
pub mod ledger;
pub mod ledger_codec;
pub mod recovery;
pub mod recovery_codec;
pub mod runner;
pub mod v09;
