//! A driver for the blueqat quantum-circuit engine, and a Steane-code layer on top of it.
//!
//! The crate talks to no engine itself. It builds operations, turns them into the script that the
//! engine runs, keeps track of which measurement goes into which slot, and reads the engine's
//! samples back. Whoever owns the engine runs the scripts and hands in what came back.
//!
//! - [`operation`]: the operations, one value per instruction.
//! - [`script`]: the script text of operations.
//! - [`slots`]: the table of pending measurements.
//! - [`buffer`]: the buffer in which operations gather until they are flushed.
//! - [`measured`] and [`demux`]: measurement results by slot, and how a sample is read into them.
//! - [`session`] and [`simulator`]: the exclusive session on the engine.
//! - [`pipeline`]: the executor that runs submitted batches in order.
//! - [`steane`]: logical qubits in the Steane code, with syndrome measurement and recovery.
//! - [`error`]: the failures.

pub mod buffer;
pub mod demux;
pub mod error;
pub mod measured;
pub mod operation;
mod opid;
pub mod pipeline;
pub mod script;
pub mod session;
pub mod simulator;
pub mod slots;
pub mod steane;

pub use buffer::{Batch, BlueqatOperations, BufferView, RawScriptGate};
pub use error::Error;
pub use measured::BlueqatMeasured;
pub use operation::{raw_pyscript, BinaryGate, Operation, OperationView, UnaryGate};
pub use pipeline::{EngineReply, Pipeline, Waited};
pub use session::SessionLock;
pub use simulator::BlueqatSimulator;
pub use slots::SlotTable;
pub use steane::{RecoveryAction, RecoveryEvent, RecoveryPhase, SteaneLayer};
