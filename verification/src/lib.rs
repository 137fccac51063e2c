//! A lightweight framework for message-driven job workers: a task-request
//! envelope is pulled from a broker topic, a registered handler runs through a
//! fixed lifecycle, and the outcome is written back into the envelope as data.

pub mod codec;
pub mod consumer;
pub mod controller;
pub mod errors;
pub mod messages;
pub mod producer;
pub mod results;
pub mod samples;
pub mod task;
pub mod value;

pub use consumer::{Consumer, RecordDisposition, RecordOutcome};
pub use controller::{BaseRegistry, Handler, Register, Registry};
pub use errors::{ErrorInfo, ErrorKind, ErrorType, KserErrors, KserTypeErrors};
pub use messages::Message;
pub use producer::{BulkSendReport, DeliveryOutcome, OutboundRecord};
pub use results::ExecResult;
pub use samples::{DiceRoll, Hello};
pub use task::Task;
pub use value::{Entry, KvMap, Value};
