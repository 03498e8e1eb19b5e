//! Framed TCP messaging: the wire codec, the connection registry, and the
//! decisions of the listener and the connector, each with its contract.
//! Beside them stand the plain records that the application exchanges.

pub mod codec;
pub mod connector;
pub mod decoder;
pub mod json;
pub mod pipeline;
pub mod records;
pub mod registry;
pub mod server;
pub mod sql;
