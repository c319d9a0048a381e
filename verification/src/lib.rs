//! The logic of the application's gateway extension and of its remote control:
//! reading and writing the gateway's configuration, deciding when its service is
//! started, and what a remote client is told, each with a proved contract.

pub mod gateway;
pub mod json;
pub mod json_text;
pub mod remote;
pub mod selection;
pub mod text;
