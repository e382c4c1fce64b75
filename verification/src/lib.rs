//! A credential broker: it holds the git capability URLs and the forge owner
//! credentials of one workspace and performs git and forge operations with
//! them, answering with results and never with a credential.

pub mod authorized_keys;
pub mod contract;
pub mod creds;
pub mod dispatch;
pub mod forge;
pub mod frame;
pub mod git_ops;
pub mod http_ctrl;
pub mod http_laws;
pub mod json;
pub mod laws;
pub mod lines;
pub mod order;
pub mod reading;
pub mod request;
pub mod search;
pub mod text;

pub use request::BrokerRequest;
