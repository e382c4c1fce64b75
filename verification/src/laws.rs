//! What the operations do, said of their arguments and results. A premise
//! `call_ensures(f, args, r)` reads: a call of `f` with `args` returned `r`.

pub mod creds;
pub mod dispatch;
pub mod forge;
pub mod git;
pub mod handler;
pub mod http;
pub mod keys;
pub mod path;
pub mod text;
