mod errors;
pub mod changelog;
pub mod resolver;
pub mod status;
pub mod strutil;
pub mod transport;

pub use errors::SyncError;
