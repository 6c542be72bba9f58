//! A credential store facade with a migration path for secrets that an older
//! tool wrote as 8-bit text where the store now expects 16-bit text.

pub mod encoding;
pub mod error;
pub mod target;
pub mod migration;
pub mod store;
pub mod laws;
