pub mod chain;
pub mod enrich;
pub mod entry;
pub mod replace;
pub mod tokens;
pub mod urls;
