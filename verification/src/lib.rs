//! A catalog library for game repack releases: it parses release metadata out
//! of semi-structured markup, decides which externally discovered releases are
//! new relative to the local catalog, and records them together with their
//! normalized tag dimensions.

pub mod catalog;
pub mod crawl;
pub mod dates;
pub mod dom;
pub mod extract;
pub mod feed;
pub mod jsonio;
pub mod markup;
pub mod present;
pub mod release;
pub mod search;
pub mod strutil;
pub mod sync;

pub use release::{Link, Mirror, Release};

