//! Terminal-session management and streaming usage scraping for an embedded
//! terminal host.

pub mod git;
pub mod lines;
pub mod numbers;
pub mod scraper;
pub mod session;
pub mod settings;
pub mod spawn;
pub mod text;
pub mod usage;
pub mod watch;
