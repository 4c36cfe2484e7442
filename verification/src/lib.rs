//! Verified client core for a VPN-portal remote file browser.
//!
//! The library covers the protocol logic of the client: volume-name
//! addressing, the embedded directory-listing grammar, the download
//! outcome classifier, and the login/session state machine.  Transport,
//! persistence and display live outside the library and exchange plain
//! values with it.

pub mod download;
pub mod listing;
pub mod scrape;
pub mod segment;
pub mod session;
pub mod size;
pub mod sort;
pub mod text;
pub mod timestamp;
pub mod volume;

pub use download::DownloadError;
pub use listing::ListError;
pub use segment::Segment;
pub use session::AuthError;
pub use session::LoginOutcome;
pub use session::Session;
pub use size::Size;
pub use sort::Sort;
pub use size::Unit;
pub use timestamp::Timestamp;
pub use volume::VolumeError;
pub use volume::VolumeID;
