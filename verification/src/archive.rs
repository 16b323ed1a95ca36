//! The archive: its layout on disk, sessions, and the channel reader and
//! writer.

pub mod channel_reader;
pub mod channel_writer;
pub mod content;
pub mod defs;
pub mod keys;
pub mod naming_proofs;
pub mod revision_proofs;
pub mod session;

pub use self::channel_reader::{ChannelReader, ChannelReaderItem, ChannelReaderOptions};
pub use self::channel_writer::{ChannelWriter, ChannelWriterAdd};
pub use self::content::{ContentCompression, ContentSettings};
pub use self::session::{BackupSession, GetSession, ToSession};
