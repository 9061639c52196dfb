//! Reading the index and block payloads of TSM files written by InfluxDB 2.x.

pub mod block;
pub mod bytes;
pub mod error;
pub mod id;
pub mod index;
pub mod key;
pub mod text;

pub use block::{check_column_lengths, BlockPayload, TSMBlockReader};
pub use error::{ErrorKind, TSMError};
pub use id::InfluxID;
pub use index::{Block, IndexEntry, TSMIndexReader};
pub use key::{parse_tsm_key, ParsedTSMKey};
