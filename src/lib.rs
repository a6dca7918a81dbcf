//! Incremental ingestion of time-ordered, gzip-compressed, length-framed record
//! files from an object store into an analytical store.
//!
//! The library holds the decisions of the pipeline: how object keys are parsed
//! and synthesised, how a paginated listing is accumulated and windowed, how a
//! compressed file is split into records, which time window a run covers, how
//! the resumption watermark is computed, and how files are admitted under a
//! concurrency bound. The object store, the analytical store and the process
//! around them are driven by the caller, who hands results back as plain values.

pub mod error;
pub mod frame;
pub mod key;
pub mod kinds;
pub mod listing;
pub mod progress;
pub mod pubkey;
pub mod records;
pub mod scheduler;
pub mod schema;
pub mod time;
pub mod window;

pub use error::{FrameError, ImportError, S3DecodeError, S3Error};
pub use frame::{decode_file, split_frames};
pub use key::{FileInfo, Timestamp};
pub use kinds::{DEFAULT_REGION, S3Args, SupportedFileTypes};
pub use listing::{ListRequest, Listing, select_window};
pub use progress::{ProcessedFile, ProcessedLog};
pub use pubkey::PublicKeyBinary;
pub use records::{bucket_rows, keep_decoded};
pub use scheduler::{Action, FileStage, Scheduler};
pub use schema::{FILES_PROCESSED, TableField, create_table_sql, files_processed_fields};
pub use time::{MILLISECOND_THRESHOLD, determine_timestamp, to_datetime, to_datetime_ms};
pub use window::{Selection, TimeArgs};
