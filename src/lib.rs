//! Workspace indexing core: content-addressed blobs, line-preserving
//! chunking, the per-workspace blob cache, incremental scan decisions,
//! upload batching with per-blob fallback, the transport's retry schedule,
//! the status taxonomy, startup decisions and model resolution.

pub mod blobs;
pub mod cache;
pub mod chunk;
pub mod digest;
pub mod ignore_rules;
pub mod models;
pub mod prompt;
pub mod resync;
pub mod retry;
pub mod scan;
pub mod session;
pub mod startup;
pub mod status;
pub mod stream;
mod table;
pub mod text;
pub mod upload;

pub use blobs::{base_path_for_cached_path, chunk_path, file_blobs};
pub use cache::{BlobsCache, Checkpoint, FileBlob, FileEntry};
pub use chunk::{split_content_into_chunks, MAX_BLOB_SIZE, MAX_LINES_PER_BLOB};
pub use digest::{compute_blob_name, compute_path_uuid};
pub use models::{
    find_default_model, resolve_model, resolve_model_with_fallback, MatchedBy, ModelInfoEntry,
    ModelInfoRegistry, ModelResolution,
};
pub use prompt::{build_legacy_prompt, extract_enhanced_prompt, parse_bool_env, CliMode};
pub use scan::{finish_incremental, plan_incremental, LiveFile, ScanResult};
pub use session::{AuthSessionStore, Metadata, SessionData};
pub use startup::{EnsureError, EnsureStatus, ValidationResult};
pub use status::{ApiError, ApiStatus};
pub use upload::{
    create_upload_batches, mark_files_as_uploaded, BatchUploadResult, SyncResult, UploadStatus,
};
