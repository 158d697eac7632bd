//! Verified core of a desktop transcription tool: subtitle (SRT) rendering,
//! the plan by which long recordings are cut into overlapping chunks, the
//! rules that merge per-chunk transcripts, the handling of the external
//! `ffmpeg` tool's results, model-file bookkeeping and the download protocol
//! for the speech model, and the error messages shown to the user.

pub mod audio;
pub mod chunker;
pub mod error;
pub mod model_manager;
pub mod paths;
pub mod srt;
pub mod text;
pub mod transcriber;
