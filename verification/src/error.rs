//! The errors of the application and the messages shown for them.

use vstd::prelude::*;

verus! {

/// What can go wrong while preparing the model, extracting audio or
/// transcribing. `Io` carries the text of the underlying I/O error.
#[derive(Debug)]
pub enum AppError {
    ModelNotFound(String),
    DownloadError(String),
    FfmpegNotFound,
    FfmpegError(String),
    TranscriptionError(String),
    ModelNotLoaded,
    Io(String),
    Other(String),
}

/// The message shown to the user for `e`.
pub open spec fn error_message(e: AppError) -> Seq<char> {
    match e {
        AppError::ModelNotFound(s) => "Model not found at "@ + s@,
        AppError::DownloadError(s) => "Model download failed: "@ + s@,
        AppError::FfmpegNotFound => "ffmpeg not found. Install with: brew install ffmpeg"@,
        AppError::FfmpegError(s) => "Audio extraction failed: "@ + s@,
        AppError::TranscriptionError(s) => "Transcription failed: "@ + s@,
        AppError::ModelNotLoaded => "Model not loaded"@,
        AppError::Io(s) => "IO error: "@ + s@,
        AppError::Other(s) => s@,
    }
}

fn prefixed(prefix: &str, detail: &String) -> (r: String)
    ensures
        r@ == prefix@ + detail@,
{
    let mut r = String::from_str(prefix);
    r.append(detail.as_str());
    r
}

impl AppError {
    /// The message shown to the user (see [`error_message`]).
    pub fn message(&self) -> (r: String)
        ensures
            r@ == error_message(*self),
    {
        match self {
            AppError::ModelNotFound(s) => prefixed("Model not found at ", s),
            AppError::DownloadError(s) => prefixed("Model download failed: ", s),
            AppError::FfmpegNotFound => String::from_str(
                "ffmpeg not found. Install with: brew install ffmpeg",
            ),
            AppError::FfmpegError(s) => prefixed("Audio extraction failed: ", s),
            AppError::TranscriptionError(s) => prefixed("Transcription failed: ", s),
            AppError::ModelNotLoaded => String::from_str("Model not loaded"),
            AppError::Io(s) => prefixed("IO error: ", s),
            AppError::Other(s) => s.clone(),
        }
    }
}

} // verus!
