use mactranscribe::audio::{extraction_outcome, ffmpeg_args, ffmpeg_path_from_which, FfmpegExit};
use mactranscribe::error::AppError;

#[test]
fn error_messages() {
    assert_eq!(AppError::ModelNotFound("/m".into()).message(), "Model not found at /m");
    assert_eq!(AppError::DownloadError("x".into()).message(), "Model download failed: x");
    assert_eq!(
        AppError::FfmpegNotFound.message(),
        "ffmpeg not found. Install with: brew install ffmpeg"
    );
    assert_eq!(AppError::FfmpegError("e".into()).message(), "Audio extraction failed: e");
    assert_eq!(AppError::TranscriptionError("t".into()).message(), "Transcription failed: t");
    assert_eq!(AppError::ModelNotLoaded.message(), "Model not loaded");
    assert_eq!(AppError::Io("denied".into()).message(), "IO error: denied");
    assert_eq!(AppError::Other("plain".into()).message(), "plain");
}

#[test]
fn which_output() {
    match ffmpeg_path_from_which(true, "/usr/bin/ffmpeg\n") {
        Ok(p) => assert_eq!(p, "/usr/bin/ffmpeg"),
        Err(e) => panic!("unexpected {:?}", e),
    }
    assert!(matches!(ffmpeg_path_from_which(false, "/usr/bin/ffmpeg\n"), Err(AppError::FfmpegNotFound)));
    assert!(matches!(ffmpeg_path_from_which(true, "  \n"), Err(AppError::FfmpegNotFound)));
    assert!(matches!(ffmpeg_path_from_which(true, ""), Err(AppError::FfmpegNotFound)));
}

#[test]
fn ffmpeg_arguments() {
    assert_eq!(
        ffmpeg_args("in.mp4", "/tmp/out.wav"),
        vec![
            "-i", "in.mp4", "-vn", "-acodec", "pcm_s16le", "-ar", "16000", "-ac", "1", "-y",
            "/tmp/out.wav"
        ]
    );
}

#[test]
fn extraction_outcomes() {
    assert!(extraction_outcome(Ok(FfmpegExit { success: true, code: Some(0) }), true).is_ok());
    match extraction_outcome(Ok(FfmpegExit { success: true, code: Some(0) }), false) {
        Err(AppError::FfmpegError(m)) => assert_eq!(m, "ffmpeg produced no output file"),
        other => panic!("unexpected {:?}", other),
    }
    match extraction_outcome(Ok(FfmpegExit { success: false, code: Some(1) }), true) {
        Err(AppError::FfmpegError(m)) => assert_eq!(m, "ffmpeg exited with code 1"),
        other => panic!("unexpected {:?}", other),
    }
    match extraction_outcome(Ok(FfmpegExit { success: false, code: None }), false) {
        Err(AppError::FfmpegError(m)) => assert_eq!(m, "ffmpeg exited with code -1"),
        other => panic!("unexpected {:?}", other),
    }
    match extraction_outcome(Err("No such file".to_string()), false) {
        Err(AppError::FfmpegError(m)) => assert_eq!(m, "Failed to run ffmpeg: No such file"),
        other => panic!("unexpected {:?}", other),
    }
}
