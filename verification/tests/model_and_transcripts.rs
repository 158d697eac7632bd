use mactranscribe::error::AppError;
use mactranscribe::model_manager::{
    event_fits_state, file_url, model_file, DownloadAction, DownloadEvent, DownloadState,
    DownloadStep, HttpReply, ModelManager, MODEL_FILE_COUNT,
};
use mactranscribe::transcriber::{
    append_transcript, merge_transcripts, parse_timestamp_mode, temp_wav_name, wav_file_name,
    TimestampMode,
};

#[test]
fn model_locations() {
    let m = ModelManager::new("/data/app");
    assert_eq!(m.model_dir(), "/data/app/models/parakeet-tdt-0.6b-v2");
    assert_eq!(
        m.file_paths(),
        vec![
            "/data/app/models/parakeet-tdt-0.6b-v2/encoder-model.onnx",
            "/data/app/models/parakeet-tdt-0.6b-v2/encoder-model.onnx.data",
            "/data/app/models/parakeet-tdt-0.6b-v2/decoder_joint-model.onnx",
            "/data/app/models/parakeet-tdt-0.6b-v2/vocab.txt",
        ]
    );
    assert_eq!(m.partial_path(1), "/data/app/models/parakeet-tdt-0.6b-v2/encoder-model.onnx.part");
    assert_eq!(m.partial_path(3), "/data/app/models/parakeet-tdt-0.6b-v2/vocab.part");
    assert_eq!(
        file_url(2),
        "https://huggingface.co/istupakov/parakeet-tdt-0.6b-v2-onnx/resolve/main/decoder_joint-model.onnx"
    );
    assert_eq!(MODEL_FILE_COUNT, 4);
}

#[test]
fn missing_model_is_not_ready() {
    let m = ModelManager::new("/nonexistent/mactranscribe/data/dir");
    assert!(!m.is_ready());
}

fn step(m: &ModelManager, s: DownloadState, e: DownloadEvent) -> (DownloadState, DownloadStep) {
    assert!(event_fits_state(&s, &e));
    m.download_step(s, e)
}

#[test]
fn download_of_one_missing_file() {
    let m = ModelManager::new("/d");
    let (s, first) = m.start_download();
    assert!(matches!(first.action, DownloadAction::CreateDir { ref path } if path == "/d/models/parakeet-tdt-0.6b-v2"));
    let (s, st) = step(&m, s, DownloadEvent::DirCreated(Ok(())));
    assert!(matches!(st.action, DownloadAction::CheckExists { ref path } if path.ends_with("/encoder-model.onnx")));
    // The first three files are already present.
    let mut s = s;
    for i in 0..3 {
        let (s2, st) = step(&m, s, DownloadEvent::Checked(true));
        let r = st.report.expect("a report");
        assert_eq!(r.file, model_file(i));
        assert_eq!((r.file_index, r.total_files, r.bytes_downloaded, r.total_bytes), (i, 4, 0, Some(0)));
        assert!(r.already_present);
        s = s2;
    }
    assert_eq!(s, DownloadState::Checking { index: 3 });
    let (s, st) = step(&m, s, DownloadEvent::Checked(false));
    assert!(matches!(st.action, DownloadAction::Request { ref url } if url.ends_with("/resolve/main/vocab.txt")));
    let reply = HttpReply { success: true, status: "200 OK".to_string(), content_length: Some(10) };
    let (s, st) = step(&m, s, DownloadEvent::Replied(Ok(reply)));
    assert!(matches!(st.action, DownloadAction::CreateFile { ref path } if path == "/d/models/parakeet-tdt-0.6b-v2/vocab.part"));
    let (s, st) = step(&m, s, DownloadEvent::FileCreated(Ok(())));
    assert!(matches!(st.action, DownloadAction::ReadChunk));
    let (s, st) = step(&m, s, DownloadEvent::ChunkRead(Some(Ok(6))));
    assert!(matches!(st.action, DownloadAction::WriteChunk));
    let (s, st) = step(&m, s, DownloadEvent::ChunkWritten(Ok(())));
    assert_eq!(st.report.as_ref().unwrap().bytes_downloaded, 6);
    let (s, _) = step(&m, s, DownloadEvent::ChunkRead(Some(Ok(4))));
    let (s, st) = step(&m, s, DownloadEvent::ChunkWritten(Ok(())));
    let r = st.report.unwrap();
    assert_eq!((r.bytes_downloaded, r.total_bytes, r.already_present), (10, Some(10), false));
    let (s, st) = step(&m, s, DownloadEvent::ChunkRead(None));
    assert!(matches!(st.action, DownloadAction::Rename { ref from, ref to }
        if from.ends_with("vocab.part") && to.ends_with("vocab.txt")));
    let (s, st) = step(&m, s, DownloadEvent::Renamed(Ok(())));
    assert_eq!(s, DownloadState::Finished);
    assert!(matches!(st.action, DownloadAction::Finish(Ok(()))));
    assert!(!event_fits_state(&s, &DownloadEvent::Checked(true)));
}

fn failure(m: &ModelManager, s: DownloadState, e: DownloadEvent) -> String {
    let (s, st) = step(m, s, e);
    assert_eq!(s, DownloadState::Finished);
    match st.action {
        DownloadAction::Finish(Err(AppError::DownloadError(msg))) => msg,
        _ => panic!("expected a download error"),
    }
}

#[test]
fn download_errors() {
    let m = ModelManager::new("/d");
    assert_eq!(
        failure(&m, DownloadState::CreatingDir, DownloadEvent::DirCreated(Err("denied".into()))),
        "Cannot create model dir: denied"
    );
    assert_eq!(
        failure(&m, DownloadState::Requesting { index: 0 }, DownloadEvent::Replied(Err("timeout".into()))),
        "Request failed for encoder-model.onnx: timeout"
    );
    let reply = HttpReply { success: false, status: "404 Not Found".into(), content_length: None };
    assert_eq!(
        failure(&m, DownloadState::Requesting { index: 1 }, DownloadEvent::Replied(Ok(reply))),
        "HTTP 404 Not Found for encoder-model.onnx.data"
    );
    assert_eq!(
        failure(&m, DownloadState::CreatingFile { index: 2, total: None }, DownloadEvent::FileCreated(Err("full".into()))),
        "Cannot create file: full"
    );
    assert_eq!(
        failure(&m, DownloadState::Receiving { index: 2, downloaded: 5, total: None }, DownloadEvent::ChunkRead(Some(Err("reset".into())))),
        "Stream error: reset"
    );
    assert_eq!(
        failure(&m, DownloadState::Writing { index: 2, downloaded: 5, total: None, chunk_len: 3 }, DownloadEvent::ChunkWritten(Err("io".into()))),
        "Write error: io"
    );
    assert_eq!(
        failure(&m, DownloadState::Renaming { index: 3 }, DownloadEvent::Renamed(Err("busy".into()))),
        "Rename error: busy"
    );
    assert!(!event_fits_state(
        &DownloadState::Writing { index: 0, downloaded: u64::MAX, total: None, chunk_len: 1 },
        &DownloadEvent::ChunkWritten(Ok(()))
    ));
}

#[test]
fn timestamp_modes() {
    assert_eq!(parse_timestamp_mode("sentences"), TimestampMode::Sentences);
    assert_eq!(parse_timestamp_mode("tokens"), TimestampMode::Tokens);
    assert_eq!(parse_timestamp_mode("words"), TimestampMode::Words);
    assert_eq!(parse_timestamp_mode("Sentences"), TimestampMode::Words);
    assert_eq!(parse_timestamp_mode(""), TimestampMode::Words);
}

#[test]
fn transcript_merging() {
    let mut all = String::new();
    append_transcript(&mut all, "");
    assert_eq!(all, "");
    append_transcript(&mut all, "Hello");
    assert_eq!(all, "Hello");
    append_transcript(&mut all, "");
    assert_eq!(all, "Hello");
    append_transcript(&mut all, "world.");
    assert_eq!(all, "Hello world.");
    let texts: Vec<String> = vec!["".into(), "a".into(), "".into(), "b c".into(), "d".into()];
    assert_eq!(merge_transcripts(&texts), "a b c d");
    assert_eq!(merge_transcripts(&vec![]), "");
}

#[test]
fn temporary_audio_names() {
    assert_eq!(wav_file_name("abc"), "abc.wav");
    assert_eq!(temp_wav_name([0; 16]), "00000000-0000-4000-8000-000000000000.wav");
    assert_eq!(temp_wav_name([0xff; 16]), "ffffffff-ffff-4fff-bfff-ffffffffffff.wav");
    let bytes: [u8; 16] = [
        0x12, 0x34, 0x56, 0x78, 0x9a, 0xbc, 0xde, 0xf0, 0x01, 0x23, 0x45, 0x67, 0x89, 0xab, 0xcd,
        0xef,
    ];
    assert_eq!(temp_wav_name(bytes), "12345678-9abc-4ef0-8123-456789abcdef.wav");
    for _ in 0..20 {
        let random = uuid::Uuid::new_v4().into_bytes();
        let expected = uuid::Builder::from_random_bytes(random).into_uuid().to_string() + ".wav";
        let a = temp_wav_name(random);
        assert_eq!(a, expected);
        let id = &a[..36];
        for (i, c) in id.chars().enumerate() {
            if [8, 13, 18, 23].contains(&i) {
                assert_eq!(c, '-');
            } else {
                assert!(c.is_ascii_hexdigit() && !c.is_ascii_uppercase());
            }
        }
        assert_eq!(id.chars().nth(14), Some('4'));
    }
}

#[test]
fn partial_files_differ_from_model_files() {
    let m = ModelManager::new("/x");
    for i in 0..MODEL_FILE_COUNT {
        let full = m.file_path(i);
        let partial = m.partial_path(i);
        assert_ne!(full, partial);
        assert!(full.starts_with(m.model_dir()) && partial.starts_with(m.model_dir()));
    }
}
