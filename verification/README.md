# mactranscribe

The verified core of a desktop speech-to-text tool that turns any audio or
video file into a transcript and SubRip subtitles.

`src/` is the library, verified with Verus:

- `srt`: SubRip timestamps and documents.
- `chunker`: the plan that cuts long recordings into overlapping chunks.
- `transcriber`: timestamp granularity, merging chunk transcripts, names of
  temporary audio files.
- `audio`: decisions around the external `ffmpeg` tool.
- `model_manager`: model file locations and the download protocol as a
  state machine.
- `paths`, `text`: path joining, extensions, decimal rendering, trimming.
- `error`: the application's errors and their messages.

`app/` is the Tauri application around it: commands, process and file I/O,
HTTP, the transcription thread and the floating-point audio handling.
