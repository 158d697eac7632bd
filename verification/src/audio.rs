//! Decisions around the external `ffmpeg` tool, which turns any input file
//! into 16 kHz mono 16-bit PCM audio: where it is, how it is called and what
//! its run means.

use vstd::prelude::*;
use crate::error::AppError;
use crate::text::{push_signed_decimal, signed_decimal, trim, trimmed};

verus! {

/// The path of `ffmpeg` from the output of `which ffmpeg`: the trimmed output
/// when the command succeeded and printed something, else `FfmpegNotFound`.
pub fn ffmpeg_path_from_which(success: bool, stdout: &str) -> (r: Result<String, AppError>)
    ensures
        r matches Ok(path) ==> success && trimmed(stdout@).len() > 0 && path@ == trimmed(stdout@),
        r matches Err(e) ==> e is FfmpegNotFound,
        r is Err <==> (!success || trimmed(stdout@).len() == 0),
{
    if !success {
        return Err(AppError::FfmpegNotFound);
    }
    let path = trim(stdout);
    if path.as_str().unicode_len() == 0 {
        return Err(AppError::FfmpegNotFound);
    }
    Ok(path)
}

/// The arguments given to `ffmpeg` to extract the audio of `input` into
/// `output`: no video, 16-bit little-endian PCM, 16 kHz, one channel,
/// overwriting `output`.
pub open spec fn ffmpeg_arg_list(input: Seq<char>, output: Seq<char>) -> Seq<Seq<char>> {
    seq![
        "-i"@,
        input,
        "-vn"@,
        "-acodec"@,
        "pcm_s16le"@,
        "-ar"@,
        "16000"@,
        "-ac"@,
        "1"@,
        "-y"@,
        output,
    ]
}

/// The input and output paths reach `ffmpeg` unchanged, right after `-i`
/// and last, and every other argument is the same whatever the paths.
pub proof fn lemma_ffmpeg_args_pass_paths_unchanged(
    input: Seq<char>,
    output: Seq<char>,
    other_input: Seq<char>,
    other_output: Seq<char>,
)
    ensures
        ffmpeg_arg_list(input, output).len() == 11,
        ffmpeg_arg_list(input, output)[0] == "-i"@,
        ffmpeg_arg_list(input, output)[1] == input,
        ffmpeg_arg_list(input, output)[10] == output,
        forall|j: int|
            0 <= j < 11 && j != 1 && j != 10 ==> #[trigger] ffmpeg_arg_list(input, output)[j]
                == ffmpeg_arg_list(other_input, other_output)[j],
{
}

/// The arguments of the `ffmpeg` run (see [`ffmpeg_arg_list`]).
pub fn ffmpeg_args(input: &str, output: &str) -> (args: Vec<String>)
    ensures
        args@.len() == 11,
        forall|i: int| 0 <= i < 11 ==> #[trigger] args@[i]@ == ffmpeg_arg_list(input@, output@)[i],
        args@[1]@ == input@,
        args@[10]@ == output@,
{
    let mut args: Vec<String> = Vec::new();
    args.push(String::from_str("-i"));
    args.push(String::from_str(input));
    args.push(String::from_str("-vn"));
    args.push(String::from_str("-acodec"));
    args.push(String::from_str("pcm_s16le"));
    args.push(String::from_str("-ar"));
    args.push(String::from_str("16000"));
    args.push(String::from_str("-ac"));
    args.push(String::from_str("1"));
    args.push(String::from_str("-y"));
    args.push(String::from_str(output));
    args
}

/// How an `ffmpeg` run ended: whether it succeeded and its exit code, if it
/// has one.
pub struct FfmpegExit {
    pub success: bool,
    pub code: Option<i32>,
}

/// What an `ffmpeg` run means: `run` is how it ended, or the text of the
/// error that kept it from starting; `output_exists` tells whether the output
/// file is there afterwards.
pub open spec fn extraction_result(run: Result<FfmpegExit, String>, output_exists: bool) -> Result<(), Seq<char>> {
    match run {
        Err(e) => Err("Failed to run ffmpeg: "@ + e@),
        Ok(exit) => if !exit.success {
            Err("ffmpeg exited with code "@ + signed_decimal(
                match exit.code {
                    Some(c) => c as int,
                    None => -1,
                },
            ))
        } else if !output_exists {
            Err("ffmpeg produced no output file"@)
        } else {
            Ok(())
        },
    }
}

/// The outcome of an `ffmpeg` run (see [`extraction_result`]); a failure is
/// an `FfmpegError` with the message given there.
pub fn extraction_outcome(run: Result<FfmpegExit, String>, output_exists: bool) -> (r: Result<(), AppError>)
    ensures
        r is Ok <==> extraction_result(run, output_exists) is Ok,
        r matches Err(e) ==> (e matches AppError::FfmpegError(m) && extraction_result(run, output_exists)
            == Err::<(), Seq<char>>(m@)),
{
    match run {
        Err(e) => {
            let mut m = String::from_str("Failed to run ffmpeg: ");
            m.append(e.as_str());
            Err(AppError::FfmpegError(m))
        },
        Ok(exit) => {
            if !exit.success {
                let code = match exit.code {
                    Some(c) => c,
                    None => -1,
                };
                let mut m = String::from_str("ffmpeg exited with code ");
                push_signed_decimal(&mut m, code);
                Err(AppError::FfmpegError(m))
            } else if !output_exists {
                Err(AppError::FfmpegError(String::from_str("ffmpeg produced no output file")))
            } else {
                Ok(())
            }
        },
    }
}

} // verus!
