use mactranscribe::chunker::{plan_chunks, ChunkSpan, CHUNK_SAMPLES, OVERLAP_SAMPLES, STEP_SAMPLES};
use mactranscribe::srt::{format_timestamp, to_srt, TimedSegment};

fn span(start: usize, end: usize, index: usize, total_chunks: usize) -> ChunkSpan {
    ChunkSpan { start, end, index, total_chunks }
}

#[test]
fn empty_recording_is_one_empty_chunk() {
    assert_eq!(plan_chunks(0), vec![span(0, 0, 0, 1)]);
}

#[test]
fn short_recording_is_one_chunk() {
    assert_eq!(plan_chunks(16000), vec![span(0, 16000, 0, 1)]);
    assert_eq!(plan_chunks(CHUNK_SAMPLES), vec![span(0, CHUNK_SAMPLES, 0, 1)]);
}

#[test]
fn one_sample_more_makes_two_chunks() {
    assert_eq!(
        plan_chunks(CHUNK_SAMPLES + 1),
        vec![span(0, 3840000, 0, 2), span(3760000, 3840001, 1, 2)]
    );
}

#[test]
fn ten_minutes_make_three_overlapping_chunks() {
    let n = 16000 * 600;
    let plan = plan_chunks(n);
    assert_eq!(
        plan,
        vec![
            span(0, 3840000, 0, 3),
            span(3760000, 7600000, 1, 3),
            span(7520000, 9600000, 2, 3),
        ]
    );
    for pair in plan.windows(2) {
        assert_eq!(pair[0].end - pair[1].start, OVERLAP_SAMPLES);
    }
    assert_eq!(STEP_SAMPLES + OVERLAP_SAMPLES, CHUNK_SAMPLES);
}

#[test]
fn plans_cover_the_recording() {
    for n in [1usize, 3840000, 7600000, 7600001, 11360000, 11360001, 20000000] {
        let plan = plan_chunks(n);
        assert_eq!(plan[0].start, 0);
        assert_eq!(plan.last().unwrap().end, n);
        for (i, c) in plan.iter().enumerate() {
            assert_eq!(c.index, i);
            assert_eq!(c.total_chunks, plan.len());
            assert!(c.start < c.end && c.end - c.start <= CHUNK_SAMPLES);
        }
    }
}

#[test]
fn timestamps() {
    assert_eq!(format_timestamp(0), "00:00:00,000");
    assert_eq!(format_timestamp(1500), "00:00:01,500");
    assert_eq!(format_timestamp(3723004), "01:02:03,004");
    assert_eq!(format_timestamp(359999999), "99:59:59,999");
    assert_eq!(format_timestamp(360000000), "100:00:00,000");
}

#[test]
fn subtitle_document() {
    let segments = vec![
        TimedSegment { text: "  Hello there. ".to_string(), start_ms: 0, end_ms: 1250 },
        TimedSegment { text: "General Kenobi!\n".to_string(), start_ms: 1250, end_ms: 61001 },
    ];
    assert_eq!(
        to_srt(&segments),
        "1\n00:00:00,000 --> 00:00:01,250\nHello there.\n\n\
         2\n00:00:01,250 --> 00:01:01,001\nGeneral Kenobi!\n\n"
    );
    assert_eq!(to_srt(&[]), "");
}

#[test]
fn timestamps_recompose_and_keep_their_width() {
    for t in [0u64, 999, 1000, 59999, 60000, 3599999, 3600000, 86399999, 359999999] {
        let s = format_timestamp(t);
        assert_eq!(s.len(), 12);
        let h: u64 = s[0..2].parse().unwrap();
        let m: u64 = s[3..5].parse().unwrap();
        let sec: u64 = s[6..8].parse().unwrap();
        let ms: u64 = s[9..12].parse().unwrap();
        assert_eq!(h * 3600000 + m * 60000 + sec * 1000 + ms, t);
    }
}

#[test]
fn numbering_continues_across_concatenation() {
    let seg = |t: &str, a: u64, b: u64| TimedSegment { text: t.to_string(), start_ms: a, end_ms: b };
    let first = to_srt(&[seg("one", 0, 10)]);
    let both = to_srt(&[seg("one", 0, 10), seg(" two ", 10, 20)]);
    assert!(both.starts_with(&first));
    assert_eq!(&both[first.len()..], "2\n00:00:00,010 --> 00:00:00,020\ntwo\n\n");
}

#[test]
fn timestamps_keep_time_order() {
    let times = [0u64, 9, 10, 99, 100, 999, 1000, 59999, 60000, 599999, 600000, 3599999, 3600000, 35999999, 36000000, 359999999];
    for w in times.windows(2) {
        assert!(format_timestamp(w[0]) < format_timestamp(w[1]));
    }
    assert!(format_timestamp(5000) <= format_timestamp(5000));
}
