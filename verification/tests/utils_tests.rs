use silero_vad::utils::{collect_chunks, drop_chunks};
use silero_vad::Error;
use silero_vad::SpeechTimestamps;

fn ramp(n: usize) -> Vec<i16> {
    (0..n).map(|i| i as i16).collect()
}

#[test]
fn collect_extracts_covered_samples() {
    // at 1000 Hz one millisecond is one sample
    let audio = ramp(10);
    let ts = vec![
        SpeechTimestamps { start_ms: 2, end_ms: 5 },
        SpeechTimestamps { start_ms: 7, end_ms: 9 },
    ];
    let got = collect_chunks(&ts, &audio, 1000).unwrap();
    assert_eq!(got, vec![2, 3, 4, 7, 8]);
}

#[test]
fn collect_scales_milliseconds_by_sample_rate() {
    // at 16 kHz one millisecond is 16 samples
    let audio = ramp(64);
    let ts = vec![SpeechTimestamps { start_ms: 1, end_ms: 3 }];
    let got = collect_chunks(&ts, &audio, 16000).unwrap();
    assert_eq!(got.len(), 32);
    assert_eq!(got[0], 16);
    assert_eq!(got[31], 47);
}

#[test]
fn collect_rejects_out_of_bounds_timestamps() {
    let audio = ramp(10);
    // end one sample past the buffer
    let late_end = vec![SpeechTimestamps { start_ms: 2, end_ms: 11 }];
    assert_eq!(collect_chunks(&late_end, &audio, 1000), Err(Error::InvalidInput));
    // start exactly at the buffer length is already out of bounds
    let late_start = vec![SpeechTimestamps { start_ms: 10, end_ms: 10 }];
    assert_eq!(collect_chunks(&late_start, &audio, 1000), Err(Error::InvalidInput));
    // end exactly at the buffer length is allowed
    let at_edge = vec![SpeechTimestamps { start_ms: 9, end_ms: 10 }];
    assert_eq!(collect_chunks(&at_edge, &audio, 1000).unwrap(), vec![9]);
}

#[test]
fn collect_of_no_segments_is_empty() {
    let audio = ramp(5);
    let ts: Vec<SpeechTimestamps> = Vec::new();
    assert_eq!(collect_chunks(&ts, &audio, 1000).unwrap(), Vec::<i16>::new());
}

#[test]
fn drop_removes_covered_samples() {
    let audio = ramp(10);
    let ts = vec![
        SpeechTimestamps { start_ms: 2, end_ms: 5 },
        SpeechTimestamps { start_ms: 7, end_ms: 9 },
    ];
    let got = drop_chunks(&ts, &audio, 1000).unwrap();
    assert_eq!(got, vec![0, 1, 5, 6, 9]);
}

#[test]
fn drop_keeps_everything_without_segments() {
    let audio = ramp(6);
    let ts: Vec<SpeechTimestamps> = Vec::new();
    assert_eq!(drop_chunks(&ts, &audio, 1000).unwrap(), audio);
}

#[test]
fn drop_handles_overlapping_segments() {
    // the second segment starts inside the range the first removed:
    // no samples are emitted between them, and the tail resumes after it
    let audio = ramp(10);
    let ts = vec![
        SpeechTimestamps { start_ms: 1, end_ms: 6 },
        SpeechTimestamps { start_ms: 4, end_ms: 8 },
    ];
    let got = drop_chunks(&ts, &audio, 1000).unwrap();
    assert_eq!(got, vec![0, 8, 9]);
}

#[test]
fn drop_rejects_out_of_bounds_timestamps() {
    let audio = ramp(10);
    let ts = vec![SpeechTimestamps { start_ms: 4, end_ms: 12 }];
    assert_eq!(drop_chunks(&ts, &audio, 1000), Err(Error::InvalidInput));
}

#[test]
fn collect_and_drop_partition_the_audio() {
    let audio = ramp(20);
    let ts = vec![
        SpeechTimestamps { start_ms: 3, end_ms: 7 },
        SpeechTimestamps { start_ms: 12, end_ms: 15 },
    ];
    let kept = collect_chunks(&ts, &audio, 1000).unwrap();
    let dropped = drop_chunks(&ts, &audio, 1000).unwrap();
    assert_eq!(kept.len() + dropped.len(), audio.len());
    let mut merged = kept.clone();
    merged.extend(&dropped);
    merged.sort();
    assert_eq!(merged, audio);
}
