use speech_opt::combine::{
    combine_timings, subtitle_timings, timing_spans, tts_text, ItemType, RowProblem,
};
use speech_opt::decimal::IntError;
use speech_opt::duration::Duration;
use speech_opt::ffopt::{
    cut_audio2, first_reversed_piece, get_audio_pieces, join_audios_filter, silence_ranges,
};
use speech_opt::probe::{
    clock_fields, clock_overflows, get_duration_from_output, group_text, silence_fields,
    silence_from_groups, ClockError,
};
use speech_opt::timestamp::{parse_timestamp, timestamp_overflows, TimestampError};

#[test]
fn test_get_duration_from_output() {
    let output = "  Duration: 00:00:12.86, start: 0.046042, bitrate: 32 kb/s";
    let duration = get_duration_from_output(output).unwrap();
    assert_eq!("00:00:12.86", duration)
}

#[test]
fn test_parse_timestamp() {
    let timestamp = "00:00:4,960";
    let dur = parse_timestamp(timestamp).unwrap();
    assert_eq!(dur.as_millis(), 4 * 1000 + 960)
}

#[test]
fn parse_timestamp_full_fields() {
    let dur = parse_timestamp("01:02:03,004").unwrap();
    assert_eq!(dur.as_millis(), ((3600 + 2 * 60 + 3) * 1000 + 4) as u128);
    assert_eq!(dur.as_secs(), 3723);
    assert_eq!(dur.subsec_nanos(), 4_000_000);
}

#[test]
fn parse_timestamp_accepts_either_separator_and_plus_sign() {
    let dur = parse_timestamp("+1,0:0:7").unwrap();
    assert_eq!(dur.as_millis(), 3_600_007);
}

#[test]
fn parse_timestamp_wrong_field_count() {
    assert_eq!(parse_timestamp("00:00:04"), Err(TimestampError::Malformed));
    assert_eq!(parse_timestamp("00:00:04,000,1"), Err(TimestampError::Malformed));
    assert_eq!(parse_timestamp(""), Err(TimestampError::Malformed));
}

#[test]
fn parse_timestamp_invalid_number() {
    let invalid = |kind| Err(TimestampError::InvalidNumber(kind));
    assert_eq!(parse_timestamp("aa:00:00,000"), invalid(IntError::InvalidDigit));
    assert_eq!(parse_timestamp("00:00:,000"), invalid(IntError::Empty));
    assert_eq!(parse_timestamp("00:-1:00,000"), invalid(IntError::InvalidDigit));
    assert_eq!(parse_timestamp("00:+:00,000"), invalid(IntError::InvalidDigit));
    assert_eq!(parse_timestamp("00:00:00,18446744073709551616"), invalid(IntError::PosOverflow));
    assert_eq!(parse_timestamp("00:00:00,99999999999999999999x"), invalid(IntError::PosOverflow));
    assert_eq!(parse_timestamp("00:00:00,1x99999999999999999999"), invalid(IntError::InvalidDigit));
}

#[test]
fn timestamp_overflow_is_detected() {
    assert!(timestamp_overflows("18446744073709551615:00:00,000"));
    assert!(timestamp_overflows("0:0:18446744073709551615,0"));
    assert!(!timestamp_overflows("00:00:04,960"));
    assert!(!timestamp_overflows("bad"));
}

#[test]
fn duration_arithmetic() {
    let a = Duration::from_millis(5_500);
    let b = Duration::from_millis(2_750);
    assert_eq!(a.checked_sub(&b).unwrap().as_millis(), 2_750);
    assert_eq!(b.checked_sub(&a), None);
    assert_eq!(a.checked_add(&b).unwrap().as_millis(), 8_250);
    let big = Duration::new(u64::MAX, 999_999_999);
    assert_eq!(big.checked_add(&Duration::new(0, 1)), None);
    let carried = Duration::new(1, 2_500_000_000);
    assert_eq!(carried.as_secs(), 3);
    assert_eq!(carried.subsec_nanos(), 500_000_000);
    assert_eq!(Duration::zero().as_millis(), 0);
}

#[test]
fn audio_pieces_lie_between_silences() {
    let silences = vec![
        (Duration::from_millis(3_387), Duration::from_millis(5_493)),
        (Duration::from_millis(8_471), Duration::from_millis(10_584)),
    ];
    let end = Duration::from_millis(12_860);
    let pieces = get_audio_pieces(&silences, end);
    assert_eq!(
        pieces,
        vec![
            (Duration::zero(), Duration::from_millis(3_387)),
            (Duration::from_millis(5_493), Duration::from_millis(8_471)),
            (Duration::from_millis(10_584), end),
        ]
    );
}

#[test]
fn audio_without_silence_is_one_piece() {
    let end = Duration::from_millis(1_000);
    assert_eq!(get_audio_pieces(&[], end), vec![(Duration::zero(), end)]);
}

#[test]
fn cut_plan_names_and_lengths() {
    let pieces = vec![
        (Duration::from_millis(0), Duration::from_millis(3_387)),
        (Duration::from_millis(5_493), Duration::from_millis(8_471)),
    ];
    let cuts = cut_audio2("sample.mp3", &pieces);
    assert_eq!(cuts.len(), 2);
    assert_eq!(cuts[0].0, Duration::from_millis(0));
    assert_eq!(cuts[0].1, Duration::from_millis(3_387));
    assert_eq!(cuts[0].2, "sample.mp3#0.mp3");
    assert_eq!(cuts[1].0, Duration::from_millis(5_493));
    assert_eq!(cuts[1].1, Duration::from_millis(2_978));
    assert_eq!(cuts[1].2, "sample.mp3#1.mp3");
}

#[test]
fn cut_plan_names_are_distinct() {
    let pieces: Vec<(Duration, Duration)> =
        (0..12).map(|i| (Duration::from_millis(i), Duration::from_millis(i + 1))).collect();
    let cuts = cut_audio2("a", &pieces);
    assert_eq!(cuts[10].2, "a#10.mp3");
    assert_eq!(cuts[11].2, "a#11.mp3");
    for i in 0..cuts.len() {
        for j in 0..i {
            assert_ne!(cuts[i].2, cuts[j].2);
        }
    }
}

#[test]
fn join_filter_delays_and_mixes() {
    let starts = vec![Duration::from_millis(0), Duration::from_millis(184_000), Duration::new(360, 999_999)];
    assert_eq!(
        join_audios_filter(&starts),
        "[0]adelay=0|0[a0];[1]adelay=184000|184000[a1];[2]adelay=360000|360000[a2];[a0][a1][a2]amix=3"
    );
    assert_eq!(join_audios_filter(&[]), "amix=0");
}

#[test]
fn silence_report_lines() {
    let report = "size=N/A time=00:00:01.00 bitrate=N/A\r\
[silencedetect @ 0x55d0] silence_start: 3.38717\r\n\
[silencedetect @ 0x55d0] silence_end: 5.49354 | silence_duration: 2.10637\r\n\
[silencedetect @ 0x55d0] silence_start: 8.47175\n\
[silencedetect @ 0x55d0] silence_end: 10.584 | silence_duration: 2.11225\n";
    let found = silence_fields(report);
    assert_eq!(
        found,
        vec![
            ("5.49354".to_string(), "2.10637".to_string()),
            ("10.584".to_string(), "2.11225".to_string()),
        ]
    );
    assert!(silence_fields("").is_empty());
    assert!(silence_fields("no silence here\n").is_empty());
}

#[test]
fn clock_fields_of_reported_length() {
    let f = clock_fields("00:00:12.86").unwrap();
    assert_eq!(f.terms, vec![0, 0]);
    assert_eq!(f.seconds, "12.86");
    let f = clock_fields("2:03:04.5").unwrap();
    assert_eq!(f.terms, vec![7200, 180]);
    assert_eq!(f.seconds, "04.5");
    let f = clock_fields("1:02:03:04").unwrap();
    assert_eq!(f.terms, vec![3600, 7200, 180]);
    let f = clock_fields("7.25").unwrap();
    assert!(f.terms.is_empty());
    assert_eq!(f.seconds, "7.25");
}

#[test]
fn clock_fields_refusals() {
    assert_eq!(clock_fields("1:2:3:4:5").err(), Some(ClockError::WrongFieldCount));
    assert_eq!(clock_fields("x:00:12.86").err(), Some(ClockError::InvalidNumber(IntError::InvalidDigit)));
    assert_eq!(clock_fields("00:1.5:12.86").err(), Some(ClockError::InvalidNumber(IntError::InvalidDigit)));
    assert_eq!(clock_fields(":00:12.86").err(), Some(ClockError::InvalidNumber(IntError::Empty)));
    assert!(clock_overflows("18446744073709551615:0:0"));
    assert!(!clock_overflows("00:00:12.86"));
}

#[test]
fn combine_picks_sources() {
    let audio = vec![
        (Duration::from_millis(0), Duration::from_millis(1_000)),
        (Duration::from_millis(2_000), Duration::from_millis(1_500)),
        (Duration::from_millis(5_000), Duration::from_millis(700)),
    ];
    let subs = vec![
        (Duration::from_millis(100), Duration::from_millis(900)),
        (Duration::from_millis(2_100), Duration::from_millis(1_200)),
    ];
    let t = combine_timings(&audio, &subs, ItemType::Audio, ItemType::Subtitle);
    assert_eq!(t, vec![(audio[0].0, subs[0].1), (audio[1].0, subs[1].1)]);
    let t = combine_timings(&audio, &subs, ItemType::Subtitle, ItemType::Audio);
    assert_eq!(t, vec![(subs[0].0, audio[0].1), (subs[1].0, audio[1].1)]);
}

#[test]
fn item_type_from_dialog_choice() {
    assert_eq!(ItemType::from(1), ItemType::Audio);
    assert_eq!(ItemType::from(0), ItemType::Subtitle);
    assert_eq!(ItemType::from(7), ItemType::Subtitle);
}

#[test]
fn tts_text_joins_text_column() {
    let rows = vec![
        vec!["00:00:00,000".to_string(), "00:00:01,000".to_string(), "hello".to_string()],
        vec!["short".to_string()],
        vec!["a".to_string(), "b".to_string(), "world".to_string(), "x".to_string()],
    ];
    assert_eq!(tts_text(&rows), "hello\nworld");
    assert_eq!(tts_text(&vec![]), "");
}

#[test]
fn silence_ranges_start_before_end() {
    let found = vec![
        (Duration::from_millis(5_493), Duration::from_millis(2_106)),
        (Duration::from_millis(10_584), Duration::from_millis(2_112)),
    ];
    assert_eq!(
        silence_ranges(&found),
        vec![
            (Duration::from_millis(3_387), Duration::from_millis(5_493)),
            (Duration::from_millis(8_472), Duration::from_millis(10_584)),
        ]
    );
}

#[test]
fn first_reversed_piece_finds_the_cut_off() {
    let ok = (Duration::from_millis(0), Duration::from_millis(10));
    let bad = (Duration::from_millis(20), Duration::from_millis(10));
    assert_eq!(first_reversed_piece(&[ok, ok]), 2);
    assert_eq!(first_reversed_piece(&[ok, bad, ok, bad]), 1);
    assert_eq!(first_reversed_piece(&[]), 0);
}

#[test]
fn subtitle_rows_to_timings() {
    let row = |a: &str, b: &str| vec![a.to_string(), b.to_string(), "text".to_string()];
    let rows = vec![row("00:00:01,000", "00:00:02,500"), row("00:00:03,000", "00:00:03,000")];
    assert_eq!(
        subtitle_timings(&rows),
        Ok(vec![
            (Duration::from_millis(1_000), Duration::from_millis(1_500)),
            (Duration::from_millis(3_000), Duration::from_millis(0)),
        ])
    );
    let short = vec![row("00:00:01,000", "00:00:02,500"), vec!["00:00:01,000".to_string()]];
    assert_eq!(subtitle_timings(&short), Err((1, RowProblem::MissingCell)));
    let reversed = vec![row("00:00:05,000", "00:00:02,500")];
    assert_eq!(subtitle_timings(&reversed), Err((0, RowProblem::EndBeforeStart)));
    let bad_end = vec![row("00:00:05,000", "00:00:xx,500")];
    assert_eq!(
        subtitle_timings(&bad_end),
        Err((0, RowProblem::Unreadable(TimestampError::InvalidNumber(IntError::InvalidDigit))))
    );
    let huge = vec![row("18446744073709551615:00:00,000", "x")];
    assert_eq!(subtitle_timings(&huge), Err((0, RowProblem::Overflow)));
}

#[test]
fn timing_spans_add_lengths() {
    let t = vec![(Duration::from_millis(1_000), Duration::from_millis(1_500))];
    assert_eq!(
        timing_spans(&t),
        Some(vec![(Duration::from_millis(1_000), Duration::from_millis(2_500))])
    );
    let huge = vec![(Duration::new(u64::MAX, 0), Duration::new(1, 0))];
    assert_eq!(timing_spans(&huge), None);
}

#[test]
fn srt_printed_timestamps_read_back() {
    for (text, ms) in [("00:00:00,000", 0u128), ("01:02:03,004", 3_723_004), ("99:59:59,999", 359_999_999)] {
        assert_eq!(parse_timestamp(text).unwrap().as_millis(), ms);
    }
}

#[test]
fn capture_groups_picked() {
    let groups = vec![Some("whole".to_string()), Some("5.49354".to_string()), Some("2.10637".to_string())];
    assert_eq!(group_text(&groups, 1), Some("5.49354".to_string()));
    assert_eq!(group_text(&groups, 3), None);
    assert_eq!(
        silence_from_groups(&groups),
        Some(("5.49354".to_string(), "2.10637".to_string()))
    );
    let partial = vec![Some("whole".to_string()), None, Some("2.10637".to_string())];
    assert_eq!(silence_from_groups(&partial), None);
    assert_eq!(silence_from_groups(&vec![]), None);
}
