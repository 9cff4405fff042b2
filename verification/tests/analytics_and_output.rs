use claude_sdk_verified::analytics::{
    cap_length, dataset_record, decimate, generated_record_fields, mixed_workload_uses_dashboard,
    sessions_for_volume, sort_times, time_range, MemoryTracker, OptimizedDataGenerator,
    StreamingDataProcessor,
};
use claude_sdk_verified::execution::{
    build_command_text, command_line, tally, AgentCounter, ExecutionContext, ParallelStats,
    RunnerConfig, RunnerStep, StreamFormat,
};
use claude_sdk_verified::formatter::{
    rate_style, Color, FormatterConfig, OutputFormatter, OutputStyle, ProgressIndicator,
};
use claude_sdk_verified::wrapping::wrap_text;
use claude_sdk_verified::text::{
    clip_bytes, decimal_string, first_line_of, join_strings, parse_bool, parse_u64, str_contains,
    take_chars, trim_str,
};
use claude_sdk_verified::time::Duration;
use claude_sdk_verified::timeseries::{
    align_to_bucket, bucket_grid, bucket_stats, BucketStats, group_by_bucket, series_cache_key, signed_string,
    SeriesSet, TimeSeriesConfig, TimeSeriesType,
};
use claude_sdk_verified::series_cache::{is_fresh, survives_cleanup, SeriesCache, CACHE_CLEANUP_THRESHOLD};

#[test]
fn test_output_styles() {
    assert_eq!(OutputStyle::Success.symbol(), "✓");
    assert_eq!(OutputStyle::Error.symbol(), "✗");
    assert_eq!(OutputStyle::Warning.symbol(), "⚠");
    assert_eq!(OutputStyle::Success.color(), Color::Green);
    assert_eq!(OutputStyle::Error.color(), Color::Red);
}

#[test]
fn test_progress_indicator() {
    let mut progress = ProgressIndicator::new(10, "Testing".to_string());

    assert_eq!(progress.current(), 0);
    assert!(!progress.is_complete());

    progress.update(5);
    assert_eq!(progress.current(), 5);

    progress.update(10);
    assert!(progress.is_complete());
    assert_eq!(progress.label(), "Testing");
    assert_eq!(progress.total(), 10);
}

#[test]
fn progress_increments_stop_at_the_total() {
    let mut progress = ProgressIndicator::new(2, "x".to_string());
    progress.increment();
    progress.increment();
    progress.increment();
    assert_eq!(progress.current(), 2);
    assert_eq!(progress.width(), 50);
}

#[test]
fn success_rate_styles() {
    assert_eq!(rate_style(95), OutputStyle::Success);
    assert_eq!(rate_style(90), OutputStyle::Success);
    assert_eq!(rate_style(80), OutputStyle::Warning);
    assert_eq!(rate_style(69), OutputStyle::Error);
}

#[test]
fn test_formatter_defaults() {
    let config = FormatterConfig::default();
    assert!(config.use_colors);
    assert!(config.show_timestamps);
    assert_eq!(config.max_width, Some(120));
}

#[test]
fn test_command_text_building() {
    let context = ExecutionContext {
        session_id: None,
        command_name: "test".to_string(),
        args: vec!["arg1".to_string(), "arg2".to_string()],
        parallel: false,
        agent_count: 1,
    };
    assert_eq!(build_command_text(&context), "test arg1 arg2");
    assert_eq!(command_line("solo", &vec![]), "solo");
}

#[test]
fn test_runner_creation() {
    let config = RunnerConfig::default();
    assert_eq!(config.timeout, Duration { millis: 30_000 });
    assert!(config.streaming);
    assert_eq!(config.stream_format, StreamFormat::StreamJson);
}

#[test]
fn runner_retries_until_the_limit() {
    let config = RunnerConfig::default();
    assert_eq!(
        config.after_failed_attempt(0, true),
        RunnerStep::Retry { attempt: 1, delay: Duration { millis: 1000 } }
    );
    assert_eq!(config.after_failed_attempt(3, true), RunnerStep::Stop);
    assert_eq!(config.after_failed_attempt(1, false), RunnerStep::Stop);
}

#[test]
fn test_stats_tracking() {
    let mut stats = ParallelStats::new();
    stats.batch_started(3);
    stats.execution_started();
    stats.execution_started();
    stats.execution_finished();
    stats.execution_finished();
    stats.batch_finished(2, 1);
    let (ok, failed) = tally(&vec![true, false, true]);
    assert_eq!((ok, failed), (2, 1));
}

#[test]
fn agent_ids_count_up() {
    let mut counter = AgentCounter::new();
    assert_eq!(counter.next_agent(), 0);
    assert_eq!(counter.next_agent(), 1);
}

#[test]
fn batches_cover_the_records() {
    let generator = OptimizedDataGenerator::new(1000);
    let ranges = generator.batch_ranges(2500);
    assert_eq!(ranges, vec![(0, 1000), (1000, 2000), (2000, 2500)]);
    assert!(generator.batch_ranges(0).is_empty());
}

#[test]
fn generated_records_follow_the_pattern() {
    let (name, input, output, duration) = generated_record_fields(1234);
    assert_eq!(name, "cmd_1234");
    assert_eq!(input, 100 + 234);
    assert_eq!(output, 200 + 1234);
    assert_eq!(duration, 1000 + 1234);
}

#[test]
fn load_test_scenarios() {
    assert_eq!(sessions_for_volume(50), 1);
    assert_eq!(sessions_for_volume(1000), 10);
    assert!(mixed_workload_uses_dashboard(3));
    assert!(!mixed_workload_uses_dashboard(4));
}

#[test]
fn response_times_sorted() {
    let sorted = sort_times(vec![30, 10, 20, 10]);
    assert_eq!(sorted, vec![10, 10, 20, 30]);
    assert_eq!(time_range(&sorted), (10, 30));
}

#[test]
fn test_streaming_processing() {
    let mut processor: StreamingDataProcessor<&str> = StreamingDataProcessor::new(3);
    assert!(processor.add_item("cmd1", 100).is_none());
    assert!(processor.add_item("cmd2", 100).is_none());
    let batch = processor.add_item("cmd3", 100);
    assert_eq!(batch, Some(vec!["cmd1", "cmd2", "cmd3"]));
    assert!(processor.add_item("cmd4", 50).is_none());
    assert_eq!(processor.get_stats(), (3, 50, 1));
    assert_eq!(processor.flush(), vec!["cmd4"]);
    assert_eq!(processor.get_stats(), (4, 0, 0));
}

#[test]
fn test_memory_tracking() {
    let mut tracker = MemoryTracker::new();
    tracker.record_allocation(1024);
    tracker.record_allocation(2048);
    tracker.record_deallocation(512);
    let (allocations, deallocations, current, peak) = tracker.counts();
    assert_eq!(allocations, 2);
    assert_eq!(deallocations, 1);
    assert_eq!(current, 2560);
    assert_eq!(peak, 3072);
    assert!(peak >= current);
}

#[test]
fn long_series_are_decimated() {
    let data: Vec<u32> = (0..10).collect();
    assert_eq!(decimate(&data, 20), data);
    assert_eq!(decimate(&data, 4), vec![0, 2, 4, 6, 8]);
    let mut v = vec![1, 2, 3, 4];
    cap_length(&mut v, 2);
    assert_eq!(v, vec![1, 2]);
}

#[test]
fn timestamps_align_to_buckets() {
    assert_eq!(align_to_bucket(3 * 3600 + 1800 + 59, 60), 3 * 3600);
    assert_eq!(align_to_bucket(3 * 3600 + 1800, 15), 3 * 3600 + 1800);
    // The end is not included.
    assert_eq!(bucket_grid(0, 7200, 60), vec![0, 3600]);
    assert_eq!(bucket_grid(0, 7201, 60), vec![0, 3600, 7200]);
    let (grid, members) = group_by_bucket(&vec![10, 3700, 3800, 9000], 0, 7201, 60);
    assert_eq!(grid, vec![0, 3600, 7200]);
    assert_eq!(members, vec![vec![0], vec![1, 2], vec![3]]);
}

#[test]
fn series_cache_freshness() {
    const S: i64 = 1_000_000_000;
    // Age is counted in whole seconds, rounded towards zero.
    assert!(is_fresh(1000 * S, 1299 * S + S - 1, 300));
    assert!(!is_fresh(1000 * S, 1300 * S, 300));
    assert!(!is_fresh(1000 * S, 1000 * S, 0));
    assert!(is_fresh(1000 * S, 1000 * S - S + 1, 1));
    // A time to live past i64::MAX reads as a negative number.
    assert!(!is_fresh(0, 0, u64::MAX));
    assert!(survives_cleanup(1000 * S, 1599 * S, 300));
    assert!(!survives_cleanup(1000 * S, 1600 * S, 300));
}

#[test]
fn series_cache_serves_fresh_series_only() {
    const S: i64 = 1_000_000_000;
    let mut cache: SeriesCache<u32> = SeriesCache::new(60);
    cache.store_at("a".to_string(), 1, 10 * S);
    cache.store_at("b".to_string(), 2, 20 * S);
    assert_eq!(cache.len(), 2);
    assert_eq!(cache.get_at("a", 69 * S), Some(1));
    assert_eq!(cache.get_at("a", 70 * S), None);
    assert_eq!(cache.get_at("c", 20 * S), None);
    // Storing again under a key replaces the series and its time.
    cache.store_at("a".to_string(), 3, 100 * S);
    assert_eq!(cache.len(), 2);
    assert_eq!(cache.get_at("a", 120 * S), Some(3));
    assert_eq!(cache.get_at("b", 120 * S), None);
    cache.store("now".to_string(), 7);
    assert_eq!(cache.get("now"), Some(7));
}

#[test]
fn series_cache_cleans_up_past_threshold() {
    const S: i64 = 1_000_000_000;
    let mut cache: SeriesCache<usize> = SeriesCache::new(10);
    // Old series: made at 0 s.
    for i in 0..50 {
        cache.store_at(format!("old{}", i), i, 0);
    }
    // Recent series: made at 100 s.
    for i in 0..CACHE_CLEANUP_THRESHOLD - 50 {
        cache.store_at(format!("new{}", i), i, 100 * S);
    }
    assert_eq!(cache.len(), CACHE_CLEANUP_THRESHOLD);
    // One more passes the threshold: at 110 s everything not made after
    // 90 s goes.
    cache.store_at("last".to_string(), 0, 110 * S);
    assert_eq!(cache.len(), CACHE_CLEANUP_THRESHOLD - 50 + 1);
    assert_eq!(cache.get_at("old0", 0), None);
    assert_eq!(cache.get_at("new0", 105 * S), Some(0));
}

#[test]
fn series_cache_key_lists_every_part() {
    let types = vec![TimeSeriesType::Cost, TimeSeriesType::SuccessRate];
    assert_eq!(series_cache_key(-60, 3600, &types, 60), "-60:3600:CostSuccessRate:60");
    assert_eq!(signed_string(i64::MIN), "-9223372036854775808");
    assert_eq!(TimeSeriesConfig::default().bucket_size_minutes, 60);
}

#[test]
fn text_helpers() {
    assert_eq!(decimal_string(0), "0");
    assert_eq!(decimal_string(907), "907");
    assert_eq!(trim_str("  a b \n"), "a b");
    assert!(str_contains("hello world", "o w"));
    assert!(!str_contains("hello", "world"));
    assert_eq!(take_chars("héllo", 2), "hé");
    assert_eq!(first_line_of("one\r\ntwo"), Some("one".to_string()));
    assert_eq!(first_line_of(""), None);
    assert_eq!(join_strings(&vec!["a".to_string(), "b".to_string()], ", "), "a, b");
    assert_eq!(parse_u64("18446744073709551615"), Some(u64::MAX));
    assert_eq!(parse_u64("18446744073709551616"), None);
    assert_eq!(parse_u64("+7"), Some(7));
    assert_eq!(parse_u64(""), None);
    assert_eq!(parse_bool("true"), Some(true));
    assert_eq!(parse_bool("yes"), None);
    assert_eq!(clip_bytes("héllo", 3), "hé...");
    assert_eq!(clip_bytes("hi", 5), "hi");
}

#[test]
fn test_formatter_creation() {
    let formatter = OutputFormatter::new();
    assert!(formatter.config().use_colors);
    assert!(formatter.config().show_timestamps);
}

#[test]
fn test_text_wrapping() {
    let formatter = OutputFormatter::new();
    let long_text = "This is a very long line that should be wrapped to fit within the specified width limit";
    let wrapped = formatter.wrap_text(long_text, 20);

    for line in wrapped.lines() {
        assert!(line.len() <= 20);
    }
}

#[test]
fn wrapping_packs_words_greedily() {
    assert_eq!(wrap_text("aa bb cc dd", 5), "aa bb\ncc dd");
    assert_eq!(wrap_text("short\nline two is long", 8), "short\nline two\nis long");
    assert_eq!(wrap_text("  spaced   out  words ", 6), "spaced\nout\nwords");
    assert_eq!(wrap_text("abcdefghij k", 4), "abcdefghij\nk");
    assert_eq!(wrap_text("keep\r\nas is", 0), "keep\r\nas is");
    assert_eq!(wrap_text("a\r\nb", 5), "a\nb");
}

#[test]
fn agents_keep_their_colours() {
    let mut formatter = OutputFormatter::new();
    assert_eq!(formatter.agent_color(1, Color::Cyan), Color::Cyan);
    assert_eq!(formatter.agent_color(1, Color::Red), Color::Cyan);
    formatter.reset_agent_colors();
    assert_eq!(formatter.agent_color(1, Color::Red), Color::Red);
    let progress = formatter.create_progress(4, "Running");
    assert_eq!(progress.total(), 4);
    assert_eq!(progress.label(), "Running");
}

#[test]
fn bucket_figures_are_exact() {
    let durations = vec![100, 300, 200, 50];
    let success = vec![true, false, true, true];
    let stats = bucket_stats(&durations, &success, &vec![0, 1, 2]);
    assert_eq!(
        stats,
        BucketStats {
            count: 3,
            successful: 2,
            total_duration_ms: 600,
            min_duration_ms: Some(100),
            max_duration_ms: Some(300),
        }
    );
    let empty = bucket_stats(&durations, &success, &vec![]);
    assert_eq!(empty.count, 0);
    assert_eq!(empty.min_duration_ms, None);
    assert_eq!(empty.max_duration_ms, None);
}

#[test]
fn plain_messages_are_prefixed_and_wrapped() {
    let config = FormatterConfig {
        use_colors: false,
        show_timestamps: true,
        show_agent_ids: false,
        max_width: Some(20),
        indent_level: 1,
        show_costs: false,
    };
    let formatter = OutputFormatter::with_config(config);
    // The prefix "  [12:00] ✓ " takes 14 bytes, leaving 6 for the text.
    assert_eq!(
        formatter.plain_message("12:00", "all good here", OutputStyle::Success),
        "  [12:00] ✓ all\ngood\nhere"
    );
    let bare = OutputFormatter::with_config(FormatterConfig {
        show_timestamps: false,
        max_width: None,
        indent_level: 0,
        ..config
    });
    assert_eq!(bare.plain_message("x", "text", OutputStyle::Plain), "text");
}

#[test]
fn agent_output_marks_each_line() {
    let config = FormatterConfig {
        use_colors: false,
        show_timestamps: false,
        show_agent_ids: true,
        max_width: None,
        indent_level: 0,
        show_costs: false,
    };
    let mut formatter = OutputFormatter::with_config(config);
    assert_eq!(
        formatter.plain_agent_output("t", "first\r\nsecond\n", 3, Color::Blue),
        "[Agent 3] first\n[Agent 3] second"
    );
    assert_eq!(formatter.agent_color(3, Color::Red), Color::Blue);
}

#[test]
fn test_message_formatting() {
    let formatter = OutputFormatter::new();
    let message = formatter.plain_message("10:00:00.000", "Test message", OutputStyle::Success);

    // Should contain the success symbol
    assert!(message.contains("✓"));
    assert!(message.contains("Test message"));
}

#[test]
fn test_agent_output_formatting() {
    let mut formatter = OutputFormatter::new();
    let output = formatter.plain_agent_output("10:00:00.000", "Test output", 1, Color::Cyan);

    // Should contain agent identifier
    assert!(output.contains("Agent 1"));
}

#[test]
fn large_dataset_records_follow_the_pattern() {
    let r = dataset_record(40);
    assert_eq!(r.command_name, "command_40");
    assert_eq!(r.arg, "--arg0");
    assert_eq!(r.output, "Output for command 40");
    assert!(!r.success);
    assert_eq!((r.input_tokens, r.output_tokens, r.duration_ms, r.model_index), (140, 240, 1040, 1));
    assert!(dataset_record(41).success);
}

#[test]
fn series_outcomes_fill_slots_and_count() {
    let mut set: SeriesSet<Vec<u32>> = SeriesSet::new();
    assert!(set.record_outcome(TimeSeriesType::Cost, Ok::<_, String>(vec![1]), true).is_ok());
    // Side by side, a failure is skipped.
    assert!(set.record_outcome(TimeSeriesType::Commands, Err("down".to_string()), false).is_ok());
    assert_eq!(set.total_queries, 1);
    assert_eq!(set.cost, Some(vec![1]));
    assert_eq!(set.commands, None);
    // One after another, a failure stops the request.
    assert_eq!(
        set.record_outcome(TimeSeriesType::SuccessRate, Err("down".to_string()), true),
        Err("down".to_string())
    );
    assert_eq!(set.total_queries, 1);
    set.record(TimeSeriesType::ResponseTime, vec![2, 3]);
    assert_eq!(set.response_time, Some(vec![2, 3]));
    assert_eq!(set.total_queries, 2);
}

#[test]
fn a_series_stays_served_through_other_stores_within_its_time_to_live() {
    const S: i64 = 1_000_000_000;
    let mut cache: SeriesCache<u32> = SeriesCache::new(10);
    cache.store_at("kept".to_string(), 7, 0);
    // Enough other series to trigger clean-ups, all stored within the time to live.
    for i in 0..CACHE_CLEANUP_THRESHOLD + 5 {
        cache.store_at(format!("other{}", i), 0, 9 * S);
    }
    assert_eq!(cache.get_at("kept", 10 * S - 1), Some(7));
    assert_eq!(cache.get_at("kept", 10 * S), None);
}

#[test]
fn wrapping_keeps_the_words_in_order() {
    let text = "the quick  brown fox jumps over the lazy dog";
    let wrapped = wrap_text(text, 10);
    let rejoined: Vec<&str> = wrapped.split('\n').flat_map(|l| l.split(' ')).collect();
    let words: Vec<&str> = text.split_whitespace().collect();
    assert_eq!(rejoined, words);
}
