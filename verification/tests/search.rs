use productive_numbers::config::{
    check_chunk_size, check_positive, validate_chunk_size, validate_positive, Args, ConfigError,
    MAX_CHUNK_SIZE, MIN_CHUNK_SIZE,
};
use productive_numbers::decimal::parse_u64;
use productive_numbers::failure::{recovery_for, Failure, Recovery};
use productive_numbers::productive::is_productive;
use productive_numbers::scheduler::{checkpoint_due, Phase, SearchRun, STATE_SAVE_INTERVAL_SECS};
use productive_numbers::sieve::init_sieve;
use productive_numbers::state::{default_version, SearchState};

fn args(start: u64, limit: u64, chunk_size: u64, fresh: bool) -> Args {
    Args {
        start,
        limit,
        state_file: String::from("state.json"),
        output_file: String::from("found.txt"),
        chunk_size,
        fresh,
        quiet: true,
        verbose: 0,
    }
}

fn record(last_checked: u64, limit: u64, found_count: u64, version: u32) -> SearchState {
    SearchState {
        last_checked,
        limit,
        found_count,
        timestamp: String::from("2024-01-01 00:00:00"),
        version,
    }
}

fn run_to_the_end(run: &mut SearchRun) -> Vec<u64> {
    let sieve = init_sieve();
    let mut found: Vec<u64> = Vec::new();
    while run.phase(false) == Phase::Scanning {
        found.extend(run.scan_next_chunk(&sieve));
    }
    found
}

#[test]
fn fresh_run_counts_the_same_in_chunks_as_in_one_piece() {
    let mut chunked = SearchRun::resume(&args(1, 100_000, 1_000, true), None);
    let mut whole = SearchRun::resume(&args(1, 100_000, 100_000, true), None);
    let found_chunked = run_to_the_end(&mut chunked);
    let found_whole = run_to_the_end(&mut whole);
    assert_eq!(chunked.found_count(), whole.found_count());
    assert_eq!(chunked.found_count(), 103);
    assert_eq!(found_chunked, found_whole);
    assert_eq!(&found_whole[found_whole.len() - 5..], &[76756, 79978, 80362, 80932, 96052]);
    assert_eq!(chunked.position(), 100_000);
    assert_eq!(whole.position(), 100_000);
    assert_eq!(chunked.last_found(), 96052);
    assert_eq!(chunked.processed(), 99_999);
}

#[test]
fn stopping_and_resuming_finds_what_an_unbroken_run_finds() {
    let sieve = init_sieve();
    let mut unbroken = SearchRun::resume(&args(1, 20_000, 1_000, true), None);
    let expected = run_to_the_end(&mut unbroken);

    let mut first = SearchRun::resume(&args(1, 20_000, 1_000, false), None);
    let mut found: Vec<u64> = Vec::new();
    for _ in 0..7 {
        found.extend(first.scan_next_chunk(&sieve));
    }
    assert_eq!(first.phase(true), Phase::Draining);
    let kept = first.finish();
    assert_eq!(first.phase(true), Phase::Done);
    assert_eq!(kept.last_checked, 7_001);
    assert_eq!(kept.found_count, found.len() as u64);

    let mut second = SearchRun::resume(&args(1, 20_000, 1_000, false), Some(kept));
    assert_eq!(second.position(), 7_001);
    assert_eq!(second.start_from(), 7_001);
    found.extend(run_to_the_end(&mut second));
    let last = second.finish();

    assert_eq!(found, expected);
    assert_eq!(last.found_count, unbroken.found_count());
    assert_eq!(last.last_checked, 20_000);
    let mut sorted = found.clone();
    sorted.dedup();
    assert_eq!(sorted.len(), found.len());
    let by_definition: Vec<u64> = (1..20_000).filter(|&n| is_productive(&sieve, n)).collect();
    assert_eq!(found, by_definition);
}

#[test]
fn chunks_end_at_the_limit() {
    let sieve = init_sieve();
    let mut run = SearchRun::resume(&args(1, 2_500, 1_000, true), None);
    assert_eq!(run.next_chunk(), (1, 1_001));
    let first = run.scan_next_chunk(&sieve);
    assert_eq!(first, vec![1, 2, 4, 6, 12, 16, 22, 28, 36, 52, 58, 66, 82, 106, 112, 136, 166, 178,
        256, 306, 336, 352, 448, 502, 508, 556, 562, 586, 616, 652, 658, 718, 982]);
    assert_eq!(run.found_count(), 33);
    assert_eq!(run.last_found(), 982);
    assert_eq!(run.next_chunk(), (1_001, 2_001));
    let second = run.scan_next_chunk(&sieve);
    assert_eq!(second, vec![1018, 1108, 1162, 1192, 1228, 1498, 1708]);
    assert_eq!(run.next_chunk(), (2_001, 2_500));
    run.scan_next_chunk(&sieve);
    assert_eq!(run.position(), 2_500);
    assert_eq!(run.next_chunk(), (2_500, 2_500));
    assert_eq!(run.phase(false), Phase::Draining);
    let nothing = run.scan_next_chunk(&sieve);
    assert!(nothing.is_empty());
    assert_eq!(run.position(), 2_500);
}

#[test]
fn chunk_near_the_end_of_64_bits_does_not_overflow() {
    let sieve = init_sieve();
    let mut run = SearchRun::resume(&args(u64::MAX - 10, u64::MAX, 100_000_000, true), None);
    assert_eq!(run.next_chunk(), (u64::MAX - 10, u64::MAX));
    let hits = run.scan_next_chunk(&sieve);
    assert!(hits.is_empty());
    assert_eq!(run.position(), u64::MAX);
    assert_eq!(run.phase(false), Phase::Draining);
}

#[test]
fn a_chunk_that_finds_nothing_keeps_the_last_hit() {
    let sieve = init_sieve();
    let kept = record(11_001, 14_000, 71, 1);
    let mut run = SearchRun::resume(&args(1, 14_000, 1_000, false), Some(kept));
    assert_eq!(run.last_found(), 0);
    let hits = run.scan_next_chunk(&sieve);
    assert_eq!(hits, vec![11482, 11578]);
    assert_eq!(run.last_found(), 11578);
    assert_eq!(run.found_count(), 73);
    assert_eq!(run.position(), 12_001);
    let nothing = run.scan_next_chunk(&sieve);
    assert!(nothing.is_empty());
    assert_eq!(run.last_found(), 11578);
    assert_eq!(run.found_count(), 73);
    assert_eq!(run.position(), 13_001);
    let rest = run.scan_next_chunk(&sieve);
    assert_eq!(rest, vec![13312]);
    assert_eq!(run.position(), 14_000);
    assert_eq!(run.processed(), 2_999);
}

#[test]
fn the_count_wraps_around_like_a_counter_of_64_bits() {
    let sieve = init_sieve();
    let kept = record(1, 1_001, u64::MAX - 2, 1);
    let mut run = SearchRun::resume(&args(1, 1_001, 1_000, false), Some(kept));
    assert_eq!(run.found_count(), u64::MAX - 2);
    let hits = run.scan_next_chunk(&sieve);
    assert_eq!(hits.len(), 33);
    assert_eq!(run.found_count(), 30);
}

#[test]
fn resume_takes_the_later_of_record_and_start() {
    let ahead = SearchRun::resume(&args(100, 10_000, 1_000, false), Some(record(5_000, 10_000, 7, 1)));
    assert_eq!(ahead.position(), 5_000);
    assert_eq!(ahead.found_count(), 7);
    let behind = SearchRun::resume(&args(6_000, 10_000, 1_000, false), Some(record(5_000, 10_000, 7, 1)));
    assert_eq!(behind.position(), 6_000);
    assert_eq!(behind.start_from(), 6_000);
    assert_eq!(behind.found_count(), 7);
}

#[test]
fn resume_adopts_the_new_limit() {
    let mut run = SearchRun::resume(&args(1, 20_000, 1_000, false), Some(record(5_000, 10_000, 7, 3)));
    assert_eq!(run.limit(), 20_000);
    assert_eq!(run.position(), 5_000);
    let kept = run.checkpoint();
    assert_eq!(kept.limit, 20_000);
    assert_eq!(kept.last_checked, 5_000);
    assert_eq!(kept.found_count, 7);
    assert_eq!(kept.version, 3);
}

#[test]
fn fresh_run_ignores_the_record() {
    let mut run = SearchRun::resume(&args(10, 10_000, 1_000, true), Some(record(5_000, 10_000, 7, 3)));
    assert_eq!(run.position(), 10);
    assert_eq!(run.found_count(), 0);
    assert_eq!(run.last_found(), 0);
    assert_eq!(run.checkpoint().version, 1);
}

#[test]
fn run_without_record_starts_at_the_start() {
    let run = SearchRun::resume(&args(10, 10_000, 1_000, false), None);
    assert_eq!(run.position(), 10);
    assert_eq!(run.start_from(), 10);
    assert_eq!(run.found_count(), 0);
    assert_eq!(run.processed(), 0);
    assert_eq!(run.phase(false), Phase::Scanning);
    assert_eq!(run.phase(true), Phase::Draining);
}

#[test]
fn run_that_is_already_complete_is_over_at_once() {
    let sieve = init_sieve();
    let mut run = SearchRun::resume(&args(1, 10_000, 1_000, false), Some(record(10_000, 10_000, 84, 1)));
    assert_eq!(run.phase(false), Phase::Done);
    assert_eq!(run.phase(true), Phase::Done);
    assert!(run.scan_next_chunk(&sieve).is_empty());
    assert_eq!(run.position(), 10_000);
    assert_eq!(run.found_count(), 84);
    let past = SearchRun::resume(&args(1, 10_000, 1_000, false), Some(record(50_000, 60_000, 99, 1)));
    assert_eq!(past.phase(false), Phase::Done);
    assert_eq!(past.position(), 50_000);
    assert_eq!(past.processed(), 0);
}

#[test]
fn cancellation_is_seen_between_chunks() {
    let sieve = init_sieve();
    let mut run = SearchRun::resume(&args(1, 10_000, 1_000, true), None);
    assert_eq!(run.phase(false), Phase::Scanning);
    run.scan_next_chunk(&sieve);
    assert_eq!(run.position(), 1_001);
    assert_eq!(run.phase(true), Phase::Draining);
    let kept = run.finish();
    assert_eq!(kept.last_checked, 1_001);
    assert_eq!(kept.found_count, 33);
    assert_eq!(run.phase(false), Phase::Done);
    assert!(run.scan_next_chunk(&sieve).is_empty());
    assert_eq!(run.position(), 1_001);
}

#[test]
fn checkpoint_records_the_progress_and_the_moment() {
    let sieve = init_sieve();
    let mut run = SearchRun::resume(&args(1, 10_000, 1_000, true), None);
    run.scan_next_chunk(&sieve);
    let kept = run.checkpoint();
    assert_eq!(kept.last_checked, 1_001);
    assert_eq!(kept.limit, 10_000);
    assert_eq!(kept.found_count, 33);
    assert_eq!(kept.version, 1);
    assert_eq!(kept.timestamp.len(), 19);
    assert_eq!(kept.timestamp.as_bytes()[4], b'-');
    assert_eq!(kept.timestamp.as_bytes()[10], b' ');
    assert_eq!(kept.timestamp.as_bytes()[13], b':');
    assert_eq!(run.position(), 1_001);
    assert_eq!(run.phase(false), Phase::Scanning);
}

#[test]
fn checkpoint_is_due_after_five_seconds() {
    assert_eq!(STATE_SAVE_INTERVAL_SECS, 5);
    assert!(!checkpoint_due(0));
    assert!(!checkpoint_due(4));
    assert!(checkpoint_due(5));
    assert!(checkpoint_due(6));
    assert!(checkpoint_due(u64::MAX));
}

#[test]
fn new_state_starts_with_nothing_found() {
    let state = SearchState::new(17, 1_000);
    assert_eq!(state.last_checked, 17);
    assert_eq!(state.limit, 1_000);
    assert_eq!(state.found_count, 0);
    assert_eq!(state.version, 1);
    assert!(!state.timestamp.is_empty());
}

#[test]
fn record_without_version_has_version_one() {
    assert_eq!(default_version(), 1);
}

#[test]
fn positive_values_are_read() {
    assert_eq!(validate_positive("42"), Ok(42));
    assert_eq!(validate_positive("1"), Ok(1));
    assert_eq!(validate_positive("18446744073709551615"), Ok(u64::MAX));
    assert_eq!(validate_positive("0"), Err(ConfigError::NotPositive));
    assert_eq!(validate_positive("abc"), Err(ConfigError::NotANumber));
    assert_eq!(validate_positive(""), Err(ConfigError::NotANumber));
    assert_eq!(validate_positive("-5"), Err(ConfigError::NotANumber));
    assert_eq!(validate_positive("18446744073709551616"), Err(ConfigError::NotANumber));
    assert_eq!(check_positive(None), Err(ConfigError::NotANumber));
    assert_eq!(check_positive(Some(0)), Err(ConfigError::NotPositive));
    assert_eq!(check_positive(Some(9)), Ok(9));
}

#[test]
fn chunk_sizes_are_held_to_their_range() {
    assert_eq!(MIN_CHUNK_SIZE, 1_000);
    assert_eq!(MAX_CHUNK_SIZE, 100_000_000);
    assert_eq!(validate_chunk_size("500000"), Ok(500_000));
    assert_eq!(validate_chunk_size("1000"), Ok(1_000));
    assert_eq!(validate_chunk_size("100000000"), Ok(100_000_000));
    assert_eq!(validate_chunk_size("999"), Err(ConfigError::ChunkTooSmall));
    assert_eq!(validate_chunk_size("0"), Err(ConfigError::ChunkTooSmall));
    assert_eq!(validate_chunk_size("100000001"), Err(ConfigError::ChunkTooLarge));
    assert_eq!(validate_chunk_size("ten"), Err(ConfigError::NotANumber));
    assert_eq!(check_chunk_size(None), Err(ConfigError::NotANumber));
    assert_eq!(check_chunk_size(Some(999)), Err(ConfigError::ChunkTooSmall));
    assert_eq!(check_chunk_size(Some(100_000_001)), Err(ConfigError::ChunkTooLarge));
    assert_eq!(check_chunk_size(Some(1_000)), Ok(1_000));
}

#[test]
fn start_has_to_be_below_the_limit() {
    assert_eq!(args(1, 2, 1_000, false).validate(), Ok(()));
    assert_eq!(args(5, 5, 1_000, false).validate(), Err(ConfigError::StartNotBelowLimit));
    assert_eq!(args(6, 5, 1_000, false).validate(), Err(ConfigError::StartNotBelowLimit));
}

#[test]
fn each_failure_has_its_recovery() {
    assert_eq!(
        recovery_for(Failure::Configuration(ConfigError::StartNotBelowLimit)),
        Recovery::Refuse
    );
    assert_eq!(recovery_for(Failure::Configuration(ConfigError::NotANumber)), Recovery::Refuse);
    assert_eq!(recovery_for(Failure::CorruptCheckpoint), Recovery::StartFresh);
    assert_eq!(recovery_for(Failure::Autosave), Recovery::GoOn);
    assert_eq!(recovery_for(Failure::FinalSave), Recovery::Abort);
    assert_eq!(recovery_for(Failure::ResultWrite), Recovery::Abort);
}

#[test]
fn numbers_are_read_from_their_digits() {
    assert_eq!(parse_u64("0"), Some(0));
    assert_eq!(parse_u64("7"), Some(7));
    assert_eq!(parse_u64("42"), Some(42));
    assert_eq!(parse_u64("+42"), Some(42));
    assert_eq!(parse_u64("007"), Some(7));
    assert_eq!(parse_u64("+0"), Some(0));
    assert_eq!(parse_u64("1000000000"), Some(1_000_000_000));
    assert_eq!(parse_u64("18446744073709551615"), Some(u64::MAX));
    assert_eq!(parse_u64("00018446744073709551615"), Some(u64::MAX));
}

#[test]
fn what_is_no_number_is_not_read() {
    assert_eq!(parse_u64(""), None);
    assert_eq!(parse_u64("+"), None);
    assert_eq!(parse_u64("-"), None);
    assert_eq!(parse_u64("-1"), None);
    assert_eq!(parse_u64("++1"), None);
    assert_eq!(parse_u64("1+"), None);
    assert_eq!(parse_u64(" 1"), None);
    assert_eq!(parse_u64("1 "), None);
    assert_eq!(parse_u64("1_000"), None);
    assert_eq!(parse_u64("0x10"), None);
    assert_eq!(parse_u64("1.0"), None);
    assert_eq!(parse_u64("1e3"), None);
    assert_eq!(parse_u64("١٢٣"), None);
    assert_eq!(parse_u64("12é"), None);
    assert_eq!(parse_u64("é12"), None);
    assert_eq!(parse_u64("18446744073709551616"), None);
    assert_eq!(parse_u64("99999999999999999999"), None);
    assert_eq!(parse_u64("184467440737095516150"), None);
    assert_eq!(parse_u64("99999999999999999999x"), None);
}

#[test]
fn numbers_are_read_as_the_standard_library_reads_them() {
    let pieces = ["", "+", "-", "0", "1", "9", "00", "42", "18446744073709551615", "18446744073709551616",
        "x", " ", "_", "é", "٣", "/", ":", "a", "\u{0}", "4294967296"];
    for a in pieces {
        for b in pieces {
            for c in pieces {
                let text = format!("{}{}{}", a, b, c);
                assert_eq!(parse_u64(&text), text.parse::<u64>().ok(), "disagreement on {:?}", text);
            }
        }
    }
}
