use uscrn_ingest::config::{LocationFilter, SchedulerConfig, SourceConfig, YearsConfig};
use uscrn_ingest::db::models::InsertResult;
use uscrn_ingest::error::{AppError, HttpFailure};
use uscrn_ingest::fetcher::{
    files_from_links, is_retryable, next_retry_delay, parse_filename, years_from_links,
    years_in_listing, files_in_listing,
};
use uscrn_ingest::scheduler::{
    completed_record, next_step, plan_year, prepare_file, request_delay, FileAction, RunAction,
    RunEvent, RunPhase,
};

const LINE_1: &str = "53104 20240115 1400 20240115 0600 3   -81.74    36.53  -9999.0     4.1     4.9     3.4     0.0    45.5 0    58.6 0    35.9 0 C     1.1 0     2.1 0    -0.5 0    81.9 0   -9999.0   -9999.0   -9999.0   -9999.0   -9999.0   -9999.0   -9999.0   -9999.0   -9999.0   -9999.0";
const LINE_2: &str = "53104 20240115 1500 20240115 0700 3   -81.74    36.53  -9999.0     4.5     5.2     4.0     0.0    52.3 0    65.4 0    42.1 0 C     1.8 0     2.5 0    -0.2 0    78.5 0   -9999.0   -9999.0   -9999.0   -9999.0   -9999.0   -9999.0   -9999.0   -9999.0   -9999.0   -9999.0";

fn http(timeout: bool, connect: bool, status: Option<u16>) -> AppError {
    AppError::Http(HttpFailure { message: "x".to_string(), timeout, connect, status })
}

#[test]
fn current_year_files_are_reprocessed_past_ones_skipped() {
    let f = parse_filename("CRNH0203-2024-CA_Bodega_6_WSW.txt", 2024, "https://h").unwrap();
    let g = parse_filename("CRNH0203-2024-TX_Austin_33_NW.txt", 2024, "https://h").unwrap();
    let files = vec![f, g];
    let recorded = vec!["CRNH0203-2024-CA_Bodega_6_WSW.txt".to_string()];
    assert_eq!(plan_year(2024, 2024, &files, &recorded), vec![FileAction::Reprocess, FileAction::Process]);
    assert_eq!(plan_year(2024, 2026, &files, &recorded), vec![FileAction::Skip, FileAction::Process]);
}

#[test]
fn retry_only_transient_failures_with_backoff() {
    assert!(is_retryable(&http(true, false, None)));
    assert!(is_retryable(&http(false, true, None)));
    assert!(is_retryable(&http(false, false, Some(503))));
    assert!(!is_retryable(&http(false, false, Some(404))));
    assert!(!is_retryable(&AppError::Io("disk".to_string())));
    assert!(!is_retryable(&AppError::InvalidData("host".to_string())));
    let e = http(false, false, Some(500));
    assert_eq!(next_retry_delay(1, 3, &e), Some(1));
    assert_eq!(next_retry_delay(2, 3, &e), Some(2));
    assert_eq!(next_retry_delay(3, 3, &e), Some(4));
    assert_eq!(next_retry_delay(4, 3, &e), None);
    assert_eq!(next_retry_delay(1, 3, &http(false, false, Some(400))), None);
}

#[test]
fn listing_years_are_filtered_and_sorted() {
    let links = vec!["2024/".to_string(), "../".to_string(), "1999/".to_string(), "2001".to_string(), "2101/".to_string(), "2003//".to_string()];
    assert_eq!(years_from_links(&links), vec![2001, 2003, 2024]);
    let html = "<html><body><a href=\"2020/\">2020</a><a href=\"2002/\">2002</a><a>none</a></body></html>";
    assert_eq!(years_in_listing(html).unwrap(), vec![2002, 2020]);
}

#[test]
fn listing_files_are_filtered() {
    let filter = LocationFilter { states: vec!["CA".to_string()], stations: vec![], patterns: vec![] };
    let links = vec![
        "CRNH0203-2024-CA_Bodega_6_WSW.txt".to_string(),
        "CRNH0203-2024-TX_Austin_33_NW.txt".to_string(),
        "README.txt".to_string(),
        "CRNH0203-2024-CA_Bodega_6_WSW.csv".to_string(),
    ];
    let files = files_from_links(&links, 2024, "https://h", &filter);
    assert_eq!(files.len(), 1);
    assert_eq!(files[0].url, "https://h/2024/CRNH0203-2024-CA_Bodega_6_WSW.txt");
    let html = "<a href=\"CRNH0203-2024-CA_Bodega_6_WSW.txt\">x</a><a href=\"CRNH0203-2024-FL_X_1_N.txt\">y</a>";
    let files = files_in_listing(html, 2024, "https://h", &filter).unwrap();
    assert_eq!(files.len(), 1);
    assert_eq!(files[0].station_name, "Bodega_6_WSW");
}

#[test]
fn prepared_file_keeps_admitted_stations() {
    let info = parse_filename("CRNH0203-2024-NC_Test_1_N.txt", 2024, "https://h").unwrap();
    let content = format!("{}\n{}", LINE_1, LINE_2);
    let p = prepare_file(&content, &info, &LocationFilter::default()).unwrap();
    assert_eq!(p.observations.len(), 2);
    assert_eq!(p.stations.len(), 1);
    assert_eq!(p.stations[0].wbanno, 53104);
    assert_eq!(p.stations[0].name.as_deref(), Some("Test_1_N"));
    assert_eq!(p.stations[0].state, "NC");
    assert_eq!(p.record.processing_status, "processing");
    assert_eq!(p.record.rows_processed, 2);

    let other = LocationFilter { states: vec![], stations: vec![1], patterns: vec![] };
    let p = prepare_file(&content, &info, &other).unwrap();
    assert_eq!(p.observations.len(), 0);
    assert_eq!(p.stations.len(), 0);
    assert_eq!(p.record.processing_status, "failed");
    assert_eq!(p.record.rows_processed, 0);

    let done = completed_record(&info, 2, &InsertResult::from_counts(0, 2), 0);
    assert_eq!(done.processing_status, "completed");
    assert_eq!(done.observations_inserted, 2);
    assert_eq!(done.observations_updated, 0);
    assert_eq!(done.file_name, "CRNH0203-2024-NC_Test_1_N.txt");
}

#[test]
fn run_states_follow_delays_ticks_and_shutdown() {
    let cfg = SchedulerConfig { interval_minutes: 60, initial_delay_seconds: 10 };
    assert_eq!(next_step(&cfg, RunPhase::Idle, RunEvent::Started), (RunPhase::InitialDelay, RunAction::Sleep { seconds: 10 }));
    assert_eq!(next_step(&cfg, RunPhase::InitialDelay, RunEvent::Shutdown), (RunPhase::Stopped, RunAction::Stop));
    assert_eq!(next_step(&cfg, RunPhase::InitialDelay, RunEvent::DelayElapsed), (RunPhase::Cycle { stop_requested: false }, RunAction::RunCycle));
    assert_eq!(next_step(&cfg, RunPhase::Cycle { stop_requested: false }, RunEvent::CycleFinished), (RunPhase::Waiting, RunAction::WaitForTick { seconds: 3600 }));
    assert_eq!(next_step(&cfg, RunPhase::Cycle { stop_requested: false }, RunEvent::Shutdown), (RunPhase::Cycle { stop_requested: true }, RunAction::Continue));
    assert_eq!(next_step(&cfg, RunPhase::Cycle { stop_requested: true }, RunEvent::CycleFinished), (RunPhase::Stopped, RunAction::Stop));
    assert_eq!(next_step(&cfg, RunPhase::Waiting, RunEvent::Tick), (RunPhase::Cycle { stop_requested: false }, RunAction::RunCycle));
    assert_eq!(next_step(&cfg, RunPhase::Waiting, RunEvent::Shutdown), (RunPhase::Stopped, RunAction::Stop));
}

#[test]
fn request_delay_skipped_when_zero() {
    let mut s = SourceConfig { base_url: "https://h".to_string(), years_to_fetch: YearsConfig::Specific(vec![]), request_delay_ms: 500 };
    assert_eq!(request_delay(&s), Some(500));
    s.request_delay_ms = 0;
    assert_eq!(request_delay(&s), None);
}
