use uscrn_ingest::config::{extract_state_from_filename, LocationFilter, YearsConfig};
use uscrn_ingest::error::AppError;
use uscrn_ingest::fetcher::{parse_filename, validate_download_url};

#[test]
fn test_extract_state_from_filename() {
    assert_eq!(
        extract_state_from_filename("CRNH0203-2024-CA_Bodega_6_WSW.txt"),
        Some("CA".to_string())
    );
    assert_eq!(
        extract_state_from_filename("CRNH0203-2024-TX_Austin_33_NW.txt"),
        Some("TX".to_string())
    );
}

#[test]
fn test_location_filter_matches() {
    let filter = LocationFilter {
        states: vec!["CA".to_string(), "TX".to_string()],
        stations: vec![],
        patterns: vec![],
    };
    assert!(filter.matches_file("CRNH0203-2024-CA_Bodega_6_WSW.txt"));
    assert!(filter.matches_file("CRNH0203-2024-TX_Austin_33_NW.txt"));
    assert!(!filter.matches_file("CRNH0203-2024-FL_Everglades_5_NE.txt"));
}

#[test]
fn test_empty_filter_matches_all() {
    let filter = LocationFilter::default();
    assert!(filter.matches_file("CRNH0203-2024-CA_Bodega_6_WSW.txt"));
    assert!(filter.matches_station(12345));
}

#[test]
fn test_station_only_filter_passes_all_files() {
    let filter = LocationFilter { states: vec![], stations: vec![3761], patterns: vec![] };
    assert!(filter.matches_file("CRNH0203-2024-PA_Avondale_2_N.txt"));
    assert!(filter.matches_file("CRNH0203-2024-CA_Bodega_6_WSW.txt"));
    assert!(filter.matches_station(3761));
    assert!(!filter.matches_station(12345));
}

#[test]
fn test_parse_filename() {
    let result = parse_filename("CRNH0203-2024-CA_Bodega_6_WSW.txt", 2024, "https://example.com");
    assert!(result.is_some());
    let file_info = result.unwrap();
    assert_eq!(file_info.name, "CRNH0203-2024-CA_Bodega_6_WSW.txt");
    assert_eq!(file_info.year, 2024);
    assert_eq!(file_info.state, "CA");
    assert_eq!(file_info.station_name, "Bodega_6_WSW");
}

#[test]
fn test_parse_filename_texas() {
    let result = parse_filename("CRNH0203-2024-TX_Austin_33_NW.txt", 2024, "https://example.com");
    assert!(result.is_some());
    let file_info = result.unwrap();
    assert_eq!(file_info.state, "TX");
    assert_eq!(file_info.station_name, "Austin_33_NW");
}

#[test]
fn test_location_filter_matches_state() {
    let filter = LocationFilter {
        states: vec!["CA".to_string(), "TX".to_string()],
        stations: vec![],
        patterns: vec![],
    };
    assert!(filter.matches_file("CRNH0203-2024-CA_Bodega_6_WSW.txt"));
    assert!(filter.matches_file("CRNH0203-2024-TX_Austin_33_NW.txt"));
    assert!(!filter.matches_file("CRNH0203-2024-FL_Everglades_5_NE.txt"));
}

#[test]
fn test_location_filter_matches_pattern() {
    let filter = LocationFilter {
        states: vec![],
        stations: vec![],
        patterns: vec!["*PA_Avondale*".to_string()],
    };
    assert!(filter.matches_file("CRNH0203-2024-PA_Avondale_2_N.txt"));
    assert!(!filter.matches_file("CRNH0203-2024-CA_Bodega_6_WSW.txt"));
}

#[test]
fn test_location_filter_matches_station() {
    let filter = LocationFilter { states: vec![], stations: vec![3761, 12345], patterns: vec![] };
    assert!(filter.matches_station(3761));
    assert!(filter.matches_station(12345));
    assert!(!filter.matches_station(99999));
}

#[test]
fn test_empty_location_filter_matches_all() {
    let filter = LocationFilter::default();
    assert!(filter.matches_file("CRNH0203-2024-CA_Bodega_6_WSW.txt"));
    assert!(filter.matches_file("CRNH0203-2024-TX_Austin_33_NW.txt"));
    assert!(filter.matches_station(12345));
    assert!(filter.is_empty());
}

#[test]
fn test_fetcher_rejects_invalid_host() {
    let result = validate_download_url("https://evil.com/malicious.txt");
    assert!(result.is_err());
    match result.unwrap_err() {
        AppError::InvalidData(msg) => assert!(msg.contains("not in allowed list")),
        e => panic!("Expected InvalidData error, got: {:?}", e),
    }
}

#[test]
fn test_fetcher_rejects_http_urls() {
    let result = validate_download_url("http://www.ncei.noaa.gov/pub/data/file.txt");
    assert!(result.is_err());
    match result.unwrap_err() {
        AppError::InvalidData(msg) => assert!(msg.contains("must use HTTPS")),
        e => panic!("Expected InvalidData error, got: {:?}", e),
    }
}

#[test]
fn allowed_https_download_passes() {
    assert!(validate_download_url("https://www.ncei.noaa.gov/pub/data/x.txt").is_ok());
    assert!(validate_download_url("https://ncei.noaa.gov/x.txt").is_ok());
    match validate_download_url("not a url").unwrap_err() {
        AppError::InvalidData(msg) => assert!(msg.starts_with("Invalid URL 'not a url': ")),
        e => panic!("Expected InvalidData error, got: {:?}", e),
    }
}

#[test]
fn filename_fields_and_url() {
    let f = parse_filename("CRNH0203-2024-CA_Bodega_6_WSW.txt", 2023, "https://h/base").unwrap();
    assert_eq!(f.url, "https://h/base/2023/CRNH0203-2024-CA_Bodega_6_WSW.txt");
    assert_eq!(f.year, 2023);
    let g = parse_filename("CRNH0203-2024-AK.txt", 2024, "https://h").unwrap();
    assert_eq!(g.state, "AK.txt");
    assert_eq!(g.station_name, "Unknown");
    let h = parse_filename("A-B-CA_x.txt.txt", 2024, "https://h").unwrap();
    assert_eq!(h.station_name, "x");
    assert!(parse_filename("CRNH0203_2024_CA.txt", 2024, "https://h").is_none());
}

#[test]
fn state_code_needs_two_bytes() {
    assert_eq!(extract_state_from_filename("CRNH0203-2024-CAL_Bodega.txt"), None);
    assert_eq!(extract_state_from_filename("CRNH0203-2024-é_Bodega.txt"), Some("é".to_string()));
    assert_eq!(extract_state_from_filename("nodashes.txt"), None);
}

#[test]
fn lower_case_state_code_matches_upper_case_filter() {
    let filter = LocationFilter { states: vec!["CA".to_string()], stations: vec![], patterns: vec![] };
    assert!(filter.matches_file("CRNH0203-2024-ca_Bodega_6_WSW.txt"));
    assert!(filter.selects_file(&Some("CA".to_string()), &vec![]));
    assert!(!filter.selects_file(&Some("FL".to_string()), &vec![]));
    let both = LocationFilter {
        states: vec!["CA".to_string()],
        stations: vec![],
        patterns: vec!["x".to_string()],
    };
    assert!(both.selects_file(&None, &vec![true]));
    assert!(!both.selects_file(&None, &vec![false]));
}

#[test]
fn years_selection() {
    assert_eq!(YearsConfig::Keyword("current".to_string()).years_for(2026), vec![2026]);
    assert_eq!(YearsConfig::Keyword("other".to_string()).years_for(2026), vec![2026]);
    assert_eq!(YearsConfig::Keyword("all".to_string()).years_for(2003), vec![2000, 2001, 2002, 2003]);
    assert_eq!(YearsConfig::Keyword("all".to_string()).years_for(1999), Vec::<i32>::new());
    assert_eq!(YearsConfig::Specific(vec![2021, 2019]).years_for(2026), vec![2021, 2019]);
    assert_eq!(YearsConfig::Keyword("current".to_string()).get_years().len(), 1);
}

#[test]
fn base_address_drops_trailing_slashes() {
    use_base("https://www.ncei.noaa.gov/pub/data/uscrn/products/hourly02/", "https://www.ncei.noaa.gov/pub/data/uscrn/products/hourly02");
    use_base("https://h//", "https://h");
    use_base("https://h", "https://h");
}

fn use_base(input: &str, expected: &str) {
    assert_eq!(uscrn_ingest::fetcher::base_address(input), expected);
}
