use chrono::{Local, TimeZone, Utc};
use fab_card_collector::report::{launch_stamp, metadata_report, LaunchTime};

#[test]
fn report_has_the_fixed_form() {
    let codes = vec!["WTR".to_string(), "ARC".to_string()];
    let report = metadata_report(
        "2024-05-01 13:45:10 +02:00",
        &codes,
        2,
        "script_generated_card_data/txt",
        "script_generated_card_data/json",
    );
    assert_eq!(
        report,
        "FAB Card Scrapper - Script Execution Metadata\n\
         =============================================\n\
         Script Launch Time: 2024-05-01 13:45:10 +02:00\n\
         Latest Set Processed: ARC\n\
         Total Sets Processed: 2\n\
         Sets List: WTR, ARC\n\
         Output Structure:\n\
         - TXT files: script_generated_card_data/txt/\n\
         - JSON files: script_generated_card_data/json/\n"
    );
}

#[test]
fn report_names_the_last_code_whatever_was_collected() {
    let codes = vec!["WTR".to_string(), "ARC".to_string(), "MON".to_string()];
    let report = metadata_report("t", &codes, 1, "a", "b");
    assert!(report.contains("\nLatest Set Processed: MON\n"));
    assert!(report.contains("\nTotal Sets Processed: 1\n"));
    assert!(report.contains("\nSets List: WTR, ARC, MON\n"));
}

#[test]
fn report_of_an_empty_list() {
    let report = metadata_report("t", &vec![], 0, "a", "b");
    assert_eq!(
        report,
        "FAB Card Scrapper - Script Execution Metadata\n\
         =============================================\n\
         Script Launch Time: t\n\
         Latest Set Processed: UNKNOWN\n\
         Total Sets Processed: 0\n\
         Sets List: \n\
         Output Structure:\n\
         - TXT files: a/\n\
         - JSON files: b/\n"
    );
}

#[test]
fn report_counts_in_decimal() {
    let codes = vec!["X".to_string()];
    assert!(metadata_report("t", &codes, 120, "a", "b").contains("\nTotal Sets Processed: 120\n"));
}

#[test]
fn launch_stamp_shows_date_time_and_offset() {
    let epoch = LaunchTime { unix_seconds: 0, utc_offset_seconds: 0 };
    assert_eq!(launch_stamp(epoch), Some("1970-01-01 00:00:00 +00:00".to_string()));
    let later = LaunchTime { unix_seconds: 1_700_000_000, utc_offset_seconds: 3600 };
    assert_eq!(launch_stamp(later), Some("2023-11-14 23:13:20 +01:00".to_string()));
    let west = LaunchTime { unix_seconds: 1_700_000_000, utc_offset_seconds: -5 * 3600 - 1800 };
    assert_eq!(launch_stamp(west), Some("2023-11-14 16:43:20 -05:30".to_string()));
    let before = LaunchTime { unix_seconds: -1, utc_offset_seconds: 0 };
    assert_eq!(launch_stamp(before), Some("1969-12-31 23:59:59 +00:00".to_string()));
}

#[test]
fn launch_stamp_refuses_what_cannot_be_written() {
    assert_eq!(launch_stamp(LaunchTime { unix_seconds: 0, utc_offset_seconds: 86_400 }), None);
    assert_eq!(launch_stamp(LaunchTime { unix_seconds: 0, utc_offset_seconds: -86_400 }), None);
    assert_eq!(launch_stamp(LaunchTime { unix_seconds: i64::MAX, utc_offset_seconds: 0 }), None);
    assert_eq!(launch_stamp(LaunchTime { unix_seconds: i64::MIN, utc_offset_seconds: 0 }), None);
}

#[test]
fn launch_stamp_is_what_the_local_clock_writes() {
    let now = Local::now();
    let launch = LaunchTime {
        unix_seconds: now.timestamp(),
        utc_offset_seconds: now.offset().local_minus_utc(),
    };
    assert_eq!(launch_stamp(launch), Some(now.format("%Y-%m-%d %H:%M:%S %Z").to_string()));
    let fixed = Utc.timestamp_opt(1_234_567_890, 0).unwrap();
    let launch = LaunchTime { unix_seconds: 1_234_567_890, utc_offset_seconds: 0 };
    assert_eq!(launch_stamp(launch), Some(fixed.format("%Y-%m-%d %H:%M:%S +00:00").to_string()));
}
