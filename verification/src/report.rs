//! The report of a run: when it was launched, what it was asked for and
//! how much it collected.

use crate::text::{decimal, decimal_text, join, joined};
use vstd::prelude::*;

verus! {

/// The moment at which a run was launched, as the clock of the machine
/// gave it.
#[derive(Clone, Copy, Debug, PartialEq, Eq, Structural)]
pub struct LaunchTime {
    /// Seconds since the start of 1970 in UTC, leap seconds not counted.
    pub unix_seconds: i64,
    /// How far local time is ahead of UTC, in seconds.
    pub utc_offset_seconds: i32,
}

/// The pattern of the launch time in the report: date, time of day and the
/// offset from UTC.
pub open spec fn stamp_pattern() -> Seq<char> {
    "%Y-%m-%d %H:%M:%S %Z"@
}

/// What chrono writes for a moment and an offset under a pattern, where it
/// writes anything.
pub uninterp spec fn formatted_time(
    unix_seconds: int,
    offset_seconds: int,
    pattern: Seq<char>,
) -> Option<Seq<char>>;

/// Formats a moment with chrono: `FixedOffset::east_opt` makes the offset,
/// `TimeZone::timestamp_opt` the moment in it, and `DateTime::format` with
/// `DelayedFormat::write_to` the text. The contract gives the text a name
/// and claims only that it depends on nothing but the three arguments;
/// there is no text where chrono refuses the offset, the moment or the
/// pattern.
#[verifier::external_body]
fn format_time(unix_seconds: i64, offset_seconds: i32, pattern: &str) -> (text: Option<String>)
    ensures
        text.deep_view() == formatted_time(unix_seconds as int, offset_seconds as int, pattern@),
{
    let offset = chrono::FixedOffset::east_opt(offset_seconds)?;
    let moment = chrono::TimeZone::timestamp_opt(&offset, unix_seconds, 0).single()?;
    let mut text = String::new();
    moment.format(pattern).write_to(&mut text).ok()?;
    Some(text)
}

/// The launch time as the report shows it, such as
/// `2024-05-01 13:45:10 +02:00`; nothing where the time cannot be written.
pub fn launch_stamp(launch: LaunchTime) -> (stamp: Option<String>)
    ensures
        stamp.deep_view() == formatted_time(
            launch.unix_seconds as int,
            launch.utc_offset_seconds as int,
            stamp_pattern(),
        ),
{
    format_time(launch.unix_seconds, launch.utc_offset_seconds, "%Y-%m-%d %H:%M:%S %Z")
}

/// The set named as the latest: the last of the list, whether or not
/// anything was collected for it.
pub open spec fn latest_of(codes: Seq<Seq<char>>) -> Seq<char> {
    if codes.len() > 0 {
        codes.last()
    } else {
        "UNKNOWN"@
    }
}

/// The report of a run.
pub open spec fn report_text(
    stamp: Seq<char>,
    codes: Seq<Seq<char>>,
    total: nat,
    text_dir: Seq<char>,
    json_dir: Seq<char>,
) -> Seq<char> {
    "FAB Card Scrapper - Script Execution Metadata\n"@
        + "=============================================\n"@ + "Script Launch Time: "@ + stamp
        + "\nLatest Set Processed: "@ + latest_of(codes) + "\nTotal Sets Processed: "@ + decimal(
        total,
    ) + "\nSets List: "@ + joined(codes, ", "@) + "\nOutput Structure:\n- TXT files: "@ + text_dir
        + "/\n- JSON files: "@ + json_dir + "/\n"@
}

/// Writes the report of a run: a title, the launch time, the last set code
/// of the list, how many sets have a payload, the whole list, and the two
/// output directories.
pub fn metadata_report(
    stamp: &str,
    codes: &Vec<String>,
    total: usize,
    text_dir: &str,
    json_dir: &str,
) -> (report: String)
    ensures
        report@ == report_text(stamp@, codes.deep_view(), total as nat, text_dir@, json_dir@),
{
    let mut report = "FAB Card Scrapper - Script Execution Metadata\n".to_owned();
    report.append("=============================================\n");
    report.append("Script Launch Time: ");
    report.append(stamp);
    report.append("\nLatest Set Processed: ");
    if codes.len() > 0 {
        assert(codes.deep_view().last() == codes[codes.len() - 1]@);
        report.append(codes[codes.len() - 1].as_str());
    } else {
        report.append("UNKNOWN");
    }
    report.append("\nTotal Sets Processed: ");
    report.append(decimal_text(total).as_str());
    report.append("\nSets List: ");
    report.append(join(codes, ", ").as_str());
    report.append("\nOutput Structure:\n- TXT files: ");
    report.append(text_dir);
    report.append("/\n- JSON files: ");
    report.append(json_dir);
    report.append("/\n");
    report
}

} // verus!
