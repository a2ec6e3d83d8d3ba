use vstd::prelude::*;
use crate::blocks::{parse_ssid_blocks, spec_parse_blocks};
use crate::colon::{parse_colon_delimited, spec_parse_colon_lines};
use crate::columns::{parse_whitespace_columns, spec_parse_columns_lines};
use crate::record::{records_model, NetworkRecord, RecordModel};
use crate::text::spec_lines;

verus! {

/// The operating systems whose network-listing output this crate parses,
/// each with its own text format: colon-delimited fields on Linux,
/// marker-line blocks on Windows, whitespace columns on macOS.
#[derive(Clone, Copy, Debug, PartialEq, Eq, Structural)]
pub enum Platform {
    Linux,
    Windows,
    MacOs,
}

/// The records of raw scan output, read in the given platform's format.
pub open spec fn spec_parse(raw: Seq<char>, platform: Platform) -> Seq<RecordModel> {
    match platform {
        Platform::Linux => spec_parse_colon_lines(spec_lines(raw)),
        Platform::Windows => spec_parse_blocks(spec_lines(raw)),
        Platform::MacOs => spec_parse_columns_lines(spec_lines(raw)),
    }
}

/// Convert raw scan output into normalized records, one per access point
/// the platform reported, in input order. Malformed lines are skipped,
/// never an error, and duplicate names are kept.
pub fn parse(raw: &str, platform: Platform) -> (r: Vec<NetworkRecord>)
    ensures
        records_model(r@) == spec_parse(raw@, platform),
{
    match platform {
        Platform::Linux => parse_colon_delimited(raw),
        Platform::Windows => parse_ssid_blocks(raw),
        Platform::MacOs => parse_whitespace_columns(raw),
    }
}

} // verus!
