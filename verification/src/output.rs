//! Where a finished snapshot goes.

use crate::text::same_text;
use vstd::prelude::*;
use vstd::string::*;

verus! {

/// Whether one wallet is exported, or every wallet of a source file.
#[derive(Clone, Copy, Debug, PartialEq, Eq, Structural)]
pub enum OperatingMode {
    Single,
    Bulk,
}

/// The destination that the caller chose for the document.
#[derive(Clone, Copy, Debug, PartialEq, Eq, Structural)]
pub enum OutputFormat {
    Stdout,
    File,
}

/// The destination that a choice stands for, if it is a known one.
pub open spec fn format_of(choice: Option<Seq<char>>) -> Option<OutputFormat> {
    match choice {
        None => Some(OutputFormat::Stdout),
        Some(t) => if t == "file"@ {
            Some(OutputFormat::File)
        } else if t == "stdout"@ {
            Some(OutputFormat::Stdout)
        } else {
            None
        },
    }
}

/// The mode that a source file name selects: none gives `Single`.
pub fn operating_mode(source_file: &str) -> (r: OperatingMode)
    ensures
        r == if source_file@.len() == 0 {
            OperatingMode::Single
        } else {
            OperatingMode::Bulk
        },
{
    if source_file.unicode_len() == 0 {
        OperatingMode::Single
    } else {
        OperatingMode::Bulk
    }
}

/// Reads the chosen destination. No choice means standard output; a
/// choice other than `file` and `stdout` is refused.
pub fn output_format(choice: Option<&str>) -> (r: Option<OutputFormat>)
    ensures
        r == format_of(
            match choice {
                Some(t) => Some(t@),
                None => None,
            },
        ),
{
    match choice {
        None => Some(OutputFormat::Stdout),
        Some(t) => {
            if same_text(t, "file") {
                Some(OutputFormat::File)
            } else if same_text(t, "stdout") {
                Some(OutputFormat::Stdout)
            } else {
                None
            }
        },
    }
}

/// Whether the document is stored as a file: always in bulk mode, and
/// otherwise where a file was chosen.
pub fn writes_file(format: OutputFormat, mode: OperatingMode) -> (r: bool)
    ensures
        r == (format == OutputFormat::File || mode == OperatingMode::Bulk),
{
    match (format, mode) {
        (OutputFormat::File, _) => true,
        (_, OperatingMode::Bulk) => true,
        _ => false,
    }
}

/// Whether the document is printed: only for a single wallet with
/// standard output chosen.
pub fn prints_document(format: OutputFormat, mode: OperatingMode) -> (r: bool)
    ensures
        r == (format == OutputFormat::Stdout && mode == OperatingMode::Single),
{
    match (format, mode) {
        (OutputFormat::Stdout, OperatingMode::Single) => true,
        _ => false,
    }
}

/// The name of the file that stores the snapshot of `wallet`.
pub fn snapshot_file_name(wallet: &str) -> (r: String)
    ensures
        r@ == wallet@ + ".json"@,
{
    let mut name = String::from_str(wallet);
    name.append(".json");
    name
}

} // verus!
