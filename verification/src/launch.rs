//! One whole run: from the arguments and the device to the exit code.

use crate::context::{setup_result, ExecutionContext};
use crate::error::{Failure, NtfsError, Site};
use crate::extract::{extraction_result, opening_failure, ExtractionJob};
use vstd::prelude::*;
use vstd::string::StringSliceAdditionalSpecFns;

verus! {

/// The version that the program shows.
pub const VERSION: &'static str = "0.1.7";

/// How a run ended.
#[derive(Clone, Copy, Debug, PartialEq, Eq, Structural)]
pub enum Outcome {
    /// The contents were extracted.
    Success,
    /// No volume was found on the device.
    SetupFailed,
    /// The volume was found, the extraction failed.
    OperationFailed,
}

/// What a run leaves behind.
#[derive(Debug)]
pub struct Report {
    /// Whether the run is to print nothing.
    pub quiet: bool,
    pub outcome: Outcome,
    /// The failure, where the run failed, and the place at which it came
    /// up.
    pub error: Option<Failure>,
    /// The contents extracted; empty where the run failed.
    pub output: Vec<u8>,
}

/// The bytes of the argument that silences the program: `/Quiet`.
pub open spec fn quiet_flag() -> Seq<u8> {
    seq![0x2Fu8, 0x51u8, 0x75u8, 0x69u8, 0x65u8, 0x74u8]
}

/// Whether one of `args` is the argument that silences the program.
pub open spec fn quiet_among(args: Seq<&str>) -> bool {
    exists|i: int| 0 <= i < args.len() && (#[trigger] args[i]).spec_bytes() == quiet_flag()
}

/// The exit code that stands for `outcome`.
pub open spec fn exit_code_of(outcome: Outcome) -> int {
    match outcome {
        Outcome::Success => 0,
        Outcome::SetupFailed => -1,
        Outcome::OperationFailed => -2,
    }
}

/// What a run on the device `image` reports for the extraction of the
/// data stream `stream` of `target`.
pub open spec fn run_result(
    image: Seq<u8>,
    sector_size: u32,
    table: Seq<u16>,
    target: crate::extract::TargetView,
    stream: Seq<u16>,
) -> (Outcome, Option<NtfsError>, Seq<u8>) {
    match setup_result(image, sector_size, table) {
        Err(e) => (Outcome::SetupFailed, Some(e), Seq::empty()),
        Ok(vol) => match extraction_result(vol, target, stream) {
            Err(e) => (Outcome::OperationFailed, Some(e), Seq::empty()),
            Ok(content) => (Outcome::Success, None, content),
        },
    }
}

/// The failure without its place.
pub open spec fn error_of(failure: Option<Failure>) -> Option<NtfsError> {
    match failure {
        Some(f) => Some(f.error),
        None => None,
    }
}

/// Whether `site` is where a run on the device `image` fails, if it does:
/// the volume where the setup fails, else the place at which the target
/// cannot be opened, else a byte of the contents.
pub open spec fn is_failure_site(
    site: Site,
    image: Seq<u8>,
    sector_size: u32,
    table: Seq<u16>,
    target: crate::extract::TargetView,
    stream: Seq<u16>,
) -> bool {
    match setup_result(image, sector_size, table) {
        Err(_) => site == Site::Volume,
        Ok(vol) => match opening_failure(vol, target, stream) {
            Some(f) => site == f.site,
            None => site is Contents,
        },
    }
}

/// Whether `arg` is the argument that silences the program.
fn is_quiet_flag(arg: &str) -> (b: bool)
    ensures
        b == (arg.spec_bytes() == quiet_flag()),
{
    let bytes = arg.as_bytes();
    if bytes.len() != 6 {
        return false;
    }
    let same = bytes[0] == 0x2F && bytes[1] == 0x51 && bytes[2] == 0x75 && bytes[3] == 0x69
        && bytes[4] == 0x65 && bytes[5] == 0x74;
    assert(same ==> bytes@ =~= quiet_flag());
    same
}

/// Whether the arguments ask for a run that prints nothing.
pub fn is_quiet(args: &Vec<&str>) -> (b: bool)
    ensures
        b == quiet_among(args@),
{
    let mut i: usize = 0;
    while i < args.len()
        invariant
            i <= args@.len(),
            forall|j: int| 0 <= j < i ==> (#[trigger] args@[j]).spec_bytes() != quiet_flag(),
        decreases args.len() - i,
    {
        if is_quiet_flag(args[i]) {
            return true;
        }
        i = i + 1;
    }
    false
}

/// The exit code of a run that ended in `outcome`: 0 for success, -1
/// where the setup failed, -2 where the operation failed.
pub fn exit_code(outcome: Outcome) -> (code: i32)
    ensures
        code == exit_code_of(outcome),
{
    match outcome {
        Outcome::Success => 0,
        Outcome::SetupFailed => -1,
        Outcome::OperationFailed => -2,
    }
}

/// Runs one job on the device whose contents are `image`: sets the
/// context up, performs the operation, and tears the context down on
/// either way out. Only a run that succeeds hands out contents.
pub fn exe(
    args: &Vec<&str>,
    image: Vec<u8>,
    sector_size: u32,
    table: Vec<u16>,
    job: ExtractionJob,
) -> (report: Report)
    ensures
        report.quiet == quiet_among(args@),
        (report.outcome, error_of(report.error), report.output@) == run_result(
            image@,
            sector_size,
            table@,
            job.target@,
            job.stream@,
        ),
        report.error matches Some(f) ==> is_failure_site(
            f.site,
            image@,
            sector_size,
            table@,
            job.target@,
            job.stream@,
        ),
{
    let quiet = is_quiet(args);
    let mut context = match ExecutionContext::setup(image, sector_size, table, job) {
        Ok(c) => c,
        Err(e) => {
            return Report {
                quiet,
                outcome: Outcome::SetupFailed,
                error: Some(Failure { error: e, site: Site::Volume }),
                output: Vec::new(),
            };
        },
    };
    match context.perform_operation() {
        Err(_) => {
            let error = context.failure();
            let _ = context.cleanup();
            Report { quiet, outcome: Outcome::OperationFailed, error, output: Vec::new() }
        },
        Ok(_) => {
            let writer = context.cleanup();
            Report { quiet, outcome: Outcome::Success, error: None, output: writer.into_vec() }
        },
    }
}

} // verus!
