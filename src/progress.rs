use vstd::prelude::*;
use vstd::string::*;

verus! {

/// The stages of a comparison of two layers, in order.
#[derive(PartialEq, Eq, Structural, Clone, Copy, Debug)]
pub enum Stage {
    Idle,
    ExportingFirst,
    ExportingSecond,
    ExtractingFirst,
    ExtractingSecond,
    FingerprintingFirst,
    FingerprintingSecond,
    Diffing,
    Complete,
    Failed,
}

/// Where each stage starts, in thousandths of the whole comparison: exporting takes the
/// first half, extracting and fingerprinting up to nine tenths, diffing the rest.
pub open spec fn stage_start(s: Stage) -> u32 {
    match s {
        Stage::Idle => 0,
        Stage::ExportingFirst => 0,
        Stage::ExportingSecond => 250,
        Stage::ExtractingFirst => 500,
        Stage::ExtractingSecond => 600,
        Stage::FingerprintingFirst => 700,
        Stage::FingerprintingSecond => 800,
        Stage::Diffing => 900,
        Stage::Complete => 1000,
        Stage::Failed => 0,
    }
}

/// The stage after `s` once it succeeds; terminal stages stay.
pub open spec fn next_stage(s: Stage) -> Stage {
    match s {
        Stage::Idle => Stage::ExportingFirst,
        Stage::ExportingFirst => Stage::ExportingSecond,
        Stage::ExportingSecond => Stage::ExtractingFirst,
        Stage::ExtractingFirst => Stage::ExtractingSecond,
        Stage::ExtractingSecond => Stage::FingerprintingFirst,
        Stage::FingerprintingFirst => Stage::FingerprintingSecond,
        Stage::FingerprintingSecond => Stage::Diffing,
        Stage::Diffing => Stage::Complete,
        Stage::Complete => Stage::Complete,
        Stage::Failed => Stage::Failed,
    }
}

/// The message reported in each stage.
pub open spec fn stage_message(s: Stage) -> Seq<char> {
    match s {
        Stage::Idle => "Waiting to compare layers"@,
        Stage::ExportingFirst => "Exporting the first layer"@,
        Stage::ExportingSecond => "Exporting the second layer"@,
        Stage::ExtractingFirst => "Extracting the first layer"@,
        Stage::ExtractingSecond => "Extracting the second layer"@,
        Stage::FingerprintingFirst => "Computing hashes for the first layer"@,
        Stage::FingerprintingSecond => "Computing hashes for the second layer"@,
        Stage::Diffing => "Comparing layer contents"@,
        Stage::Complete => "Comparison complete"@,
        Stage::Failed => "Comparison failed"@,
    }
}

pub open spec fn is_terminal(s: Stage) -> bool {
    s == Stage::Complete || s == Stage::Failed
}

/// One progress message: a text, how far the operation is in thousandths, whether it has
/// ended, and the error that ended it, if any.
pub struct ProgressReport {
    pub message: String,
    pub permille: u32,
    pub is_complete: bool,
    pub error: Option<String>,
}

/// Where a comparison stands.
pub struct ComparisonProgress {
    pub stage: Stage,
    pub permille: u32,
}

impl ComparisonProgress {
    pub open spec fn wf(&self) -> bool {
        &&& self.permille <= 1000
        &&& self.stage != Stage::Failed ==> self.permille == stage_start(self.stage)
    }

    /// A comparison that has not started.
    pub fn new() -> (r: ComparisonProgress)
        ensures
            r.wf(),
            r.stage == Stage::Idle,
            r.permille == 0,
    {
        ComparisonProgress { stage: Stage::Idle, permille: 0 }
    }

    fn start_of(s: Stage) -> (r: u32)
        ensures
            r == stage_start(s),
    {
        match s {
            Stage::Idle => 0,
            Stage::ExportingFirst => 0,
            Stage::ExportingSecond => 250,
            Stage::ExtractingFirst => 500,
            Stage::ExtractingSecond => 600,
            Stage::FingerprintingFirst => 700,
            Stage::FingerprintingSecond => 800,
            Stage::Diffing => 900,
            Stage::Complete => 1000,
            Stage::Failed => 0,
        }
    }

    /// Moves on to the next stage after the current one succeeded and reports it. A
    /// terminal stage stays as it is; progress never goes down.
    pub fn advance(&mut self) -> (r: ProgressReport)
        requires
            old(self).wf(),
        ensures
            final(self).wf(),
            final(self).stage == next_stage(old(self).stage),
            final(self).permille >= old(self).permille,
            is_terminal(old(self).stage) ==> *final(self) == *old(self),
            r.message@ == stage_message(final(self).stage),
            r.permille == final(self).permille,
            r.is_complete == is_terminal(final(self).stage),
            r.error is None,
    {
        let next = match self.stage {
            Stage::Idle => Stage::ExportingFirst,
            Stage::ExportingFirst => Stage::ExportingSecond,
            Stage::ExportingSecond => Stage::ExtractingFirst,
            Stage::ExtractingFirst => Stage::ExtractingSecond,
            Stage::ExtractingSecond => Stage::FingerprintingFirst,
            Stage::FingerprintingFirst => Stage::FingerprintingSecond,
            Stage::FingerprintingSecond => Stage::Diffing,
            Stage::Diffing => Stage::Complete,
            Stage::Complete => Stage::Complete,
            Stage::Failed => Stage::Failed,
        };
        if next != Stage::Failed {
            self.permille = Self::start_of(next);
        }
        self.stage = next;
        self.report(None)
    }

    /// Ends the comparison with `error`; progress stays where it was. A comparison that
    /// has already ended stays as it is.
    pub fn fail(&mut self, error: String) -> (r: ProgressReport)
        requires
            old(self).wf(),
        ensures
            final(self).wf(),
            final(self).permille == old(self).permille,
            is_terminal(old(self).stage) ==> final(self).stage == old(self).stage,
            !is_terminal(old(self).stage) ==> final(self).stage == Stage::Failed,
            r.message@ == stage_message(final(self).stage),
            r.permille == final(self).permille,
            r.is_complete,
            !is_terminal(old(self).stage) ==> r.error == Some(error),
    {
        if self.stage == Stage::Complete || self.stage == Stage::Failed {
            return self.report(None);
        }
        self.stage = Stage::Failed;
        self.report(Some(error))
    }

    /// The report of the current stage, with `error` attached.
    pub fn report(&self, error: Option<String>) -> (r: ProgressReport)
        ensures
            r.message@ == stage_message(self.stage),
            r.permille == self.permille,
            r.is_complete == is_terminal(self.stage),
            r.error == error,
    {
        let message = match self.stage {
            Stage::Idle => "Waiting to compare layers",
            Stage::ExportingFirst => "Exporting the first layer",
            Stage::ExportingSecond => "Exporting the second layer",
            Stage::ExtractingFirst => "Extracting the first layer",
            Stage::ExtractingSecond => "Extracting the second layer",
            Stage::FingerprintingFirst => "Computing hashes for the first layer",
            Stage::FingerprintingSecond => "Computing hashes for the second layer",
            Stage::Diffing => "Comparing layer contents",
            Stage::Complete => "Comparison complete",
            Stage::Failed => "Comparison failed",
        };
        ProgressReport {
            message: String::from_str(message),
            permille: self.permille,
            is_complete: self.stage == Stage::Complete || self.stage == Stage::Failed,
            error,
        }
    }
}

} // verus!
