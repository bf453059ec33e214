use vstd::prelude::*;

verus! {

/// The state of one ingestion job: running with a progress count, finished
/// with a record count, or failed with its error text.
pub enum JobStatus {
    Processing { progress: usize, total: Option<usize> },
    Completed { records_processed: usize },
    Failed { error: String },
}

impl JobStatus {
    /// Completed and failed jobs are terminal.
    pub open spec fn is_terminal(&self) -> bool {
        match self {
            JobStatus::Processing { .. } => false,
            JobStatus::Completed { .. } => true,
            JobStatus::Failed { .. } => true,
        }
    }

    /// The one transition rule of the job map: a terminal entry is never
    /// overwritten; a running entry takes any update.
    pub fn advance(self, update: JobStatus) -> (r: JobStatus)
        ensures
            self.is_terminal() ==> r == self,
            !self.is_terminal() ==> r == update,
    {
        if self.is_terminal_now() {
            self
        } else {
            update
        }
    }

    /// Decides terminality.
    pub fn is_terminal_now(&self) -> (r: bool)
        ensures
            r == self.is_terminal(),
    {
        match self {
            JobStatus::Processing { .. } => false,
            JobStatus::Completed { .. } => true,
            JobStatus::Failed { .. } => true,
        }
    }
}

} // verus!
