//! The reasons for which a question about a pipeline is answered with no.

use vstd::prelude::*;

verus! {

/// Why a lookup or a check did not succeed. None of these is fatal: the
/// caller reports it and goes on.
#[derive(Clone, Copy, Debug, PartialEq, Eq, Structural)]
pub enum PipelineError {
    /// No logged instance of the name is backed by a live process.
    NoHomologousRunning,
    /// The pipeline has no event, or no live process stands behind it.
    NotRunning,
    /// No trigger of the pipeline names the watcher.
    NotWatchable,
    /// The logs hold no pipeline of the name.
    NotFound,
    /// The date of a logged event cannot be read.
    UnreadableDate,
    /// The configuration declares no pipeline of the name.
    UnknownPipeline,
    /// An attempt of the same name is running: no other may start.
    AlreadyRunning,
}

impl PipelineError {
    /// The sentence shown to the user.
    pub fn message(&self) -> (res: String)
        ensures
            res@ == match *self {
                PipelineError::NoHomologousRunning => "pipeline has no homologous already running"@,
                PipelineError::NotRunning => "pipeline is not running"@,
                PipelineError::NotWatchable => "no watchable pipelines"@,
                PipelineError::NotFound => "Couldn't find a pipeline with that name in logs"@,
                PipelineError::UnreadableDate => "Couldn't read the date of a logged pipeline"@,
                PipelineError::UnknownPipeline => "Couldn't find a pipeline with that name"@,
                PipelineError::AlreadyRunning => "pipeline is already running"@,
            },
    {
        match self {
            PipelineError::NoHomologousRunning => "pipeline has no homologous already running".to_owned(),
            PipelineError::NotRunning => "pipeline is not running".to_owned(),
            PipelineError::NotWatchable => "no watchable pipelines".to_owned(),
            PipelineError::NotFound => "Couldn't find a pipeline with that name in logs".to_owned(),
            PipelineError::UnreadableDate => "Couldn't read the date of a logged pipeline".to_owned(),
            PipelineError::UnknownPipeline => "Couldn't find a pipeline with that name".to_owned(),
            PipelineError::AlreadyRunning => "pipeline is already running".to_owned(),
        }
    }
}

} // verus!
