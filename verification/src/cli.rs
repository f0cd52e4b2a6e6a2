//! The arguments of the command line.

use vstd::prelude::*;

verus! {

/// Where the data of a run comes from.
#[derive(Clone, Debug, PartialEq, Eq)]
pub enum DataSource {
    Path(String),
    Url(String),
}

/// The arguments of the command line, with the training options in `T`.
pub struct Cli<T> {
    /// Source to load from.
    pub source: Option<DataSource>,
    /// Spawn a viewer to visualize the training.
    pub with_viewer: bool,
    pub train_stream: T,
}

/// What is wrong with the arguments.
#[derive(Clone, Copy, Debug, PartialEq, Eq, Structural)]
pub enum ErrorKind {
    MissingRequiredArgument,
}

/// An error in the arguments.
#[derive(Clone, Copy, Debug, PartialEq, Eq, Structural)]
pub struct CliError {
    pub kind: ErrorKind,
}

impl CliError {
    /// What is wrong with the arguments.
    pub fn kind(&self) -> (r: ErrorKind)
        ensures
            r == self.kind,
    {
        self.kind
    }

    /// The message for the user.
    pub fn message(&self) -> (r: &'static str)
        ensures
            r@ == (match self.kind {
                ErrorKind::MissingRequiredArgument => "When --with-viewer is false, --source must be provided"@,
            }),
    {
        match self.kind {
            ErrorKind::MissingRequiredArgument => "When --with-viewer is false, --source must be provided",
        }
    }
}

impl<T> Cli<T> {
    /// The arguments, unless there is neither a viewer nor a source.
    pub fn validate(self) -> (r: Result<Cli<T>, CliError>)
        ensures
            match r {
                Ok(cli) => (self.with_viewer || self.source is Some) && cli == self,
                Err(e) => !self.with_viewer && self.source is None && e.kind
                    == ErrorKind::MissingRequiredArgument,
            },
    {
        if !self.with_viewer && self.source.is_none() {
            return Err(CliError { kind: ErrorKind::MissingRequiredArgument });
        }
        Ok(self)
    }
}

/// Arguments are refused exactly where there is neither a viewer nor a source,
/// and else come back as they are.
pub proof fn law_a_run_needs_a_viewer_or_a_source<T>(cli: Cli<T>, r: Result<Cli<T>, CliError>)
    requires
        call_ensures(Cli::<T>::validate, (cli,), r),
    ensures
        cli.with_viewer ==> r == Ok::<Cli<T>, CliError>(cli),
        cli.source is Some ==> r == Ok::<Cli<T>, CliError>(cli),
        !cli.with_viewer && cli.source is None ==> r is Err,
{
}

} // verus!
