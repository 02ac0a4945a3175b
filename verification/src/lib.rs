//! Parsing and planning logic of a Docker-style front end for Slurm clusters: Dockerfile
//! parsing with multi-stage grouping, Slurm `scontrol` record parsing, container command
//! planning, the Slurm scheduler and a stand-in container engine, the runtime's data types,
//! and the state and requests of the command-line tool.
pub mod apptainer;
pub mod cli;
pub mod clock;
pub mod dockerfile;
pub mod runtime;
pub mod slurm;
pub mod state;
pub mod strmap;
pub mod text;

use vstd::prelude::*;

verus! {

/// Errors that the library reports.
#[derive(Debug, Clone, PartialEq, Eq)]
pub enum Error {
    DockerfileParse(String),
    SlurmParse(String),
    ContainerEngine(String),
    Unsupported(String),
}

/// The view of an [`Error`]: its variant and message text.
pub enum ErrorV {
    DockerfileParse(Seq<char>),
    SlurmParse(Seq<char>),
    ContainerEngine(Seq<char>),
    Unsupported(Seq<char>),
}

impl View for Error {
    type V = ErrorV;

    open spec fn view(&self) -> ErrorV {
        match self {
            Error::DockerfileParse(m) => ErrorV::DockerfileParse(m@),
            Error::SlurmParse(m) => ErrorV::SlurmParse(m@),
            Error::ContainerEngine(m) => ErrorV::ContainerEngine(m@),
            Error::Unsupported(m) => ErrorV::Unsupported(m@),
        }
    }
}

impl Error {
    /// The error's text: what kind of error it is, a colon, and its message.
    pub fn message(&self) -> (s: String)
        ensures
            s@ == match self@ {
                ErrorV::DockerfileParse(m) => "dockerfile parse error: "@ + m,
                ErrorV::SlurmParse(m) => "slurm parse error: "@ + m,
                ErrorV::ContainerEngine(m) => "container engine error: "@ + m,
                ErrorV::Unsupported(m) => "unsupported operation: "@ + m,
            },
    {
        match self {
            Error::DockerfileParse(m) => crate::text::concat("dockerfile parse error: ", m.as_str()),
            Error::SlurmParse(m) => crate::text::concat("slurm parse error: ", m.as_str()),
            Error::ContainerEngine(m) => crate::text::concat("container engine error: ", m.as_str()),
            Error::Unsupported(m) => crate::text::concat("unsupported operation: ", m.as_str()),
        }
    }
}

pub type Result<T> = core::result::Result<T, Error>;

/// The view of a library result.
pub open spec fn result_view<T: View>(r: core::result::Result<T, Error>) -> core::result::Result<
    T::V,
    ErrorV,
> {
    match r {
        Ok(t) => Ok(t@),
        Err(e) => Err(e@),
    }
}

} // verus!
