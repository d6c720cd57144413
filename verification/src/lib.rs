//! Detection of .NET Aspire AppHost projects.
//!
//! An AppHost is the project of a .NET Aspire application that orchestrates the others. Given the
//! files of a project, the library tells whether it is an AppHost, which resources it orchestrates
//! and which OpenAPI documents their projects serve, and whether the application runs.

pub mod csproj;
pub mod identify;
pub mod model;
pub mod names;
pub mod openapi;
pub mod paths;
pub mod pattern;
pub mod resources;
pub mod status;
pub mod syntax;
pub mod text;

pub use identify::{identify_project, Identification};
pub use model::{EntryPoint, ProjectProfile, RunStatus};
pub use status::{detect_run_status, StatusCheck};
