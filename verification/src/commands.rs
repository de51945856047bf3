//! The decisions behind each command of the tool. What a command reads, asks the user
//! or prints is the caller's business.

pub mod activate;
pub mod clean;
pub mod doctor;
pub mod install;
pub mod list;
pub mod scan;

pub use activate::ActivateCommand;
pub use clean::CleanCommand;
pub use doctor::DoctorCommand;
pub use install::InstallCommand;
pub use list::ListCommand;
pub use scan::ScanCommand;
