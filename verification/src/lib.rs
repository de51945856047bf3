//! Locating, acquiring, tracking and activating Java runtime installations.

pub mod commands;
pub mod config;
pub mod detector;
pub mod digest;
pub mod downloader;
pub mod error;
pub mod number;
pub mod path_manager;
pub mod pattern;
pub mod platform;
pub mod text;
pub mod timestamp;

pub use config::{Config, JavaVersion};
pub use detector::JavaDetector;
pub use downloader::{AvailableVersion, Downloader};
pub use error::JamanError;
pub use path_manager::PathManager;
pub use platform::Platform;
pub use timestamp::Timestamp;
