//! Backend logic of a package-update manager: update discovery from the
//! system package manager and AUR helpers, size-delta arithmetic, snapshot
//! retention, lock recovery and install hand-off.
pub mod text;
pub mod models;
pub mod aur_managers;
pub mod settings;
pub mod size;
pub mod package_updates;
pub mod timeshift;
pub mod aur;
pub mod number;
pub mod privilege;
pub mod lock;
pub mod install;
