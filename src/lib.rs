//! A catalog of a music library kept as artist and album directories:
//! crawling the tree into entries, and managing the saved catalog.

pub mod backup_manager;
pub mod error;
pub mod music_backup_entry;
pub mod music_backuper;
pub mod queue;
pub mod review;
pub mod text;
