//! A manager for NFS shares: the configuration file, where each share is
//! mounted, and the commands that mount, unmount and inspect it.
pub mod command;
pub mod config;
pub mod mount;
pub mod nfs;
pub mod text;
