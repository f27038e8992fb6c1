//! Decision logic for driving the `gpg` command-line tool: which process to
//! start for each operation, and what the finished process means.

pub mod commands;
pub mod foreign;
pub mod invocation;
pub mod listing;
pub mod process;
pub mod text;

pub use commands::{check_gpg_installed, gpg_decrypt_buffer, gpg_encrypt_buffer};
pub use listing::check_key_can_encrypt;
