//! A file-system-backed cache with time-to-live semantics, together with the
//! data types of the command-line client built around it.
//!
//! The library owns every decision the cache makes: how an entry is framed on
//! disk (`envelope`), when an entry is fresh, and what a read outcome means
//! (`cache`). Reading the clock and touching the disk are the caller's part:
//! the caller reports what the file system returned and performs the writes
//! the cache hands back.
//!
//! Around the cache stand the prompt catalog (`prompts`), which reads CSV
//! documents into records and picks entries by filter or selection, and the
//! shapes of the chat-completion API (`api`, `cli`). Fetching catalog bytes
//! and speaking HTTP are the caller's part as well.

pub mod api;
pub mod cache;
pub mod cli;
pub mod envelope;
pub mod prompts;
