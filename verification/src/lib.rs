//! A vault of Markdown notes: the parser that turns note text into tasks, log
//! entries and task mentions, the in-memory index that answers queries over
//! them, and the operations that a daemon offers on both.

pub mod board;
pub mod config;
pub mod date;
pub mod domain;
pub mod index;
pub mod laws;
pub mod model;
pub mod order;
pub mod parser;
pub mod queries;
pub mod readings;
pub mod records;
pub mod rpc;
pub mod state;
pub mod summary;
pub mod text;
pub mod vault;

pub use date::{Date, DateRange, DateTime};
pub use domain::{Domain, DomainError, VaultIndexManager};
pub use index::{InMemoryIndexStore, IndexStore, StoreError, VaultIndex};
pub use model::{
    LogEntry, LogEntryId, Note, NoteId, NoteMeta, ParsedNote, TagResult, Task, TaskFilter, TaskId,
    TaskMention, TaskStatus, WeeklySummary,
};
pub use parser::{MarkdownParser, NoteParser};
pub use vault::{FileSystemVault, Vault, VaultError};
