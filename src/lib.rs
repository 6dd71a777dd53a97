//! Query routing, fuzzy ranking and clipboard history for a keyboard launcher.

pub mod actions;
pub mod apps;
pub mod clipboard;
pub mod config;
pub mod notes;
pub mod records;
pub mod router;
pub mod search;
pub mod text;

pub use actions::{execute_command, get_system_commands, SystemCommand};
pub use apps::{get_indexer, AppEntry, AppIndexer, StubIndexer};
pub use clipboard::{ClipboardEntry, ClipboardManager};
pub use config::{
    ActivationSettings, CustomTheme, FileSearchSettings, GeneralSettings, SearchSettings, Settings,
    ThemeSettings, WebSearch,
};
pub use notes::{extract_tags, Note};
pub use records::{FileEntry, Scratchpad};
pub use search::{ResultType, SearchAction, SearchEngine, SearchResult};
