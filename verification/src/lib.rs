//! Editing logic of the GutenAIR EPUB editor: text offsets in XHTML, paragraph
//! and chapter splits, book search and replace, sidebar sections and
//! selection, reading order, renaming, style links and style menus, table of
//! contents, preferences, imports, exports, recent projects and the texts of
//! the interface.

pub mod strings;
pub mod offsets;
pub mod pattern;
pub mod paragraph;
pub mod selection;
pub mod search;
pub mod numbers;
pub mod media;
pub mod labels;
pub mod history;
pub mod paths;
pub mod groups;
pub mod ordering;
pub mod toc;
pub mod manifest;
pub mod rename;
pub mod sections;
pub mod styles;
pub mod menu;
pub mod preferences;
pub mod export;
pub mod recent;
pub mod interface;
pub mod assistant;
pub mod importing;
pub mod reports;
pub mod booksearch;

pub use offsets::{char_offset_to_byte, text_offset_in_xhtml_fragment};
pub use paragraph::{extract_id_attr, find_paragraph_split_target, ParagraphSplitTarget};
pub use search::{build_snippet, strip_html_for_search};
pub use numbers::format_number;
pub use media::{icon_for_media_type, mime_for_extension};
pub use labels::{tr, folder_display_name, format_match_count};
pub use paths::nav_state_path;
pub use toc::merge_toc_data;
pub use reports::{shortcuts_section, show_shortcuts_dialog, ShortcutsSection};
