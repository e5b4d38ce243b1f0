//! The logic of a music player that follows the folders on disk.
pub mod text;
pub mod labels;
pub mod settings;
pub mod panel;
pub mod search;
pub mod navigation;
pub mod queue;
pub mod palette;
pub mod file_item;
pub mod store;
pub mod formats;
pub mod library_db;
pub mod matching;
pub mod queries;
pub mod query_texts;
pub mod statements;
pub mod folder_tree;
pub mod scanning;
pub mod deep_scan;
pub mod catalog;
pub mod cover_cache;
pub mod cover_search;
pub mod items;
pub mod rows;
pub mod enrich;
pub mod tables;
pub mod scan_promises;
pub mod tree_promises;
pub mod rings;
pub mod promises;
pub mod query_promises;
pub mod view_promises;
pub mod text_promises;
pub mod disk_promises;
pub mod label_promises;
pub mod play_promises;
pub mod colour_promises;
pub mod deep_promises;
pub mod alike_promises;
pub mod shapes;
pub mod window;
pub mod index_job;
pub mod folder_load;
pub mod player;
pub mod tags;
pub mod order;
pub mod records;
pub mod paths;
pub mod scan;
pub mod sql;
