pub mod app;
pub mod backup;
pub mod clock;
pub mod db;
pub mod export;
pub mod idle;
pub mod lock;
pub mod log_buffer;
pub mod stats;
pub mod task_list;
pub mod text;
pub mod tracker;
pub mod tray;
pub mod tree;
pub mod tree_laws;
pub mod util;
pub mod ui;
