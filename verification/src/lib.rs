pub mod cli;
pub mod clock;
pub mod collector;
pub mod decimal;
pub mod disk;
pub mod extras;
pub mod format;
pub mod history;
pub mod i18n;
pub mod metrics;
pub mod rdma;
pub mod report;
pub mod soc;
pub mod table;
pub mod text;
pub mod thunderbolt;
pub mod tree;
pub mod tui;
