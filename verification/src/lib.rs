pub mod text;
pub mod util;
pub mod path;
pub mod cli;
pub mod clean;
pub mod scan;
pub mod uninstall;
pub mod focus;
pub mod laws;
pub mod output_laws;
