//! A process monitor's core: the table of live processes, the scheduling
//! fields read from each process's accounting record, and the filtered,
//! sorted view with its selection cursor.

pub mod text;
pub mod process;
pub mod table;
pub mod display;
pub mod rows;
pub mod session;

pub use process::{Process, ProcessBuilder, ProcessStatus};
pub use session::App;
pub use table::SysProbe;
