//! Copying files and directory trees, as decisions separated from the system
//! calls that carry them out.
//!
//! Every copy is a state machine. Its `request` names the next call to make, its
//! `advance` takes what the call answered, and the run ends with the outcome of the
//! copy. The machines hold no descriptor, thread or channel, so that everything they
//! decide is proved here.

pub mod c_path;
pub mod call_laws;
pub mod disk_laws;
pub mod error;
pub mod file_id;
pub mod file_type;
pub mod linux;
pub mod op;
pub mod order_laws;
pub mod os_path;
pub mod platform;
pub mod portable;
pub mod run_laws;
pub mod schedule;
pub mod schedule_laws;
pub mod totals;
pub mod tree;
pub mod tree_laws;
pub mod value_laws;
pub mod view_laws;

pub use op::{copy_file, CopyOp};
