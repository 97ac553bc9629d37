//! Expands a single hierarchical configuration document into a directory
//! tree: mapping keys encode filesystem paths, keys whose terminal segment
//! contains a `.` become pretty-printed JSON files, and all other keys become
//! nested directories. Tagged nodes inside sequences expand to zero or more
//! plain values before serialization.

pub mod value;
pub mod keypath;
pub mod transform;
pub mod serialize;
pub mod tree;
pub mod laws;
