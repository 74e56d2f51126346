pub mod block;
pub mod dir;
pub mod fs;
pub mod inode;
pub mod laws;
