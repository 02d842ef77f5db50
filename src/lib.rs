//! Decide whether two byte sources hand out the same bytes, reading both in
//! step with bounded buffers and stopping at the first difference.

pub mod compare;
pub mod laws;
pub mod memory;
pub mod session;
pub mod source;

pub use compare::{
    read_try_exact, same_content_from_files, same_content_from_files2, same_content_from_readers,
    same_content_from_readers2, sizes_decide, DEFAULT_BUFFER_SIZE,
};
pub use memory::BytesSource;
pub use session::{Comparison, Step};
pub use source::{ByteSource, ReadError, SeekableSource};
