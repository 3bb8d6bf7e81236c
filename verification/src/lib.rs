//! Extraction of embedded preview JPEGs from TIFF-derived camera RAW
//! containers (ARW, CR2, DNG, NEF and similar).
//!
//! The library holds the verified core: the TIFF/IFD container locator,
//! the file-classification and output-path rules of the directory walk,
//! the bounded-concurrency permit accounting, and the memory-mapped view
//! through which a located JPEG slice is resolved. Opening files, mapping
//! them and writing the output bytes is left to the surrounding program.

mod mapped;
mod sched;
mod tiff;
mod walk;
mod walker;

pub use mapped::extract_jpeg;
pub use mapped::jpeg_slice;
pub use mapped::mmap_bytes;
pub use sched::all_succeeded;
pub use sched::lemma_permits_bounded;
pub use sched::FailureCause;
pub use sched::PermitPool;
pub use sched::ProcessingOutcome;
pub use sched::TaskResult;
pub use tiff::find_largest_embedded_jpeg;
pub use tiff::has_soi_marker;
pub use tiff::lemma_bad_magic;
pub use tiff::lemma_locate_ok_in_bounds;
pub use tiff::lemma_locator_returns_largest;
pub use tiff::lemma_no_tags_no_jpeg;
pub use tiff::lemma_oversized_winner_out_of_bounds;
pub use tiff::lemma_single_ifd_exact;
pub use tiff::locate;
pub use tiff::read_u16;
pub use tiff::read_u32;
pub use tiff::word16;
pub use tiff::word32;
pub use tiff::EmbeddedJpegInfo;
pub use tiff::LocateError;
pub use walk::bytes_eq;
pub use walk::is_raw_extension;
pub use walk::join_rel;
pub use walk::matches_raw_name;
pub use walk::name_extension;
pub use walk::output_rel_path;
pub use walker::lemma_dirs_cover_files;
pub use walker::DirEntry;
pub use walker::FileTask;
pub use walker::Walker;
