//! Flash layouts: named regions of a flash chip, with include/exclude
//! filtering, and the parsers that read layouts from flash images (Intel
//! Flash Descriptor, FMAP) and from TOML text.
pub mod flash;
pub mod fmap;
pub mod ifd;
pub mod toml;
pub mod types;

pub use fmap::{fmap_offset, has_fmap, is_valid_fmap_header, parse_fmap, parse_fmap_at, validate_fmap};
pub use ifd::{has_ifd, parse_ifd};
pub use types::{Layout, LayoutError, LayoutSource, Region};
