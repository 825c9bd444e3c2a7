pub mod decoder;
pub mod element;
pub mod laws;
pub mod metainfo;
mod numbers;

pub use decoder::{FmtError, TorrentDecoder};
pub use metainfo::{Metainfo, MetainfoDecodingError};
pub use element::{Contents, Element, ElementError, ValueModel};
