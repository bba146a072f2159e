//! A seekable, randomly addressable reader for objects held in Google Cloud
//! Storage buckets. The object is never downloaded whole: each read is turned
//! into an authenticated HTTP range request against the storage service.

pub mod errors;
pub mod http;
pub mod reader;
pub mod uri;

pub use errors::{GCSObjectURIError, GCSReaderError};
pub use reader::{Auth, GCSReader, SeekFrom};
pub use uri::GCSObjectURI;
