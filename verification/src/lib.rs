pub mod text;
pub mod lexical;
pub mod formats;
pub mod detect;
pub mod format_detect;
pub mod stream;
pub mod feed;
pub mod convert;
