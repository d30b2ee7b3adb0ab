//! The network layer of a small browser: URL decomposition, the text of an
//! HTTP/1.1 GET request, and the parse of the response that comes back.
pub mod text;
pub mod url;
pub mod error;
pub mod http;
pub mod client;

pub use client::HttpClient;
pub use error::Error;
pub use http::{Header, HttpResponse};
pub use url::Url;
