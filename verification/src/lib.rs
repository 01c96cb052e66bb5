//! Hyperion: the protocol core of a small HTTP/1.1 server.
//!
//! The crate frames raw bytes into requests, serializes responses, keeps the
//! route table and decides every step of a connection's life. Sockets, tasks
//! and handler code live outside of it.

pub mod config;
pub mod decimal;
pub mod http_body;
pub mod http_cookie;
pub mod http_error;
pub mod http_header;
pub mod http_method;
pub mod http_request;
pub mod http_response;
pub mod http_router;
pub mod http_server;
pub mod http_version;
pub mod text;

pub use config::HyperionConfig;
pub use http_body::HttpBody;
pub use http_cookie::HttpCookie;
pub use http_error::HttpError;
pub use http_header::HttpHeader;
pub use http_method::HttpMethod;
pub use http_request::HttpRequest;
pub use http_response::HttpResponse;
pub use http_router::HttpRouter;
pub use http_version::HttpVersion;
