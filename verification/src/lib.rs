//! A configurable HTTP mock server's engine: route definitions read from a
//! declarative document, static and paginated response handlers with JSON
//! templating, and the statements and replies of a session-scoped request
//! recorder.
pub mod config;
pub mod endpoint;
pub mod json;
pub mod json_template;
pub mod method;
pub mod mock_endpoint;
pub mod ordered;
pub mod request_logger;
pub mod response;
pub mod session_endpoint;
pub mod text;
