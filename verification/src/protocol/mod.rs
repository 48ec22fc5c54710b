//! The wire protocol: frames, requests and responses.
pub mod array;
pub mod laws;
pub mod request;
pub mod response;
pub mod set;
pub use request::Request;
pub use response::Response;
pub use set::SetRequest;
