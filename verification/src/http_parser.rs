//! The HTTP request and response model: wire-token enumerations, the header
//! and target structures, the incremental request parser, and the response
//! serializer.

pub mod filepath;
pub mod http_fieldname;
pub mod http_header;
pub mod http_method;
pub mod http_partial_request;
pub mod http_protocol;
pub mod http_request;
pub mod http_response;
pub mod http_status_code;
pub mod http_target;
pub mod http_target_parameters;
pub mod http_version;

pub use filepath::Filepath;
pub use http_fieldname::HttpFieldName;
pub use http_header::HttpHeader;
pub use http_method::HttpMethod;
pub use http_partial_request::PartialHttpRequest;
pub use http_protocol::HttpProtocol;
pub use http_request::HttpRequest;
pub use http_request::ParseError;
pub use http_response::HttpResponse;
pub use http_status_code::HttpStatusCode;
pub use http_status_code::IoErrorKind;
pub use http_target::HttpTarget;
pub use http_target_parameters::HttpTargetParameters;
pub use http_version::HttpVersion;
