//! A small HTTP/1.1 message engine: request parsing, header parameters, URI and
//! form decoding, multipart bodies, wildcard routing and response rendering.
pub mod seq_search;
pub mod text;
pub mod scanner;
pub mod string_map;
pub mod url_encoding;
pub mod headers;
pub mod uri;
pub mod uploaded_data;
pub mod method;
pub mod request;
pub mod response;
pub mod route;
pub mod server;
pub mod mime_type;

pub use headers::{HttpHeaderParser, HttpHeaderValue, HttpHeaders, ParameterizedHeaderValue};
pub use method::HttpMethod;
pub use mime_type::MimeType;
pub use request::{HttpRequest, HttpRequestParseError};
pub use response::HttpResponse;
pub use route::HttpRoute;
pub use scanner::{LineParser, LineScanner, StringScanner, VecScanner};
pub use server::HttpServer;
pub use string_map::StringMap;
pub use uploaded_data::{UploadedData, UploadedDataParsingError};
pub use uri::URI;
pub use url_encoding::URLEncoding;
