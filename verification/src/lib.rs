pub mod decimal;
pub mod err;
pub mod http_param;
pub mod http_request;
pub mod http_response;
pub mod json;
pub mod multipart;
pub mod request_parser;
pub mod scanner;
pub mod search;
pub mod str_map;
pub mod text;
