//! HTTP cookies: parsing a `Set-Cookie` value or a `Cookie` request header, writing a cookie
//! back out, and a jar that tracks the cookies to create or remove in a response.
pub mod builder;
pub mod change;
pub mod cookie;
pub mod error;
pub mod jar;
pub mod parse;
pub mod round_trip;
pub mod text;

pub use crate::builder::CookieBuilder;
pub use crate::cookie::{Cookie, SameSite};
pub use crate::jar::CookieJar;
