//! Verified building blocks for a set of scripting-host helper modules:
//! Base64 decoding, random hex tokens, clock readings, URL and form
//! handling, JSON conversion between script values and JSON documents,
//! HTML querying with resource limits, and an HTTP cookie session store.
#![allow(unused_imports)]

pub mod base64;
pub mod random;
pub mod time;
pub mod text;
pub mod json;
pub mod cookies;
pub mod pairs;
pub mod url;
pub mod html;
pub mod http;
