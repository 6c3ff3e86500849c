//! Verified core of the Slint bindings for Dart: the text scanning, path
//! mapping, module-blob framing and value/envelope rules that the code
//! generator and the native runtime share.

pub mod blob;
pub mod bundle;
pub mod convert;
pub mod json;
pub mod module;
pub mod options;
pub mod paths;
pub mod runtime;
pub mod scan;
pub mod strmap;
pub mod text;
pub mod values;
