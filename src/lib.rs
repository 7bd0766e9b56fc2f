//! A small browser rendering engine: HTML and CSS parsing, style
//! resolution, box layout and paint-list generation, plus a tiny script
//! interpreter that can read and change the document.
use vstd::prelude::*;

pub mod text;
pub mod dom;
pub mod window;
pub mod html_token;
pub mod html_parser;
pub mod css_token;
pub mod cssom;
pub mod css_parser;
pub mod style;
pub mod layout;
pub mod layout_view;
pub mod page;
pub mod js_token;
pub mod js_ast;
pub mod js_runtime;

verus! {

} // verus!
