//! A small pattern matcher: literals, `\d`, `\w`, bracket classes, the
//! anchors `^` and `$`, and the postfix quantifiers `+` and `?`.

pub mod token;
pub mod lexer;
pub mod matcher;
pub mod engine;
pub mod laws;
