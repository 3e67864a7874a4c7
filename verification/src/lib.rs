pub mod text;
pub mod index;
pub mod rules;
pub mod namemap;
pub mod output;
pub mod extract;
pub mod walk;
pub mod parse;
pub mod scan;
