//! A paged HTML/CSS engine's verified core.

pub mod cascade;
pub mod data_uri;
pub mod doclaws;
pub mod emit;
pub mod error;
pub mod html_layout;
pub mod image;
pub mod imagelaws;
pub mod layout;
pub mod markup;
pub mod node;
pub mod number;
pub mod page_html;
pub mod pagelaws;
pub mod readlaws;
pub mod paginate;
pub mod pdf;
pub mod render;
pub mod scan;
pub mod stamp;
pub mod stamp_font;
pub mod stamplaws;
pub mod style;
pub mod switch;
pub mod switchlaws;
pub mod tags;
pub mod template;
pub mod text;
