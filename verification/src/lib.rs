//! A small browser engine: HTML and CSS parsing, style computation,
//! block/inline layout, display-list painting and a text renderer.

pub mod text;
pub mod split;
pub mod dom;
pub mod css;
pub mod html;
pub mod style;
pub mod layout;
pub mod paint;
pub mod renderer;
pub mod source;
pub mod viewport;
pub mod address;
pub mod tabs;
pub mod gui;
pub mod frame;
pub mod raster;
pub mod shell;
pub mod page;
pub mod chrome;
pub mod hit;
pub mod number;
