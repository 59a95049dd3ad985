pub mod grid;
pub mod rectangle;
pub mod screen;
pub mod style;
pub mod text;
