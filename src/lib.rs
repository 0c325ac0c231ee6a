pub mod allocator;
pub mod catalog;
pub mod coords;
pub mod direction;
pub mod font;
pub mod mesher;
pub mod terrain;
pub mod world;
