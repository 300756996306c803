pub mod components;
pub mod fonts;
pub mod generation;
pub mod input;
pub mod systems;
pub mod timing;
pub mod world;
