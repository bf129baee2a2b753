pub mod types_and_constants;
pub mod vec2;
pub mod collision;
pub mod assets;
pub mod movable;
pub mod sprite;
pub mod ptero;
pub mod dino;
pub mod animation;
pub mod ecs;
pub mod random;
pub mod obstacles;
pub mod input;
pub mod ui;
pub mod game;
