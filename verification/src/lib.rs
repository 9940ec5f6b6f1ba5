pub mod canvas;
pub mod text;
pub mod kitty;
pub mod framebuffer;
pub mod terminal;
pub mod layout;
pub mod runtime;
pub mod renderer;
pub mod diagnostics;
pub mod app;
pub mod scan;
pub mod metrics;
pub mod input;
pub mod assets;
pub mod render;
pub mod visual;
pub mod cat;
pub mod cafe;
