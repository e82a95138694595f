pub mod binary_search;
pub mod bubble_sorting;
pub mod calculator;
pub mod counter;
pub mod guess_game;
pub mod queue;
pub mod screen_app;
pub mod shapes;
pub mod stack;
pub mod temp_converter;
pub mod text;
pub mod utilities;
