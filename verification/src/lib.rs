pub mod app;
pub mod chars;
pub mod cli;
pub mod clock;
pub mod editor;
pub mod editor_state;
pub mod editor_view;
pub mod events;
pub mod game_state;
pub mod ghost;
pub mod graphemes;
pub mod highlight;
pub mod highlighting;
pub mod input;
pub mod keyed;
pub mod line;
pub mod line_stylizer;
pub mod modes;
pub mod network;
pub mod protocol;
pub mod record;
pub mod report;
pub mod sorted;
pub mod session;
pub mod text_coord;
