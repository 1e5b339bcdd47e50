pub mod audio;
pub mod command;
pub mod dispatch;
pub mod number;
pub mod order;
pub mod utils;
pub mod state;
