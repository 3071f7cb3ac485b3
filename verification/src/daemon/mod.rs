pub mod client;
pub mod dispatch;
pub mod listener;
pub mod state;
