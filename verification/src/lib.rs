pub mod app_state;
pub mod cli;
pub mod config;
pub mod date;
pub mod day_pane;
pub mod ledger;
pub mod scroll_state;
pub mod text;
pub mod time_amount;
pub mod view;
