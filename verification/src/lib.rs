//! Counters, phases and the store that ties them into a tree, with the
//! arithmetic of shiny-hunting odds and the small state holders of the
//! user interface.

pub mod account;
pub mod clock;
pub mod color;
pub mod confirm;
pub mod context_menu;
pub mod counter_list;
pub mod error;
pub mod forms;
pub mod history;
pub mod icon;
pub mod infobox;
pub mod legacy;
pub mod legacy_counter;
pub mod message;
pub mod nodes;
pub mod numtext;
pub mod page;
pub mod screen;
pub mod sort;
pub mod sort_search;
pub mod sorting;
pub mod store;
pub mod store_laws;
pub mod time_delta;
pub mod v2;

pub use error::AppError;
