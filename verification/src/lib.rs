//! Correlation of captured D-Bus traffic: pairing of calls with their replies
//! and the history of which connection owned which well-known bus name.
//!
//! A [`message_list::MessageList`] takes the messages of a capture in the
//! order of their arrival. It gives each its receipt index, pairs each reply
//! with the call it answers, and keeps a directory of the bus names seen, a
//! [`bus_name_list::BusNameList`]. Each entry of the directory, a
//! [`bus_name_item::BusNameItem`], holds the history of the well-known names
//! that a connection held, so that a name can be resolved as of any message.
//! A [`filtered_message_model::FilteredMessageModel`] shows the part of a
//! stream that a set of filters lets through.
//!
//! What each operation does is stated over plain mathematical values in
//! [`snapshot_log`], [`directory`], [`stream`] and [`projection`]; what
//! always holds of the results is proved there and in [`ownership`].

pub mod bus_name;
pub mod bus_name_item;
pub mod bus_name_list;
pub mod directory;
pub mod filtered_bus_name_model;
pub mod filtered_message_model;
pub mod frame;
pub mod message;
pub mod message_list;
pub mod message_tag;
pub mod message_type;
pub mod name_args;
pub mod name_map;
pub mod ownership;
pub mod position_index;
pub mod projection;
pub mod snapshot_log;
pub mod statistics;
pub mod stream;
pub mod timestamp;
pub mod wk_name_set;
