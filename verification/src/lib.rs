//! File sharing between devices: the transfer protocol, the relay and the application state.
pub mod app;
pub mod book;
pub mod bytes;
pub mod clock;
pub mod crypto;
pub mod exchange;
pub mod history;
pub mod icon;
pub mod inbox;
pub mod license;
pub mod link;
pub mod monitor;
pub mod numbers;
pub mod offer;
pub mod order;
pub mod paths;
pub mod peers;
pub mod prefs;
pub mod queue;
pub mod receiver;
pub mod relay;
pub mod remote;
pub mod sender;
pub mod settings;
pub mod sync;
pub mod text;
pub mod textmap;
pub mod transfer;
pub mod update;
pub mod utils;
pub mod view;
