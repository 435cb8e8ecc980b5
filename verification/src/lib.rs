pub mod api;
pub mod app;
pub mod capture;
pub mod chance;
pub mod chimes;
pub mod failure;
pub mod ffi;
pub mod google;
pub mod interface;
pub mod json;
pub mod keymap;
pub mod models;
pub mod media;
pub mod members;
pub mod order;
pub mod permissions;
pub mod protocol;
pub mod realtime;
pub mod reconnect;
pub mod room_code;
pub mod room;
pub mod routes;
pub mod session;
pub mod speaking;
pub mod text;
pub mod update;
pub mod watching;
