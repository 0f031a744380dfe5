//! Verified core of the hooks runtime.
use vstd::prelude::*;

pub mod account;
pub mod account_downlink_worker;
pub mod achievement_adapters;
pub mod achievement_worker;
pub mod bytes;
pub mod callback_dispatch;
pub mod callback_notify;
pub mod capability;
pub mod client_id;
pub mod cloud;
pub mod cloud_http;
pub mod code_shape;
pub mod current_app;
pub mod depot;
pub mod env;
pub mod install;
pub mod internal_callbacks;
pub mod json;
pub mod legacy_cdkey;
pub mod lists;
pub mod maps;
pub mod network;
pub mod ownership;
pub mod package;
pub mod packet_dump;
pub mod packet_report;
pub mod packet_simulation;
pub mod packet_tool;
pub mod packet_watch;
pub mod paths;
pub mod playtime_downlink;
pub mod runtime;
pub mod steam_context;
pub mod steam_session;
pub mod text;
pub mod ticket;
pub mod work_item;

verus! {

} // verus!
