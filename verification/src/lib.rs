pub mod text;
pub mod collections;
pub mod json;
pub mod desktop;
pub mod watch_friend;
pub mod calendar;
pub mod watch_all;
pub mod doc_upload;
pub mod media;
pub mod json_rpc;
pub mod helpers;
