//! Verified core of a peer-to-peer encrypted messenger.
#![allow(unused_imports)]

pub mod admin;
pub mod backup;
pub mod blob;
pub mod calls;
pub mod client;
pub mod codec;
pub mod contacts;
pub mod conversation;
pub mod crypto;
pub mod devices;
pub mod digest;
pub mod distributed;
pub mod files;
pub mod group;
pub mod identity;
pub mod incoming;
pub mod history;
pub mod ids;
pub mod invite;
pub mod media;
pub mod network;
pub mod node;
pub mod ordered;
pub mod profile;
pub mod protocol;
pub mod search;
pub mod storage;
pub mod text;
pub mod transfers;
