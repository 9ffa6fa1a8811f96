//! The verified core of the mochiOS App Store client.
//!
//! - [`catalog`]: what the store's server offers.
//! - [`url`]: the addresses of the server.
//! - [`api`] and [`transfer`]: requests through the network service of mochiOS, and the fetching
//!   of their responses.
//! - [`preview_api`]: the same requests through `curl`.
//! - [`package`] and [`install`]: the download of a package in parts, and the installation of an
//!   app with it.
//! - [`listing`], [`icons`] and [`screen`]: what a user sees of the catalog.
//! - [`text`]: text as sequences of characters.
//!
//! Nothing here reads, sends or draws: the program around the library does.

pub mod api;
pub mod catalog;
pub mod icons;
pub mod install;
pub mod listing;
pub mod package;
pub mod preview_api;
pub mod screen;
pub mod text;
pub mod transfer;
pub mod url;
