//! Policy catalog, payload planning and platform-format logic for the
//! SlimBrave browser policy manager.

pub mod catalog;
pub mod domain;
pub mod fetch;
pub mod i18n;
pub mod keymap;
pub mod keys;
pub mod payload;
pub mod platform;
pub mod profile;
pub mod roundtrip;
pub mod settings;
pub mod split;
pub mod state;
pub mod text;
pub mod theme;
