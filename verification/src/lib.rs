//! Parameter and state engine of a container rack configurator.
//!
//! A view of the configurator starts from seed defaults, takes over what the
//! query parameters of its location say, decodes what the user submits, has
//! the result rendered, and publishes the committed configuration as a new
//! location. This crate holds the rules of that cycle:
//!
//! - [`codec`] decodes raw text into integers and decimals, with fallback to
//!   a default, over the digit strings of [`digits`] and the exact decimals
//!   of [`decimal`];
//! - [`config`] holds the configuration and the seed defaults;
//! - [`bridge`] reads the initial configuration from the query parameters and
//!   writes a configuration back as a location;
//! - [`store`] keeps the committed configuration with its rendered output,
//!   names the download, and shows or hides the export affordance;
//! - [`form`] turns the raw fields of a submission into a committed and
//!   published configuration;
//! - [`catalog`] lists the containers to choose from.
//!
//! Whatever is decoded is taken as it is: no range is enforced on any
//! parameter, and a field that does not parse silently takes its default.

pub mod bridge;
pub mod catalog;
pub mod codec;
pub mod config;
pub mod decimal;
pub mod digits;
pub mod form;
pub mod store;
