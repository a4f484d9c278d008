//! A typed model of the configurable functions of a single-board computer's
//! GPIO pin header, together with the persisted JSON file format for a
//! user's pin configuration and its human-readable rendering.

pub mod json;
pub mod pins;
pub mod text;

pub use json::FormatError;
pub use pins::BCMPinNumber;
pub use pins::BoardPinNumber;
pub use pins::GPIOConfig;
pub use pins::InputPull;
pub use pins::PinDescription;
pub use pins::PinFunction;
pub use pins::PinLevel;
