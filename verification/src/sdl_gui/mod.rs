//! The plain values of the SDL component GUI: which mouse button
//! clicked, whether a point lies on a component, whether an event was
//! used, and how a layout fills its space.
pub mod components;
pub mod layout;
