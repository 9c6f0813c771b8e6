//! A simulation of the Enigma rotor cipher machine.
//!
//! The [`device`] module holds the machine: a plugboard, a stack of stepping
//! rotors and a reflector, composed into a self-inverse transform of one
//! character at a time.
pub mod device;
