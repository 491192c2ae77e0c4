//! sdroxide: the message layer of a software-defined radio.
pub mod bands;
pub mod bits;
pub mod eu_vhf;
pub mod fixed;
pub mod hints;
pub mod map_labels;
pub mod message;
pub mod mfsk;
pub mod modem;
pub mod msk144_controller;
pub mod pack;
pub mod reader;
pub mod slots;
pub mod text;
