//! A storage facade for SD-card style media: a controller binds a block
//! device and a time source, and offers the ordered volume / directory /
//! file lifecycle (mount, open, read, write, close) with the handle
//! discipline and error taxonomy proved as contracts.

pub mod clock;
pub mod controller;
pub mod device;
