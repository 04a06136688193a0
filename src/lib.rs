//! Persistent state and remote access for a battery-powered ultrasonic flow
//! meter: a checksummed, redundantly stored configuration record, circular
//! flow-history buffers on a byte-addressable device, and a Modbus RTU slave.
pub mod checksum;
pub mod frame;
pub mod gui;
pub mod history;
pub mod keyboard;
pub mod modbus;
pub mod modbus_handler;
pub mod options;
pub mod storage;
