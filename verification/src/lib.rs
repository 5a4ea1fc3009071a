//! Control logic for a two-core handheld device: one core samples a five-key
//! keypad and speaks a line-oriented `key=value` text protocol over a serial
//! link, the other renders a fixed ten-line text grid on a small display.
//!
//! This crate holds the verified core of that firmware: the decimal and
//! `key=value` text codecs, the debounce and key-priority engine, the outbound
//! event encoder, the inbound message parser with its frame assembler, the
//! single-slot cross-core mailbox, and the line-grid render planner.  The
//! hardware edges (pins, UART, SPI display) live outside and hand these
//! modules plain values.

pub mod decimal;
pub mod encoder;
pub mod engine;
pub mod frame;
pub mod keys;
pub mod kv;
pub mod mailbox;
pub mod messages;
pub mod render;
