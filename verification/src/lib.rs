//! A small 8-bit virtual machine: a processor with sixteen 8-bit registers,
//! 4096 bytes of memory, a call stack and two 60 Hz countdown timers, plus a
//! 64x32 monochrome framebuffer written by XOR sprite compositing with
//! collision detection.
//!
//! The host display, audio and keyboard backends are abstract collaborators
//! ([`display::DisplayOutput`], [`audio::AudioOutput`], [`input::InputReciever`]);
//! a driver loop outside this crate fetches, dispatches and advances frames.

pub mod audio;
pub mod cpu;
pub mod default_fontset;
pub mod display;
pub mod input;
pub mod state;

mod interpreted_cpu;
pub use interpreted_cpu::InterpretedCpu;
