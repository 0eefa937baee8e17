//! A bridge for audio and video over memory that a guest and its host share.
//!
//! The guest captures and writes into rings in a shared-memory region, the host reads
//! the rings, plays the audio and forwards the video. Neither waits for the other: the
//! guest overwrites what is oldest, and the host can tell when it was overtaken.
//!
//! - [`layout`] and [`format`] say how the region is laid out and what its headers
//!   carry.
//! - [`memory`] holds the cells through which the region is reached and enters each
//!   access to them in a ghost record, [`memory::mapping`] ties a region's cells to the
//!   one record of a handle; [`trace`] says what such a record does to a memory,
//!   [`interleave`] how the records of two processes mix.
//! - [`audio`] and [`video`] are the rings; [`audio_effects`] and [`video_effects`] state
//!   what each operation does to a memory at rest, [`audio_laws`] and [`video_laws`] what
//!   holds whatever the two sides do at the same time.
//! - [`wave`], [`videoinfo`] and [`fourcc`] deal with formats as the capture side and
//!   the player name them.
//! - [`capture`], [`dshow`], [`keepalive`], [`devices`], [`ivshmem`] and [`guest`] are
//!   the guest's sequences of system calls, [`forward`] and [`host`] the host's
//!   decisions. The caller makes the calls and hands their results in.
//! - [`host_args`] and [`vm_args`] are the command lines.

pub mod audio;
pub mod audio_effects;
pub mod audio_laws;
pub mod bits;
pub mod bytes;
pub mod capture;
pub mod cli;
pub mod devices;
pub mod dshow;
pub mod format;
pub mod forward;
pub mod fourcc;
pub mod guest;
pub mod host;
pub mod host_args;
pub mod interleave;
pub mod ivshmem;
pub mod keepalive;
pub mod layout;
pub mod memory;
pub mod text;
pub mod trace;
pub mod video;
pub mod video_effects;
pub mod video_laws;
pub mod videoinfo;
pub mod vm_args;
pub mod wave;
