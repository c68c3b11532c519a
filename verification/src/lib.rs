//! ARM/Thumb instruction execution over permission-checked guest memory,
//! together with the pure helpers of the MRP extension runtime.

pub mod error;
pub mod text;
pub mod memory;
pub mod cpu_model;
pub mod cpu;
pub mod push_pop;
pub mod slots;
pub mod guest_run;
pub mod exec_range;
pub mod heap;
pub mod heap_release;
pub mod heap_io;
pub mod heap_reserve;
pub mod output_claim;
pub mod compact_output;
pub mod ownership;
pub mod rollback;
pub mod heap_free;
pub mod heap_alloc;
pub mod dns;
pub mod platform_commands;
pub mod layout;
pub mod heap_setup;
pub mod address_space;
pub mod runtime;
pub mod libc;
pub mod libc_services;
pub mod dispatch;
pub mod runtime_dispatch;
pub mod draw;
pub mod glyph;
pub mod printf;
pub mod md5;
pub mod md5_service;
pub mod parse;
pub mod config;
pub mod control;
pub mod graphics;
pub mod jpeg;
pub mod legacy_text;
pub mod bitmap_copy;
pub mod guest_strings;
pub mod http;
pub mod ram_package;
