//! A single-pass compiler for a small imperative language that targets the
//! 65C816 and produces a 32 KiB LoROM cartridge image.
//!
//! [`parser::program`] reads the text of a program, [`codegen::assemble`]
//! turns the program into the image. What both return is stated over the
//! models in [`grammar`], [`model`] and [`image`], and what the generator is
//! left with where it fails over [`stop`]; [`laws`], [`frame`], [`forward`]
//! and [`program`] hold what is proved of these models.

pub mod ast;
pub mod codegen;
pub mod forward;
pub mod frame;
pub mod grammar;
pub mod image;
pub mod laws;
mod lexer;
pub mod model;
pub mod names;
pub mod parser;
pub mod program;
mod steps;
pub mod stop;
mod text;
