//! The core of a command shell whose programs ask for capabilities.
//!
//! The library holds what the shell decides and computes; the program around it reads, prints
//! and talks to the kernel. Nothing here has side effects.
//!
//! - [`text`]: characters, words, numbers.
//! - [`syntax`]: the command language of words, quotes, variables, pipes and redirections.
//! - [`input`]: key presses and the line that is being typed.
//! - [`command`]: what a typed line asks for, the program that it names, and how the line ends.
//! - [`metadata`]: the files that describe an application.
//! - [`policy`]: the options that say how requests for capabilities are answered.
//! - [`capability`]: the requests, as values and as bytes.
//! - [`prompt`]: asking the user, and asking the capability service about the answer.
//! - [`service`]: asking the capability service which capabilities a program has.
//! - [`session`]: what each message makes the shell do.
//! - [`launch`]: what the kernel is handed to start a program.
//! - [`system`], [`wire`], [`font`], [`error`]: the edges.
//!
//! The modules whose names end in `_laws` prove what holds across functions.
pub mod capability;
pub mod capability_laws;
pub mod command;
pub mod command_laws;
pub mod error;
pub mod font;
pub mod font_laws;
pub mod input;
pub mod input_laws;
pub mod launch;
pub mod launch_laws;
pub mod metadata;
pub mod metadata_grammar_laws;
pub mod metadata_laws;
pub mod policy;
pub mod policy_laws;
pub mod prompt;
pub mod prompt_laws;
pub mod service;
pub mod session;
pub mod session_laws;
pub mod syntax;
pub mod syntax_grammar_laws;
pub mod syntax_join_laws;
pub mod syntax_laws;
pub mod system;
pub mod system_laws;
pub mod text;
pub mod text_laws;
pub mod wire;
pub mod wire_laws;
