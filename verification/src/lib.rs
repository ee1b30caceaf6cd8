//! The logic of a small interactive Unix shell: the command-line tokenizer,
//! the read–parse–run state machine, and the decisions each built-in command
//! takes (argument checks, target resolution, listing layout), kept apart
//! from the file-system and terminal I/O that the program around it performs.
pub mod text;
pub mod shell;
pub mod commands;
