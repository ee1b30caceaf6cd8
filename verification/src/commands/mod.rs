//! The decisions of the built-in commands.
pub mod mode;
pub mod ls;
pub mod listing;
pub mod echo;
pub mod cat;
pub mod cd;
pub mod cp;
pub mod mkdir;
pub mod mv;
pub mod pwd;
pub mod rm;
pub mod simple;
