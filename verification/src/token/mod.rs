//! Tokens and subtokens produced by splitting a filename.
pub mod main_token;
pub mod subtoken;
