pub mod infos;
pub mod layout;
pub mod parse;
pub mod raw;
pub mod variable_io;
