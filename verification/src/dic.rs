pub mod lexicon;
pub mod lexicon_set;
pub mod read;
pub mod strings_cache;
pub mod subset;
pub mod word_id;
pub mod word_info;
pub mod binary_loader;
pub mod build;
pub mod connect;
pub mod grammar;
