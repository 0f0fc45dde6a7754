//! Verified core of the Bitcoin PIR benchmark runners.
pub mod byte_laws;
pub mod bytes;
pub mod catalog;
pub mod cli;
pub mod csv;
pub mod csv_laws;
pub mod dpf;
pub mod dpf_laws;
pub mod dpf_trial;
pub mod hint_laws;
pub mod hints;
pub mod kinds;
pub mod layout;
pub mod layout_laws;
pub mod merkle;
pub mod merkle_laws;
pub mod merkle_round_laws;
pub mod merkle_trial;
pub mod online;
pub mod online_laws;
pub mod online_trial;
mod parallel;
pub mod path;
pub mod path_laws;
pub mod random;
pub mod random_laws;
pub mod scan;
pub mod select;
pub mod tally;
pub mod text;
pub mod timing;
pub mod tree;
pub mod tree_format;
pub mod tree_laws;
pub mod verify_laws;
