//! Secret-gift assignment: each participant is paired with another
//! participant to give a gift to, subject to social constraints.
//!
//! The library extracts participant names from free-form text, then
//! repeatedly samples a random pairing and validates it with four
//! structural checks (no self-gifting, no gifting within one family,
//! one single cycle over the whole group, no duplicated ordered
//! family-to-family pair) until a candidate passes all of them.

pub mod checks;
pub mod circle;
pub mod config;
pub mod engine;
pub mod msg;
pub mod parse;
pub mod person;

pub use checks::check_assignments;
pub use checks::check_family;
pub use checks::check_family_to_family;
pub use checks::check_person_to_itself;
pub use circle::check_full_circle;
pub use config::Config;
pub use engine::generate_assignment;
pub use engine::get_valid_assignment;
pub use parse::parse_names;
pub use person::Assignment;
pub use person::Person;
