pub mod errors;
pub mod interval;
pub mod note;
