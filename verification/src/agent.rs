pub mod fetch;
pub mod fs;
pub mod protocol;
