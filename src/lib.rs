pub mod array;
pub mod default;
pub mod path;
pub mod programs;
pub mod symbolic;
