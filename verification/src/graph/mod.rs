pub mod cycles;
pub mod stable;
pub mod indexed;
