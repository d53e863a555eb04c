pub mod query;
pub mod not;
pub mod typle;
