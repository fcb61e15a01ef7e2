pub mod exec;
pub mod test;
