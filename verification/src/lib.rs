pub mod bit;
pub mod cipher;
pub mod tables;
