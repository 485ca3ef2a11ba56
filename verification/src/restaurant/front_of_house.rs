//! Where guests are met and served.

pub mod hosting;
pub mod serving;
