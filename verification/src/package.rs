pub mod gradle;
pub mod maven;
pub mod npm;
