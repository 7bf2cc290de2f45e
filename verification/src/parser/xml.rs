pub mod parsexml;
pub mod qname;
pub mod value;
pub mod xdmerror;
pub mod xmlstring;
