//! Turning the GFW list into dnsmasq rules, and the small pieces of text
//! processing around it.

pub mod console;
pub mod gfwlist;
pub mod pool;
pub mod shapes;
pub mod text;
pub mod words;
