//! What holds of the library as a whole, stated of what goes in and what comes
//! out.

pub mod data;
pub mod installing;
pub mod offers;
pub mod requests;
pub mod texts;
pub mod tuples;
pub mod views;
