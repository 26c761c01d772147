//! The booking domain: validated names, hosts and rooms, customer emails and
//! the booking session.

pub mod booking;
pub mod customer;
pub mod sealed_trait;
pub mod state;

pub use booking::{GeneralName, Host, HostCategory, NewHost, NewRoom, Room};
pub use customer::CustomerEmail;
