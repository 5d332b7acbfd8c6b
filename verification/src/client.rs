//! The client side: building outbound frames and classifying what the
//! server sends back.

pub mod message;
