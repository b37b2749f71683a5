//! Authentication: the service layer through which all user mutations go.

pub mod service;
