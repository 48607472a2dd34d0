pub mod property;
pub mod proxy_access;
