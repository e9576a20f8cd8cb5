pub mod body;
pub mod init;
pub mod math;
pub mod sim;
