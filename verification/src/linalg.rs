pub mod primtrait;
pub mod vector;
