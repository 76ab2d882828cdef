//! The log-capture core of a container monitor.
//!
//! A supervised process has two output channels. What arrives on them is cut
//! into lines, each line becomes one record, and every configured driver
//! appends the records to a file of its own, starting the file over when a
//! size limit is crossed.
//!
//! Nothing here touches a file. A driver answers each request with a
//! [`script::Script`]: the file operations to carry out, in order, between the
//! bookkeeping steps they belong to. The caller performs the operations and
//! reports how far it came; `commit` then brings the driver's state up to that
//! point. A driver therefore never claims an open file or a byte count that
//! the file system has not granted.
pub mod pipe;
pub mod lines;
pub mod error;
pub mod script;
pub mod text;
pub mod record;
pub mod driver;
pub mod json_logger;
pub mod cri_logger;
pub mod container_log;
pub mod laws;
