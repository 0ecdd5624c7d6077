pub mod dispatch;
pub mod scale;
pub mod storage;
pub mod multidao;
pub mod template;
pub mod exchangeable;
pub mod calls;
pub mod holdings;
pub mod laws;
pub mod remote_read;
