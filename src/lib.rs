//! A key-value store core: message types, a length-prefixed frame codec with
//! optional compression, table storage, and a request-dispatching service
//! with hooks around each request.
pub mod error;
pub mod frame;
pub mod message;
pub mod service;
pub mod storage;

pub use error::KvError;
pub use frame::{decode_frame, decode_header, encode_frame, header_of, COMPRESSION_LIMIT, LEN_LEN};
pub use message::{
    CommandRequest, CommandResponse, Hdel, Hexist, Hget, Hgetall, Hset, Kvpair, RequestData, Value,
};
pub use service::{
    assert_res_error, assert_res_ok, dispatch, CommandService, NoHook, Notify, NotifyMut, Service,
    ServiceInner,
};
pub use storage::{MemTable, Storage, Tables};
