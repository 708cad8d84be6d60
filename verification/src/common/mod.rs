pub mod strmap;
pub mod byte_utils;
pub mod protobuf_utils;
pub mod endian;
pub mod utf8;
pub mod pbmsg;
pub mod idmap;
