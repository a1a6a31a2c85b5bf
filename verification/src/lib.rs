//! The decisions of a RADOS client, apart from the calls into librados itself.

pub mod answers;
pub mod byte_map;
pub mod conn;
pub mod cstring;
pub mod duration;
pub mod error;
pub mod ioctx;
pub mod locks;
pub mod next;
pub mod nullable;
pub mod object;
pub mod omap;
pub mod packed;
pub mod read_op;
pub mod watch;
pub mod write_op;

pub use byte_map::{ByteMap, ByteSet};
pub use conn::Rados;
pub use cstring::CString;
pub use duration::Duration;
pub use error::RadosError;
pub use ioctx::{IoCtx, ObjectStat};
pub use locks::{Locker, Lockers, LOCK_FLAG_MAY_RENEW, LOCK_FLAG_MUST_RENEW};
pub use next::Next;
pub use omap::{OmapKeys, OmapPage};
pub use read_op::{Handle, OpNumbers, ReadOp, ReadResults};
pub use watch::{Notification, NotifyAck, NotifyResponse, NotifyTimeout, Watch};
pub use write_op::{CmpHandle, WriteError, WriteOp, CMPXATTR_OP_EQ};
