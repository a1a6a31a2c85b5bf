//! Advisory locks, and the list of their holders.

use librados::duration::TimeVal;
use librados::error::RadosError;
use librados::ioctx::IoCall;
use librados::locks::{zip_lockers, ListLockers, Locker, LockerSizes, Lockers, LockersReply};
use librados::{
    CString, Duration, IoCtx, Next, Rados, LOCK_FLAG_MAY_RENEW, LOCK_FLAG_MUST_RENEW,
};

fn c(s: &str) -> CString {
    CString::new(s.as_bytes()).unwrap()
}

fn io() -> IoCtx {
    let rados = Rados::create().created(0, 77).unwrap();
    rados.create_ioctx("pool").unwrap().opened(0, 9).unwrap()
}

fn sizes(tag: usize, clients: usize, cookies: usize, addrs: usize) -> LockerSizes {
    LockerSizes { tag, clients, cookies, addrs }
}

/// The reply of librados for buffers that are large enough.
fn reply(tag: &[u8], clients: &[u8], cookies: &[u8], addrs: &[u8]) -> LockersReply {
    let filled = |bytes: &[u8]| {
        let mut buf = bytes.to_vec();
        buf.resize(bytes.len() + 16, 0);
        buf
    };
    LockersReply {
        ret: 1,
        exclusive: 1,
        used: sizes(tag.len(), clients.len(), cookies.len(), addrs.len()),
        tag: filled(tag),
        clients: filled(clients),
        cookies: filled(cookies),
        addrs: filled(addrs),
    }
}

fn done(reply: LockersReply) -> Result<Lockers, RadosError> {
    match io().list_lockers("o", "l").unwrap().step(reply) {
        Next::Done(res) => res,
        other => panic!("{other:?}"),
    }
}

#[test]
fn lock_flags_are_a_mask() {
    assert_eq!(LOCK_FLAG_MAY_RENEW, 1);
    assert_eq!(LOCK_FLAG_MUST_RENEW, 2);
}

#[test]
fn a_lock_is_taken_for_a_time() {
    let io = io();
    let locked = |duration, flags| {
        Ok(IoCall::LockExclusive {
            ioctx: 9,
            oid: c("locked"),
            name: c("lease"),
            cookie: c("cookie-a"),
            desc: c("holder A"),
            duration,
            flags,
        })
    };
    let lock = |duration, flags| {
        io.lock_exclusive("locked", "lease", "cookie-a", "holder A", duration, flags)
    };
    assert_eq!(lock(None, 0), locked(None, 0));
    assert_eq!(
        lock(Some(Duration::from_secs(30)), 0),
        locked(Some(TimeVal { tv_sec: 30, tv_usec: 0 }), 0)
    );
    assert_eq!(
        lock(Some(Duration::from_millis(1500)), LOCK_FLAG_MUST_RENEW),
        locked(Some(TimeVal { tv_sec: 1, tv_usec: 500_000 }), 2)
    );
}

#[test]
fn a_lock_is_given_back_or_broken() {
    let io = io();
    assert_eq!(
        io.unlock("o", "lease", "cookie-a"),
        Ok(IoCall::Unlock { ioctx: 9, oid: c("o"), name: c("lease"), cookie: c("cookie-a") })
    );
    assert_eq!(
        io.break_lock("o", "lease", "client.4", "cookie-a"),
        Ok(IoCall::BreakLock {
            ioctx: 9,
            oid: c("o"),
            name: c("lease"),
            client: c("client.4"),
            cookie: c("cookie-a"),
        })
    );
}

#[test]
fn lock_strings_are_checked_in_their_order() {
    let io = io();
    let refused = |res: Result<IoCall<'static>, RadosError>| match res {
        Err(RadosError::Nul(e)) => e.into_vec(),
        other => panic!("{other:?}"),
    };
    let (a, b, d, e) = ("a\0", "b\0", "d\0", "e\0");
    assert_eq!(refused(io.lock_exclusive(a, b, d, e, None, 0)), b"a\0");
    assert_eq!(refused(io.lock_exclusive("", b, d, e, None, 0)), b"b\0");
    assert_eq!(refused(io.lock_exclusive("", "", d, e, None, 0)), b"d\0");
    assert_eq!(refused(io.lock_exclusive("", "", "", e, None, 0)), b"e\0");
    assert_eq!(refused(io.unlock(a, b, d)), b"a\0");
    assert_eq!(refused(io.unlock("", b, d)), b"b\0");
    assert_eq!(refused(io.unlock("", "", d)), b"d\0");
    assert_eq!(refused(io.break_lock(a, b, d, e)), b"a\0");
    assert_eq!(refused(io.break_lock("", b, d, e)), b"b\0");
    assert_eq!(refused(io.break_lock("", "", d, e)), b"d\0");
    assert_eq!(refused(io.break_lock("", "", "", e)), b"e\0");
    let refused_list = |res: Result<ListLockers, RadosError>| match res {
        Err(RadosError::Nul(e)) => e.into_vec(),
        other => panic!("{other:?}"),
    };
    assert_eq!(refused_list(io.list_lockers(a, b)), b"a\0");
    assert_eq!(refused_list(io.list_lockers("", b)), b"b\0");
}

#[test]
fn holders_are_asked_for_with_small_buffers_first() {
    assert_eq!(
        io().list_lockers("o", "lease"),
        Ok(ListLockers {
            ioctx: 9,
            oid: c("o"),
            name: c("lease"),
            sizes: sizes(64, 64, 64, 64),
        })
    );
}

#[test]
fn buffers_that_are_too_small_grow_to_what_is_needed() {
    let mut small = reply(b"\0", b"", b"", b"");
    small.ret = -(libc::ERANGE as isize);
    small.used = sizes(1, 12, 101, 20);
    match io().list_lockers("o", "lease").unwrap().step(small) {
        Next::Again(call) => assert_eq!(
            call,
            ListLockers {
                ioctx: 9,
                oid: c("o"),
                name: c("lease"),
                sizes: sizes(1, 12, 101, 20),
            }
        ),
        other => panic!("{other:?}"),
    }
}

#[test]
fn holders_are_listed_with_their_strings() {
    let lockers = done(reply(
        b"tag\0",
        b"client.1\0client.22\0",
        b"cookie-a\0\0",
        b"v1:127.0.0.1:0/1\0v1:127.0.0.1:0/2\0",
    ))
    .unwrap();
    assert!(lockers.exclusive);
    assert_eq!(lockers.tag, "tag");
    assert_eq!(
        lockers.lockers,
        vec![
            Locker {
                client: "client.1".to_string(),
                cookie: "cookie-a".to_string(),
                addr: "v1:127.0.0.1:0/1".to_string(),
            },
            Locker {
                client: "client.22".to_string(),
                cookie: String::new(),
                addr: "v1:127.0.0.1:0/2".to_string(),
            },
        ]
    );
}

#[test]
fn a_lock_that_nobody_holds_has_no_holders() {
    let mut nobody = reply(b"\0", b"", b"", b"");
    nobody.ret = 0;
    nobody.exclusive = 0;
    assert_eq!(
        done(nobody),
        Ok(Lockers { exclusive: false, tag: String::new(), lockers: Vec::new() })
    );
}

#[test]
fn a_long_cookie_is_listed_whole() {
    let long = "c".repeat(100);
    let mut cookies = long.clone().into_bytes();
    cookies.push(0);
    let lockers = done(reply(b"\0", b"client.1\0", &cookies, b"v1:x/1\0")).unwrap();
    assert_eq!(lockers.lockers.len(), 1);
    assert_eq!(lockers.lockers[0].cookie, long);
}

#[test]
fn strings_that_are_not_utf8_are_read_with_replacements() {
    let lockers = done(reply(b"\xff\0", b"\x80a\0", "\u{e9}\u{1F600}\0".as_bytes(), b"\xe2\x82\0")).unwrap();
    assert_eq!(lockers.tag, "\u{FFFD}");
    assert_eq!(lockers.lockers[0].client, "\u{FFFD}a");
    assert_eq!(lockers.lockers[0].cookie, "\u{e9}\u{1F600}");
    assert_eq!(lockers.lockers[0].addr, "\u{FFFD}");
}

#[test]
fn a_failed_list_of_holders_is_an_error() {
    let mut failed = reply(b"", b"", b"", b"");
    failed.ret = -(libc::ENOENT as isize);
    assert_eq!(done(failed), Err(RadosError::NotFound));
    let mut failed = reply(b"", b"", b"", b"");
    failed.ret = -(libc::EIO as isize);
    assert_eq!(done(failed), Err(RadosError::Rados(libc::EIO)));
}

#[test]
fn lengths_out_of_their_buffers_are_noticed() {
    assert!(reply(b"\0", b"", b"", b"").check());
    assert!(!reply(b"", b"", b"", b"").check());
    let mut long = reply(b"\0", b"a\0", b"", b"");
    long.used.clients = long.clients.len() + 1;
    assert!(long.check());
    long.used.clients = long.clients.len() + 2;
    assert!(!long.check());
    let mut long = reply(b"\0", b"", b"a\0", b"");
    long.used.cookies = long.cookies.len() + 2;
    assert!(!long.check());
    let mut long = reply(b"\0", b"", b"", b"a\0");
    long.used.addrs = long.addrs.len() + 2;
    assert!(!long.check());
    let mut long = reply(b"\0", b"", b"", b"");
    long.used.tag = long.tag.len() + 2;
    assert!(!long.check());
}

#[test]
fn holders_reach_as_far_as_all_three_lists() {
    let list = |n: usize, s: &str| (0..n).map(|i| format!("{s}{i}")).collect::<Vec<String>>();
    assert_eq!(zip_lockers(list(3, "a"), list(2, "b"), list(4, "c")).len(), 2);
    assert_eq!(zip_lockers(list(1, "a"), list(2, "b"), list(4, "c")).len(), 1);
    assert_eq!(zip_lockers(list(3, "a"), list(2, "b"), list(0, "c")).len(), 0);
    assert_eq!(
        zip_lockers(list(1, "a"), list(1, "b"), list(1, "c")),
        vec![Locker {
            client: "a0".to_string(),
            cookie: "b0".to_string(),
            addr: "c0".to_string(),
        }]
    );
}
