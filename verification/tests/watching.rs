//! Watches and notifications.

use librados::error::RadosError;
use librados::nullable::as_elements;
use librados::watch::{
    decode_notify_response, CloseStep, NotifyNext, RawAck, WatchCall,
};
use librados::{
    CString, Duration, IoCtx, Notification, NotifyAck, NotifyResponse, NotifyTimeout, Rados,
};

fn c(s: &str) -> CString {
    CString::new(s.as_bytes()).unwrap()
}

fn io() -> IoCtx {
    let rados = Rados::create().created(0, 77).unwrap();
    rados.create_ioctx("pool").unwrap().opened(0, 9).unwrap()
}

fn silence() -> NotifyResponse {
    NotifyResponse { acks: Vec::new(), timeouts: Vec::new() }
}

#[test]
fn a_watch_is_registered_without_a_timeout_of_its_own() {
    let call = io().watch("watched").unwrap();
    assert_eq!(
        call,
        WatchCall { ioctx: 9, cluster: 77, oid: c("watched"), timeout: 0 }
    );
    assert_eq!(call.registered(-2, 1), Err(RadosError::NotFound));
    assert_eq!(
        call.registered(-libc::ENOTCONN, 1),
        Err(RadosError::Rados(libc::ENOTCONN))
    );
}

#[test]
fn a_watch_is_closed_step_by_step() {
    let mut watch = io().watch("watched").unwrap().registered(0, 123).unwrap();
    assert_eq!(
        watch.close_step(),
        Some(CloseStep::Unwatch { ioctx: 9, handle: 123 })
    );
    assert_eq!(watch.close_step(), Some(CloseStep::Flush { cluster: 77 }));
    assert_eq!(watch.close_step(), Some(CloseStep::Release));
    assert_eq!(watch.close_step(), None);
    assert_eq!(watch.close_step(), None);
}

#[test]
fn a_notification_is_delivered_with_its_payload() {
    assert_eq!(
        Notification::delivered(1, 2, Some(b"ping".to_vec())),
        Notification { notify_id: 1, notifier_id: 2, payload: b"ping".to_vec() }
    );
    assert_eq!(
        Notification::delivered(3, 4, None),
        Notification { notify_id: 3, notifier_id: 4, payload: Vec::new() }
    );
}

#[test]
fn every_notification_is_acked() {
    let call = io().watch("watched").unwrap();
    let ack = call.ack(5, 6, Some(b"ack-1".to_vec()));
    assert_eq!(ack.ioctx, 9);
    assert_eq!(ack.oid, &c("watched"));
    assert_eq!((ack.notify_id, ack.handle), (5, 6));
    assert_eq!(ack.reply, b"ack-1");
    assert_eq!(ack.reply_len, 5);
    let ack = call.ack(7, 8, None);
    assert_eq!(ack.reply, b"");
    assert_eq!(ack.reply_len, 0);
}

#[test]
fn a_notify_call_carries_payload_and_timeout() {
    let io = io();
    let call = io.notify("o", b"ping", Duration::from_millis(500)).unwrap();
    assert_eq!(call.ioctx, 9);
    assert_eq!(call.oid, c("o"));
    assert_eq!(call.payload, b"ping");
    assert_eq!(call.payload_len, 4);
    assert_eq!(call.timeout_ms, 1000);
    let call = io.notify("o", b"", Duration::from_secs(0)).unwrap();
    assert_eq!(call.payload_len, 0);
    assert_eq!(call.timeout_ms, 0);
    assert!(matches!(
        io.notify("o\0", b"", Duration::from_secs(u64::MAX)),
        Err(RadosError::Nul(_))
    ));
}

#[test]
fn what_follows_a_notify_call() {
    let io = io();
    let call = io.notify("o", b"ping", Duration::from_secs(2)).unwrap();
    assert_eq!(call.returned(0, Some(10)), NotifyNext::Decode);
    assert_eq!(call.returned(0, None), NotifyNext::Done(Ok(silence())));
    assert_eq!(call.returned(0, Some(0)), NotifyNext::Done(Ok(silence())));
    // A watcher that is late is no failure of the call.
    assert_eq!(call.returned(-libc::ETIMEDOUT, Some(10)), NotifyNext::Decode);
    assert_eq!(
        call.returned(-libc::ETIMEDOUT, None),
        NotifyNext::Done(Ok(silence()))
    );
    assert_eq!(
        call.returned(-libc::ENOENT, Some(10)),
        NotifyNext::Done(Err(RadosError::NotFound))
    );
    assert_eq!(
        call.returned(-libc::EIO, None),
        NotifyNext::Done(Err(RadosError::Rados(libc::EIO)))
    );
}

#[test]
fn a_response_is_made_of_acks_and_timeouts() {
    let acks = vec![
        RawAck { notifier_id: 1, cookie: 2, payload: Some(b"ack-1".to_vec()) },
        RawAck { notifier_id: 3, cookie: 4, payload: None },
    ];
    let timeouts = vec![NotifyTimeout { notifier_id: 5, cookie: 6 }];
    assert_eq!(
        decode_notify_response(0, Some(acks), Some(timeouts)),
        Ok(NotifyResponse {
            acks: vec![
                NotifyAck { notifier_id: 1, cookie: 2, payload: b"ack-1".to_vec() },
                NotifyAck { notifier_id: 3, cookie: 4, payload: Vec::new() },
            ],
            timeouts: vec![NotifyTimeout { notifier_id: 5, cookie: 6 }],
        })
    );
}

#[test]
fn arrays_that_are_null_have_no_elements() {
    assert_eq!(decode_notify_response(0, None, None), Ok(silence()));
    assert_eq!(as_elements(None::<Vec<u8>>), Vec::<u8>::new());
    assert_eq!(as_elements(Some(vec![1, 2])), vec![1, 2]);
}

#[test]
fn a_response_that_cannot_be_decoded_is_an_error() {
    assert_eq!(
        decode_notify_response(-libc::EINVAL, None, None),
        Err(RadosError::Rados(libc::EINVAL))
    );
}
