use russh::error::DispatchError;
use russh::message::{dispatch, MSG_TYPE};

#[test]
fn from_u8_names_each_known_tag() {
    assert_eq!(MSG_TYPE::from_u8(1), Ok(MSG_TYPE::SSH_MSG_DISCONNECT));
    assert_eq!(MSG_TYPE::from_u8(2), Ok(MSG_TYPE::SSH_MSG_IGNORE));
    assert_eq!(MSG_TYPE::from_u8(3), Ok(MSG_TYPE::SSH_MSG_UNIMPLEMENTED));
    assert_eq!(MSG_TYPE::from_u8(4), Ok(MSG_TYPE::SSH_MSG_DEBUG));
    assert_eq!(MSG_TYPE::from_u8(5), Ok(MSG_TYPE::SSH_MSG_SERVICE_REQUEST));
    assert_eq!(MSG_TYPE::from_u8(6), Ok(MSG_TYPE::SSH_MSG_SERVICE_ACCEPT));
    assert_eq!(MSG_TYPE::from_u8(20), Ok(MSG_TYPE::SSH_MSG_KEXINIT));
    assert_eq!(MSG_TYPE::from_u8(21), Ok(MSG_TYPE::SSH_MSG_NEWKEYS));
}

#[test]
fn from_u8_reports_every_other_tag_as_unknown() {
    let known = [1u8, 2, 3, 4, 5, 6, 20, 21];
    for n in 0..=255u8 {
        if !known.contains(&n) {
            assert_eq!(MSG_TYPE::from_u8(n), Err(DispatchError::UnknownMessage(n)));
        }
    }
}

#[test]
fn code_is_the_tag_that_names_the_type() {
    assert_eq!(MSG_TYPE::SSH_MSG_DISCONNECT.code(), 1);
    assert_eq!(MSG_TYPE::SSH_MSG_IGNORE.code(), 2);
    assert_eq!(MSG_TYPE::SSH_MSG_UNIMPLEMENTED.code(), 3);
    assert_eq!(MSG_TYPE::SSH_MSG_DEBUG.code(), 4);
    assert_eq!(MSG_TYPE::SSH_MSG_SERVICE_REQUEST.code(), 5);
    assert_eq!(MSG_TYPE::SSH_MSG_SERVICE_ACCEPT.code(), 6);
    assert_eq!(MSG_TYPE::SSH_MSG_KEXINIT.code(), 20);
    assert_eq!(MSG_TYPE::SSH_MSG_NEWKEYS.code(), 21);
    for n in 0..=255u8 {
        if let Ok(m) = MSG_TYPE::from_u8(n) {
            assert_eq!(m.code(), n);
        }
    }
}

#[test]
fn dispatch_goes_on_with_the_algorithm_negotiation_only() {
    assert_eq!(dispatch(20), Ok(()));
}

#[test]
fn dispatch_leaves_other_messages_unhandled() {
    for tag in [1u8, 2, 3, 4, 5, 6, 21] {
        assert_eq!(dispatch(tag), Err(DispatchError::UnhandledMessage(tag)));
    }
}

#[test]
fn dispatch_reports_unknown_tags() {
    for tag in [0u8, 7, 19, 22, 50, 80, 255] {
        assert_eq!(dispatch(tag), Err(DispatchError::UnknownMessage(tag)));
    }
}
