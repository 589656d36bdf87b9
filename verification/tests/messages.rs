use selinux_why::disabled;
use selinux_why::error::{status_error, Notice, SelinuxError};
use selinux_why::event::{Event, EventBody};
use selinux_why::native;
use selinux_why::why::{WhyReason, WhyResult};

#[test]
fn statuses_stand_for_errors() {
    assert_eq!(status_error(native::BUSY), SelinuxError::Busy);
    assert_eq!(status_error(3), SelinuxError::InvalidArgument);
    assert_eq!(status_error(4), SelinuxError::OutOfMemory);
    assert_eq!(status_error(5), SelinuxError::Policy);
    assert_eq!(status_error(6), SelinuxError::BadSourceContext);
    assert_eq!(status_error(7), SelinuxError::BadTargetContext);
    assert_eq!(status_error(8), SelinuxError::BadClass);
    assert_eq!(status_error(9), SelinuxError::BadPermission);
    assert_eq!(status_error(10), SelinuxError::Compute);
    assert_eq!(status_error(11), SelinuxError::UnknownStatus(11));
    assert_eq!(status_error(native::DISABLED), SelinuxError::UnknownStatus(1));
    assert_eq!(status_error(-1), SelinuxError::UnknownStatus(-1));
}

#[test]
fn reasons_have_numbers_and_names() {
    let names = [
        "ALLOW", "DONTAUDIT", "TERULE", "BOOLEAN", "CONSTRAINT", "RBAC", "BOUNDS",
    ];
    for (value, name) in names.iter().enumerate() {
        let reason = WhyReason::from_native(value as i32).expect("known reason");
        assert_eq!(reason.as_str(), *name);
    }
    assert_eq!(
        WhyReason::from_native(7),
        Err(SelinuxError::InvalidNativeResult)
    );
    assert_eq!(
        WhyReason::from_native(-1),
        Err(SelinuxError::InvalidNativeResult)
    );
}

#[test]
fn errors_say_what_they_are() {
    let texts = [
        (SelinuxError::Busy, "another SELinux analyzer is already active"),
        (
            SelinuxError::InvalidArgument,
            "invalid argument passed to SELinux analyzer",
        ),
        (SelinuxError::OutOfMemory, "SELinux analyzer ran out of memory"),
        (
            SelinuxError::Policy,
            "unable to load or inspect the active SELinux policy",
        ),
        (SelinuxError::BadSourceContext, "invalid SELinux source context"),
        (SelinuxError::BadTargetContext, "invalid SELinux target context"),
        (SelinuxError::BadClass, "unknown SELinux object class"),
        (SelinuxError::BadPermission, "unknown SELinux permission"),
        (SelinuxError::Compute, "SELinux access-vector computation failed"),
        (
            SelinuxError::InteriorNul,
            "SELinux field contains an interior NUL byte",
        ),
        (
            SelinuxError::InvalidNativeResult,
            "SELinux shim returned an invalid result",
        ),
    ];
    for (error, text) in texts {
        assert_eq!(error.message(), text);
    }
}

#[test]
fn unknown_status_is_written_in_decimal() {
    for status in [0, 7, 10, 42, -1, -10, 1000000007, i32::MAX, i32::MIN] {
        assert_eq!(
            SelinuxError::UnknownStatus(status).message(),
            format!("SELinux shim returned unknown status {}", status)
        );
    }
}

#[test]
fn notices_have_log_lines() {
    assert_eq!(
        Notice::Initialized.message(),
        "SELinux WHY analyzer initialized"
    );
    assert_eq!(
        Notice::NotEnabled.message(),
        "SELinux WHY enrichment requested, but SELinux is not enabled; continuing without it"
    );
    assert_eq!(
        Notice::Unavailable(SelinuxError::Policy).message(),
        "SELinux WHY analyzer unavailable (unable to load or inspect the active SELinux policy); continuing normal Laurel processing"
    );
    assert_eq!(
        Notice::PolicyCheckFailed(SelinuxError::UnknownStatus(77)).message(),
        "Unable to check SELinux policy generation (SELinux shim returned unknown status 77); reloading analyzer"
    );
    assert_eq!(
        Notice::ReasoningFailed(SelinuxError::BadClass).message(),
        "SELinux AVC reasoning failed: unknown SELinux object class"
    );
    assert_eq!(
        Notice::NotBuilt.message(),
        "SELinux WHY enrichment requested, but Laurel was built without the 'selinux' feature"
    );
    assert!(!Notice::Initialized.is_warning());
    assert!(Notice::NotEnabled.is_warning());
    assert!(Notice::ReasoningFailed(SelinuxError::Busy).is_warning());
}

#[test]
fn build_without_shim_lets_events_pass() {
    let (mut runtime, notice) = disabled::Runtime::new(true);
    assert_eq!(notice, Some(Notice::NotBuilt));
    let mut event = Event { is_filtered: false, body: EventBody::new() };
    runtime.process(&mut event);
    assert!(!event.is_filtered);
    assert_eq!(event.body.groups().len(), 0);
    let (_, notice) = disabled::Runtime::new(false);
    assert_eq!(notice, None);
}

#[test]
fn cloned_explanation_is_equal() {
    let why = WhyResult {
        reason: WhyReason::Boolean,
        detail: Some(b"abc".to_vec()),
    };
    assert_eq!(why.clone(), why);
    let why = WhyResult { reason: WhyReason::Allow, detail: None };
    assert_eq!(why.clone(), why);
}
