use mindback::capture_guard::{CaptureAvailability, DisplayState};

#[test]
fn display_must_be_online_active_and_awake() {
    assert!(CaptureAvailability::from_display_state(DisplayState {
        is_online: true,
        is_active: true,
        is_asleep: false,
    })
    .is_allowed());

    assert!(!CaptureAvailability::from_display_state(DisplayState {
        is_online: true,
        is_active: false,
        is_asleep: false,
    })
    .is_allowed());

    assert!(!CaptureAvailability::from_display_state(DisplayState {
        is_online: true,
        is_active: true,
        is_asleep: true,
    })
    .is_allowed());
}

#[test]
fn blocked_capture_explains_itself() {
    let offline = CaptureAvailability::from_display_state(DisplayState {
        is_online: false,
        is_active: true,
        is_asleep: true,
    });
    assert_eq!(
        offline.ensure_allowed(),
        Err("当前显示器未在线，已跳过截图".to_string())
    );
    let asleep = CaptureAvailability::from_display_state(DisplayState {
        is_online: true,
        is_active: false,
        is_asleep: true,
    });
    assert_eq!(
        asleep.ensure_allowed(),
        Err("当前显示器已息屏，已跳过截图".to_string())
    );
    let inactive = CaptureAvailability::from_display_state(DisplayState {
        is_online: true,
        is_active: false,
        is_asleep: false,
    });
    assert_eq!(
        inactive.ensure_allowed(),
        Err("当前显示器未激活，已跳过截图".to_string())
    );
    let awake = CaptureAvailability::from_display_state(DisplayState {
        is_online: true,
        is_active: true,
        is_asleep: false,
    });
    assert_eq!(awake.ensure_allowed(), Ok(()));
}

#[test]
fn simulated_capture_is_always_allowed() {
    let dark = DisplayState {
        is_online: false,
        is_active: false,
        is_asleep: true,
    };
    assert!(CaptureAvailability::for_environment(Some("1"), dark).is_allowed());
    assert!(!CaptureAvailability::for_environment(Some("0"), dark).is_allowed());
    assert!(!CaptureAvailability::for_environment(None, dark).is_allowed());
}
