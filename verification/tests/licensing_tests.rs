use chrono::{Duration, Utc};
use needlepoint::licensing::api::{
    is_rate_limited, judge_activate, judge_deactivate, judge_trial_init, judge_validate, ActivateData,
    ActivateResponse, ApiError, DeactivateData, DeactivateResponse, TrialInitData, TrialInitResponse,
    ValidateData, ValidateResponse,
};
use needlepoint::licensing::config::endpoints;
use needlepoint::licensing::config::{get_platform, LICENSE_SERVER_URL, TRIAL_DAYS};
use needlepoint::licensing::device::{get_device_id, get_ms_store_user_id};
use needlepoint::licensing::manager::{
    activation_request, adopt_identity, apply_activation, apply_deactivation, apply_trial_outcome,
    deactivation_request, get_app_version, get_platform_info, needs_identity,
    trial_request, trial_was_started, update_trial_status, update_trial_status_at,
};
use needlepoint::licensing::storage::{clear_cache, LicenseCache};
use needlepoint::licensing::types::{
    default_licensed_version, CachedValidation, LicenseError, LicenseInfo, LicenseSource, LicenseState,
    LicenseStatus, Timestamp,
};

fn stamp(t: chrono::DateTime<Utc>) -> Timestamp {
    Timestamp { secs: t.timestamp(), nanos: t.timestamp_subsec_nanos() }
}

const DAY: i64 = 86_400;

fn at(secs: i64) -> Timestamp {
    Timestamp { secs, nanos: 0 }
}

fn api_error(code: &str, message: &str) -> Option<ApiError> {
    Some(ApiError { code: code.to_string(), message: message.to_string() })
}

#[test]
fn test_get_device_id() {
    let result = get_device_id();
    assert!(result.is_ok());
    let id = result.unwrap();
    assert!(!id.is_empty());
    println!("Device ID: {}", id);
}

#[test]
fn test_update_trial_status_active() {
    let mut state = LicenseState {
        status: LicenseStatus::Trial,
        trial_expires: Some(stamp(Utc::now() + Duration::days(10))),
        ..Default::default()
    };

    update_trial_status(&mut state);
    assert_eq!(state.status, LicenseStatus::Trial);
}

#[test]
fn test_update_trial_status_expired() {
    let mut state = LicenseState {
        status: LicenseStatus::Trial,
        trial_expires: Some(stamp(Utc::now() - Duration::days(1))),
        ..Default::default()
    };

    update_trial_status(&mut state);
    assert_eq!(state.status, LicenseStatus::TrialExpired);
}

#[test]
fn device_ids_are_fresh_uuids() {
    let first = get_device_id().unwrap();
    let second = get_device_id().unwrap();
    assert_eq!(first.len(), 36);
    assert_eq!(second.len(), 36);
    assert_ne!(first, second);
    assert_eq!(first.matches('-').count(), 4);
    assert!(get_ms_store_user_id().is_none());
}

#[test]
fn update_trial_status_leaves_other_statuses() {
    let past = Some(stamp(Utc::now() - Duration::days(1)));
    for status in [
        LicenseStatus::Unlicensed,
        LicenseStatus::TrialExpired,
        LicenseStatus::Licensed,
        LicenseStatus::LicensedUpgradeRequired,
        LicenseStatus::Invalid,
        LicenseStatus::GracePeriod,
    ] {
        let mut state = LicenseState { status, trial_expires: past, ..Default::default() };
        update_trial_status(&mut state);
        assert_eq!(state.status, status);
    }
    let mut open_ended = LicenseState { status: LicenseStatus::Trial, ..Default::default() };
    update_trial_status(&mut open_ended);
    assert_eq!(open_ended.status, LicenseStatus::Trial);
}

#[test]
fn update_trial_status_at_the_boundary() {
    let end = Timestamp { secs: 1_000, nanos: 500 };
    let mut state =
        LicenseState { status: LicenseStatus::Trial, trial_expires: Some(end), ..Default::default() };
    update_trial_status_at(&mut state, &Timestamp { secs: 1_000, nanos: 500 });
    assert_eq!(state.status, LicenseStatus::Trial);
    update_trial_status_at(&mut state, &Timestamp { secs: 1_000, nanos: 501 });
    assert_eq!(state.status, LicenseStatus::TrialExpired);
    assert_eq!(state.trial_expires, Some(end));
}

#[test]
fn default_state_is_blank() {
    let state = LicenseState::default();
    assert_eq!(state.status, LicenseStatus::Unlicensed);
    assert_eq!(LicenseStatus::default(), LicenseStatus::Unlicensed);
    assert!(state.source.is_none());
    assert!(state.license_key.is_none());
    assert!(state.device_id.is_empty());
    assert!(state.platform.is_empty());
    assert!(state.trial_start.is_none());
    assert!(state.cached_validation.is_none());
    assert!(!state.can_use_app());
    assert!(!state.should_watermark());
    assert_eq!(default_licensed_version(), 1);
}

#[test]
fn whole_days_are_counted_towards_zero() {
    let now = Timestamp { secs: 5_000, nanos: 1 };
    let ten_days_later = Timestamp { secs: 5_000 + 10 * DAY, nanos: 1 };
    assert_eq!(ten_days_later.whole_days_since(&now), 10);
    let just_short = Timestamp { secs: 5_000 + 10 * DAY, nanos: 0 };
    assert_eq!(just_short.whole_days_since(&now), 9);
    assert_eq!(now.whole_days_since(&ten_days_later), 0);
    assert_eq!(now.whole_days_since(&now), 0);
    assert_eq!(at(DAY - 1).whole_days_since(&at(0)), 0);
    assert_eq!(at(DAY).whole_days_since(&at(0)), 1);
    assert_eq!(at(-DAY).whole_days_since(&at(-3 * DAY)), 2);
}

#[test]
fn whole_days_agree_with_chrono() {
    let now = Utc::now();
    for (days, nanos) in [(0i64, 0i64), (0, 1), (1, -1), (9, 999_999_999), (30, 0), (365, 123)] {
        let later = now + Duration::days(days) + Duration::nanoseconds(nanos);
        let expected = (later - now).num_days().max(0);
        assert_eq!(stamp(later).whole_days_since(&stamp(now)), expected);
        assert_eq!(stamp(later).is_after(&stamp(now)), later > now);
    }
}

#[test]
fn plus_days_shifts_seconds_and_reports_overflow() {
    let t = Timestamp { secs: 100, nanos: 7 };
    assert_eq!(t.plus_days(30), Some(Timestamp { secs: 100 + 30 * DAY, nanos: 7 }));
    assert_eq!(t.plus_days(-30), Some(Timestamp { secs: 100 - 30 * DAY, nanos: 7 }));
    assert_eq!(Timestamp { secs: i64::MAX, nanos: 0 }.plus_days(1), None);
    assert_eq!(Timestamp { secs: i64::MIN, nanos: 0 }.plus_days(-1), None);
    assert_eq!(Timestamp { secs: i64::MAX - DAY, nanos: 0 }.plus_days(1), Some(at(i64::MAX)));
}

#[test]
fn trial_days_remaining_follow_the_status() {
    let now = at(1_000_000);
    let mut state = LicenseState {
        status: LicenseStatus::Trial,
        trial_expires: Some(at(1_000_000 + 12 * DAY + 5)),
        ..Default::default()
    };
    assert_eq!(state.trial_days_remaining_at(&now), Some(12));
    assert_eq!(state.trial_days_remaining_at(&at(1_000_000 + 13 * DAY)), Some(0));
    state.status = LicenseStatus::Licensed;
    assert_eq!(state.trial_days_remaining_at(&now), None);
    state.status = LicenseStatus::Trial;
    state.trial_expires = None;
    assert_eq!(state.trial_days_remaining_at(&now), None);
}

#[test]
fn trial_days_remaining_read_the_clock() {
    let state = LicenseState {
        status: LicenseStatus::Trial,
        trial_expires: Some(stamp(Utc::now() + Duration::days(10) + Duration::hours(1))),
        ..Default::default()
    };
    assert_eq!(state.trial_days_remaining(), Some(10));
    let over = LicenseState {
        status: LicenseStatus::Trial,
        trial_expires: Some(stamp(Utc::now() - Duration::days(3))),
        ..Default::default()
    };
    assert_eq!(over.trial_days_remaining(), Some(0));
    assert_eq!(LicenseState::default().trial_days_remaining(), None);
    assert_eq!(LicenseInfo::from_state(&state).trial_days_remaining, Some(10));
}

#[test]
fn can_use_app_in_trial_and_when_licensed() {
    let usable = [LicenseStatus::Trial, LicenseStatus::Licensed, LicenseStatus::LicensedUpgradeRequired];
    let barred = [
        LicenseStatus::Unlicensed,
        LicenseStatus::TrialExpired,
        LicenseStatus::Invalid,
        LicenseStatus::GracePeriod,
    ];
    for status in usable {
        assert!(LicenseState { status, ..Default::default() }.can_use_app());
    }
    for status in barred {
        assert!(!LicenseState { status, ..Default::default() }.can_use_app());
    }
}

#[test]
fn license_info_shows_the_state() {
    let now = at(2_000_000);
    let mut state = LicenseState {
        status: LicenseStatus::Trial,
        platform: "macos".to_string(),
        trial_expires: Some(at(2_000_000 + 3 * DAY)),
        licensed_version: Some(2),
        ..Default::default()
    };
    let info = LicenseInfo::from_state_at(&state, &now);
    assert_eq!(info.status, LicenseStatus::Trial);
    assert_eq!(info.source, None);
    assert_eq!(info.trial_days_remaining, Some(3));
    assert_eq!(info.licensed_version, Some(2));
    assert_eq!(info.devices_used, 0);
    assert_eq!(info.devices_max, 3);
    assert!(info.needs_online_validation);
    assert_eq!(info.platform, "macos");
    assert!(info.can_use_app);
    assert!(!info.should_watermark);

    state.status = LicenseStatus::Licensed;
    state.source = Some(LicenseSource::LicenseKey);
    state.cached_validation = Some(CachedValidation {
        valid: true,
        status: "licensed".to_string(),
        licensed_version: 1,
        devices_used: 2,
        devices_max: 5,
        signature: "sig".to_string(),
        cached_at: now,
    });
    let info = LicenseInfo::from_state_at(&state, &now);
    assert_eq!(info.source, Some(LicenseSource::LicenseKey));
    assert_eq!(info.trial_days_remaining, None);
    assert_eq!(info.devices_used, 2);
    assert_eq!(info.devices_max, 5);
    assert!(!info.needs_online_validation);

    let live = LicenseInfo::from_state(&state);
    assert_eq!(live.status, LicenseStatus::Licensed);
    assert_eq!(live.devices_max, 5);
    assert_eq!(live.trial_days_remaining, None);
}

#[test]
fn license_errors_print_their_message() {
    assert_eq!(LicenseError::Storage("disk".to_string()).message(), "Storage error: disk");
    assert_eq!(LicenseError::Network("down".to_string()).message(), "Network error: down");
    assert_eq!(LicenseError::InvalidKey.message(), "Invalid license key");
    assert_eq!(
        LicenseError::DeviceLimitReached { used: 3, max: 10 }.message(),
        "Device limit reached (3/10)"
    );
    assert_eq!(LicenseError::LicenseRevoked.message(), "License revoked");
    assert_eq!(LicenseError::TrialAlreadyStarted.message(), "Trial already started");
    assert_eq!(LicenseError::TrialExpired.message(), "Trial expired");
    assert_eq!(LicenseError::SignatureInvalid.message(), "Signature verification failed");
    assert_eq!(LicenseError::ServerError("boom".to_string()).message(), "Server error: boom");
    assert_eq!(LicenseError::RateLimited.message(), "Rate limited");
}

#[test]
fn endpoints_hang_off_the_server_url() {
    assert_eq!(LICENSE_SERVER_URL, "https://stitchalot.studio");
    assert_eq!(endpoints::trial_init(), "https://stitchalot.studio/api/v1/trial/init");
    assert_eq!(endpoints::activate(), "https://stitchalot.studio/api/v1/activate");
    assert_eq!(endpoints::validate(), "https://stitchalot.studio/api/v1/validate");
    assert_eq!(endpoints::deactivate(), "https://stitchalot.studio/api/v1/deactivate");
    assert_eq!(endpoints::recover(), "https://stitchalot.studio/api/v1/recover");
    assert_eq!(endpoints::check_updates(), "https://stitchalot.studio/api/v1/check-updates");
    assert_eq!(TRIAL_DAYS, 30);
}

#[test]
fn platform_names_are_passed_or_unknown() {
    assert_eq!(get_platform("windows"), "windows");
    assert_eq!(get_platform("macos"), "macos");
    assert_eq!(get_platform("ios"), "ios");
    assert_eq!(get_platform("android"), "android");
    assert_eq!(get_platform("linux"), "unknown");
    assert_eq!(get_platform(""), "unknown");
}

#[test]
fn only_status_429_is_rate_limiting() {
    assert!(is_rate_limited(429));
    assert!(!is_rate_limited(200));
    assert!(!is_rate_limited(430));
}

fn trial_response(success: bool, error: Option<ApiError>) -> TrialInitResponse {
    TrialInitResponse { success, data: None, error, timestamp: None, signature: None }
}

#[test]
fn trial_answers_are_judged_by_error_code() {
    assert!(judge_trial_init(trial_response(true, None)).is_ok());
    assert!(judge_trial_init(trial_response(true, api_error("RATE_LIMITED", "x"))).is_ok());
    assert!(judge_trial_init(trial_response(false, None)).is_ok());
    assert!(matches!(
        judge_trial_init(trial_response(false, api_error("TRIAL_ALREADY_USED", "x"))),
        Err(LicenseError::TrialAlreadyStarted)
    ));
    assert!(matches!(
        judge_trial_init(trial_response(false, api_error("RATE_LIMITED", "x"))),
        Err(LicenseError::RateLimited)
    ));
    match judge_trial_init(trial_response(false, api_error("OTHER", "went wrong"))) {
        Err(LicenseError::ServerError(m)) => assert_eq!(m, "went wrong"),
        _ => panic!("expected a server error"),
    }
}

fn validate_response(success: bool, error: Option<ApiError>) -> ValidateResponse {
    ValidateResponse { success, data: None, error, timestamp: None, signature: None }
}

#[test]
fn validation_answers_are_judged_by_error_code() {
    assert!(judge_validate(validate_response(true, None)).is_ok());
    assert!(matches!(
        judge_validate(validate_response(false, api_error("INVALID_LICENSE_KEY", ""))),
        Err(LicenseError::InvalidKey)
    ));
    assert!(matches!(
        judge_validate(validate_response(false, api_error("LICENSE_REVOKED", ""))),
        Err(LicenseError::LicenseRevoked)
    ));
    assert!(matches!(
        judge_validate(validate_response(false, api_error("RATE_LIMITED", ""))),
        Err(LicenseError::RateLimited)
    ));
    match judge_validate(validate_response(false, api_error("TRIAL_ALREADY_USED", "odd"))) {
        Err(LicenseError::ServerError(m)) => assert_eq!(m, "odd"),
        _ => panic!("expected a server error"),
    }
}

fn activate_response(success: bool, error: Option<ApiError>) -> ActivateResponse {
    ActivateResponse { success, data: None, error, timestamp: None, signature: None }
}

#[test]
fn activation_answers_are_judged_by_error_code() {
    assert!(judge_activate(activate_response(true, None)).is_ok());
    assert!(matches!(
        judge_activate(activate_response(false, api_error("INVALID_LICENSE_KEY", ""))),
        Err(LicenseError::InvalidKey)
    ));
    assert!(matches!(
        judge_activate(activate_response(false, api_error("LICENSE_REVOKED", ""))),
        Err(LicenseError::LicenseRevoked)
    ));
    assert!(matches!(
        judge_activate(activate_response(false, api_error("DEVICE_LIMIT_REACHED", ""))),
        Err(LicenseError::DeviceLimitReached { used: 3, max: 3 })
    ));
    assert!(matches!(
        judge_activate(activate_response(false, api_error("RATE_LIMITED", ""))),
        Err(LicenseError::RateLimited)
    ));
    match judge_activate(activate_response(false, api_error("WHATEVER", "no"))) {
        Err(LicenseError::ServerError(m)) => assert_eq!(m, "no"),
        _ => panic!("expected a server error"),
    }
}

#[test]
fn deactivation_answers_are_judged_by_error_code() {
    let answer = |success, error| DeactivateResponse {
        success,
        data: Some(DeactivateData { devices_used: 1, devices_max: 3 }),
        error,
        timestamp: None,
    };
    assert!(judge_deactivate(answer(true, None)).is_ok());
    assert!(matches!(
        judge_deactivate(answer(false, api_error("INVALID_LICENSE_KEY", ""))),
        Err(LicenseError::InvalidKey)
    ));
    match judge_deactivate(answer(false, api_error("DEVICE_NOT_FOUND", "the words of the server"))) {
        Err(LicenseError::ServerError(m)) => assert_eq!(m, "Device not found"),
        _ => panic!("expected a server error"),
    }
    match judge_deactivate(answer(false, api_error("RATE_LIMITED", "slow down"))) {
        Err(LicenseError::ServerError(m)) => assert_eq!(m, "slow down"),
        _ => panic!("expected a server error"),
    }
}

#[test]
fn response_accessors_read_data_and_error() {
    let end = at(100 * DAY);
    let response = TrialInitResponse {
        success: true,
        data: Some(TrialInitData { expires_at: end, days_remaining: 30 }),
        error: api_error("C", "M"),
        timestamp: None,
        signature: None,
    };
    assert_eq!(response.trial_start(), Some(at(70 * DAY)));
    assert_eq!(response.trial_expires(), Some(end));
    assert_eq!(response.days_remaining(), Some(30));
    assert_eq!(response.error_message(), Some("M".to_string()));
    assert_eq!(response.error_code(), Some("C".to_string()));
    let empty = trial_response(true, None);
    assert_eq!(empty.trial_start(), None);
    assert_eq!(empty.trial_expires(), None);
    assert_eq!(empty.days_remaining(), None);
    assert_eq!(empty.error_message(), None);
    assert_eq!(empty.error_code(), None);

    let valid = ValidateResponse {
        success: true,
        data: Some(ValidateData {
            valid: true,
            status: "licensed".to_string(),
            updates_expire: None,
            devices_used: 1,
            devices_max: 3,
        }),
        error: None,
        timestamp: None,
        signature: None,
    };
    assert!(valid.is_valid());
    assert!(!validate_response(true, None).is_valid());
    assert_eq!(validate_response(false, api_error("A", "B")).error_code(), Some("A".to_string()));
    assert_eq!(activate_response(false, api_error("A", "B")).error_message(), Some("B".to_string()));
}

#[test]
fn trial_start_matches_chrono_subtraction() {
    let end = Utc::now() + Duration::days(30);
    let response = TrialInitResponse {
        success: true,
        data: Some(TrialInitData { expires_at: stamp(end), days_remaining: 30 }),
        error: None,
        timestamp: None,
        signature: None,
    };
    assert_eq!(response.trial_start(), Some(stamp(end - Duration::days(30))));
}

#[test]
fn identity_is_adopted_once() {
    let mut state = LicenseState::default();
    assert!(needs_identity(&state));
    assert_eq!(adopt_identity(&mut state, Ok("device-1".to_string()), "windows"), Ok(()));
    assert_eq!(state.device_id, "device-1");
    assert_eq!(state.platform, "windows");
    assert!(!needs_identity(&state));
    assert_eq!(adopt_identity(&mut state, Ok("device-2".to_string()), "macos"), Ok(()));
    assert_eq!(state.device_id, "device-1");
    assert_eq!(state.platform, "windows");
    assert_eq!(adopt_identity(&mut state, Err("nope".to_string()), "macos"), Ok(()));

    let mut blank = LicenseState::default();
    assert_eq!(
        adopt_identity(&mut blank, Err("no registry".to_string()), "windows"),
        Err("Failed to get device ID: no registry".to_string())
    );
    assert!(blank.device_id.is_empty());
    assert!(blank.platform.is_empty());
}

#[test]
fn platform_info_uses_the_stored_identifier() {
    let state = LicenseState { device_id: "abc".to_string(), ..Default::default() };
    let info = get_platform_info(&state, "ios", true).unwrap();
    assert_eq!(info.platform, "ios");
    assert_eq!(info.device_id, "abc");
    assert_eq!(info.app_version, "1.0.0");
    assert!(info.is_app_store);
    let fresh = get_platform_info(&LicenseState::default(), "freebsd", false).unwrap();
    assert_eq!(fresh.platform, "unknown");
    assert_eq!(fresh.device_id.len(), 36);
    assert!(!fresh.is_app_store);
    assert_eq!(get_app_version(), "1.0.0");
}

#[test]
fn trial_request_carries_device_and_version() {
    let state = LicenseState {
        device_id: "dev".to_string(),
        platform: "macos".to_string(),
        ..Default::default()
    };
    let request = trial_request(&state);
    assert_eq!(request.device_id, "dev");
    assert_eq!(request.platform, "macos");
    assert_eq!(request.app_version, "1.0.0");
    assert!(!trial_was_started(&state));
    let started = LicenseState { trial_start: Some(at(0)), ..Default::default() };
    assert!(trial_was_started(&started));
}

#[test]
fn granted_trial_runs_on_server_dates() {
    let now = at(50 * DAY);
    let end = at(90 * DAY);
    let mut state = LicenseState { device_id: "dev".to_string(), ..Default::default() };
    let response = TrialInitResponse {
        success: true,
        data: Some(TrialInitData { expires_at: end, days_remaining: 30 }),
        error: None,
        timestamp: None,
        signature: None,
    };
    assert_eq!(apply_trial_outcome(&mut state, Ok(response), &now), Ok(()));
    assert_eq!(state.status, LicenseStatus::Trial);
    assert_eq!(state.trial_start, Some(at(60 * DAY)));
    assert_eq!(state.trial_expires, Some(end));
    assert_eq!(state.device_id, "dev");
}

#[test]
fn granted_trial_without_dates_runs_from_now() {
    let now = Timestamp { secs: 50 * DAY, nanos: 9 };
    let mut state = LicenseState::default();
    assert_eq!(apply_trial_outcome(&mut state, Ok(trial_response(true, None)), &now), Ok(()));
    assert_eq!(state.status, LicenseStatus::Trial);
    assert_eq!(state.trial_start, Some(now));
    assert_eq!(state.trial_expires, Some(Timestamp { secs: 80 * DAY, nanos: 9 }));
}

#[test]
fn used_trial_is_refused() {
    let now = at(50 * DAY);
    let mut state = LicenseState::default();
    assert_eq!(
        apply_trial_outcome(&mut state, Err(LicenseError::TrialAlreadyStarted), &now),
        Err("A trial has already been started on this device".to_string())
    );
    assert_eq!(state.status, LicenseStatus::Unlicensed);
    assert!(state.trial_start.is_none());
    assert!(state.trial_expires.is_none());
}

#[test]
fn unreachable_server_starts_a_local_trial() {
    let now = at(50 * DAY);
    for error in [
        LicenseError::Network("offline".to_string()),
        LicenseError::RateLimited,
        LicenseError::ServerError("500".to_string()),
    ] {
        let mut state = LicenseState::default();
        assert_eq!(apply_trial_outcome(&mut state, Err(error), &now), Ok(()));
        assert_eq!(state.status, LicenseStatus::Trial);
        assert_eq!(state.trial_start, Some(now));
        assert_eq!(state.trial_expires, Some(at(80 * DAY)));
    }
}

#[test]
fn activation_records_the_license() {
    let now = at(7);
    let mut state = LicenseState {
        device_id: "dev".to_string(),
        platform: "windows".to_string(),
        trial_start: Some(at(1)),
        ..Default::default()
    };
    let key = "STCH-1234".to_string();
    let request = activation_request(&state, &key);
    assert_eq!(request.license_key, "STCH-1234");
    assert_eq!(request.device_id, "dev");
    assert!(request.device_name.is_none());
    assert_eq!(request.platform, "windows");
    assert_eq!(request.app_version, "1.0.0");

    let response = ActivateResponse {
        success: true,
        data: Some(ActivateData {
            license_key: key.clone(),
            updates_expire: at(400 * DAY),
            devices_used: 2,
            devices_max: 3,
        }),
        error: None,
        timestamp: None,
        signature: Some("signed".to_string()),
    };
    apply_activation(&mut state, key, response, &now);
    assert_eq!(state.status, LicenseStatus::Licensed);
    assert_eq!(state.source, Some(LicenseSource::LicenseKey));
    assert_eq!(state.license_key, Some("STCH-1234".to_string()));
    assert_eq!(state.license_activated, Some(now));
    assert_eq!(state.trial_start, Some(at(1)));
    let cached = state.cached_validation.unwrap();
    assert!(cached.valid);
    assert_eq!(cached.status, "licensed");
    assert_eq!(cached.licensed_version, 1);
    assert_eq!(cached.devices_used, 2);
    assert_eq!(cached.devices_max, 3);
    assert_eq!(cached.signature, "signed");
    assert_eq!(cached.cached_at, now);
}

#[test]
fn activation_without_data_changes_nothing() {
    let mut state = LicenseState { status: LicenseStatus::Trial, ..Default::default() };
    apply_activation(&mut state, "KEY".to_string(), activate_response(true, None), &at(3));
    assert_eq!(state.status, LicenseStatus::Trial);
    assert!(state.license_key.is_none());
    assert!(state.cached_validation.is_none());
    assert!(state.license_activated.is_none());
}

#[test]
fn activation_without_signature_records_an_empty_one() {
    let mut state = LicenseState::default();
    let response = ActivateResponse {
        success: true,
        data: Some(ActivateData {
            license_key: "K".to_string(),
            updates_expire: at(0),
            devices_used: 1,
            devices_max: 1,
        }),
        error: None,
        timestamp: None,
        signature: None,
    };
    apply_activation(&mut state, "K".to_string(), response, &at(3));
    assert_eq!(state.cached_validation.unwrap().signature, "");
}

#[test]
fn deactivation_needs_a_license_key() {
    let state = LicenseState { device_id: "dev".to_string(), ..Default::default() };
    assert_eq!(deactivation_request(&state).err(), Some("No license key found".to_string()));
    let keyed = LicenseState {
        device_id: "dev".to_string(),
        license_key: Some("KEY".to_string()),
        ..Default::default()
    };
    let request = deactivation_request(&keyed).ok().unwrap();
    assert_eq!(request.license_key, "KEY");
    assert_eq!(request.device_id, "dev");
}

fn licensed_state(trial_start: Option<Timestamp>, trial_expires: Option<Timestamp>) -> LicenseState {
    LicenseState {
        status: LicenseStatus::Licensed,
        source: Some(LicenseSource::LicenseKey),
        license_key: Some("KEY".to_string()),
        device_id: "dev".to_string(),
        license_activated: Some(at(5)),
        trial_start,
        trial_expires,
        cached_validation: Some(CachedValidation {
            valid: true,
            status: "licensed".to_string(),
            licensed_version: 1,
            devices_used: 1,
            devices_max: 3,
            signature: String::new(),
            cached_at: at(5),
        }),
        ..Default::default()
    }
}

#[test]
fn deactivation_falls_back_to_the_trial() {
    let now = at(100);
    let mut running = licensed_state(Some(at(0)), Some(at(100)));
    apply_deactivation(&mut running, &now);
    assert_eq!(running.status, LicenseStatus::Trial);
    assert!(running.source.is_none());
    assert!(running.license_key.is_none());
    assert!(running.license_activated.is_none());
    assert!(running.cached_validation.is_none());
    assert_eq!(running.device_id, "dev");
    assert_eq!(running.trial_start, Some(at(0)));

    let mut expired = licensed_state(Some(at(0)), Some(at(99)));
    apply_deactivation(&mut expired, &now);
    assert_eq!(expired.status, LicenseStatus::TrialExpired);

    let mut no_end = licensed_state(Some(at(0)), None);
    apply_deactivation(&mut no_end, &now);
    assert_eq!(no_end.status, LicenseStatus::Unlicensed);

    let mut no_trial = licensed_state(None, Some(at(500)));
    apply_deactivation(&mut no_trial, &now);
    assert_eq!(no_trial.status, LicenseStatus::Unlicensed);
}

#[test]
fn cache_remembers_and_clears() {
    let mut cache = LicenseCache::new();
    assert!(cache.cached().is_none());
    let state = LicenseState {
        status: LicenseStatus::Trial,
        device_id: "dev".to_string(),
        license_key: Some("KEY".to_string()),
        trial_expires: Some(at(9)),
        ..Default::default()
    };
    cache.remember(&state);
    let copy = cache.cached().unwrap();
    assert_eq!(copy.status, LicenseStatus::Trial);
    assert_eq!(copy.device_id, "dev");
    assert_eq!(copy.license_key, Some("KEY".to_string()));
    assert_eq!(copy.trial_expires, Some(at(9)));
    clear_cache(&mut cache);
    assert!(cache.cached().is_none());
    assert!(cache.state.is_none());
}
