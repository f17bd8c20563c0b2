use checksums::options::{DepthSetting, Options};

#[test]
fn infinite() {
    assert_eq!(DepthSetting::Infinite.next_level(), Some(DepthSetting::Infinite));
}

#[test]
fn last_level() {
    assert_eq!(DepthSetting::LastLevel.next_level(), None);
}

#[test]
fn nremaining() {
    assert_eq!(DepthSetting::NRemaining(1).next_level(), Some(DepthSetting::LastLevel));

    assert_eq!(DepthSetting::NRemaining(2).next_level(), Some(DepthSetting::NRemaining(1)));
    assert_eq!(DepthSetting::NRemaining(100).next_level(), Some(DepthSetting::NRemaining(99)));
}

#[test]
fn options_from_str() {
    for p in &[
        ("-1", DepthSetting::Infinite),
        ("-100", DepthSetting::Infinite),
        ("0", DepthSetting::LastLevel),
        ("1", DepthSetting::NRemaining(1)),
        ("2", DepthSetting::NRemaining(2)),
        ("100", DepthSetting::NRemaining(100)),
    ] {
        assert_eq!(DepthSetting::from_str(p.0).unwrap(), p.1);
    }
}

#[test]
fn options_from_str_bad() {
    for s in &["a234", "1231d"] {
        DepthSetting::from_str(s).unwrap_err();
    }
}

#[test]
fn can_recurse() {
    assert!(DepthSetting::Infinite.can_recurse());
    assert!(DepthSetting::NRemaining(1).can_recurse());
    assert!(DepthSetting::NRemaining(100).can_recurse());
    assert!(!DepthSetting::LastLevel.can_recurse());
}

#[test]
fn validators() {
    assert!(Options::algorithm_validator("sha1".to_string()).is_ok());
    assert!(Options::algorithm_validator("nope".to_string()).is_err());

    assert!(Options::depth_validator("-1".to_string()).is_ok());
    assert!(Options::depth_validator("42".to_string()).is_ok());
    assert!(Options::depth_validator("+42".to_string()).is_ok());
    assert!(Options::depth_validator("x".to_string()).is_err());
    assert!(Options::depth_validator("".to_string()).is_err());
    assert!(Options::depth_validator("99999999999999999999".to_string()).is_err());

    assert!(Options::jobs_validator("".to_string()).is_ok());
    assert!(Options::jobs_validator("-1".to_string()).is_ok());
    assert!(Options::jobs_validator("4".to_string()).is_ok());
    assert!(Options::jobs_validator("0".to_string()).is_err());
    assert!(Options::jobs_validator("-2".to_string()).is_err());
    assert!(Options::jobs_validator("abc".to_string()).is_err());
    assert!(Options::jobs_validator("3000000000".to_string()).is_err());
}
