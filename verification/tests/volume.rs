use cvpn::VolumeError;
use cvpn::VolumeID;

#[test]
fn shared_root_parses_and_formats_to_fixed_resource() {
    let v = VolumeID::from_str("fsshare").unwrap();
    assert!(matches!(v, VolumeID::FSShare));
    assert_eq!(v.format(), "resource_1423533946.487706.3");
}

#[test]
fn named_volume_round_trips_token() {
    let v = VolumeID::from_str("fs/x/2020").unwrap();
    match &v {
        VolumeID::FS(s) => assert_eq!(s, "fs/2020"),
        _ => panic!("expected a named volume"),
    }
    assert_eq!(v.format(), "fs/2020");
}

#[test]
fn named_volume_token_may_be_empty_component() {
    let v = VolumeID::from_str("fs//").unwrap();
    match &v {
        VolumeID::FS(s) => assert_eq!(s, "fs/"),
        _ => panic!("expected a named volume"),
    }
}

#[test]
fn fs_name_without_third_component_is_missing_token() {
    assert!(matches!(
        VolumeID::from_str("fs/2020"),
        Err(VolumeError::MissingToken)
    ));
    assert!(matches!(
        VolumeID::from_str("fs"),
        Err(VolumeError::MissingToken)
    ));
}

#[test]
fn unknown_prefix_is_no_such_volume() {
    match VolumeID::from_str("xyz") {
        Err(VolumeError::NoSuchVolume(name)) => assert_eq!(name, "xyz"),
        _ => panic!("expected no such volume"),
    }
}

#[test]
fn volume_name_matching_is_case_sensitive() {
    assert!(VolumeID::from_str("FSSHARE").is_err());
}
