use std::str::FromStr;
use std::time::{Duration, SystemTime};
use upid::b32::DecodeError;
use upid::Upid;

const EPS: u128 = 257;

#[test]
fn can_into_thing() {
    let want = Upid::from_str("user_aaccvpp5guht4dts56je5a").unwrap();
    let s: String = want.to_string();
    let u: u128 = want.0;

    assert_eq!(Upid::from_str(&s).unwrap(), want);
    assert_eq!(Upid::from(u), want);
}

#[test]
fn can_display_things() {
    println!("{}", DecodeError::InvalidLength.message());
    println!("{}", DecodeError::InvalidChar.message());
}

#[test]
fn test_dynamic() {
    let upid = Upid::new("user");
    let encoded = upid.to_string();
    let upid2 = Upid::from_string(&encoded).expect("failed to deserialize");
    assert_eq!(upid, upid2);
}

#[test]
fn test_order() {
    let dt = SystemTime::now();
    let upid1 = Upid::from_prefix_and_datetime("user", dt);
    let upid2 = Upid::from_prefix_and_datetime("user", dt + Duration::from_millis(EPS as u64));
    assert!(upid1 < upid2);
}

#[test]
fn test_timestamp() {
    let dt = SystemTime::now();
    let want = dt
        .duration_since(SystemTime::UNIX_EPOCH)
        .unwrap()
        .as_millis();
    let upid = Upid::from_prefix_and_milliseconds("user", want);
    let got = u128::from(upid.milliseconds());

    assert!(want - got < EPS);
}

#[test]
fn test_datetime() {
    let dt = SystemTime::now();
    let upid = Upid::from_prefix_and_datetime("user", dt);

    assert!(upid.datetime() <= dt);
    assert!(upid.datetime() + Duration::from_millis(EPS as u64) >= dt);
}

#[test]
fn test_invalid_prefix() {
    // Invalid characters just become 'zzzz'
    let want = "zzzz";

    // even if too long
    let got = Upid::from_prefix("[0#/]]1,").prefix();
    assert_eq!(got, want);

    // or too short
    let got = Upid::from_prefix("[0").prefix();
    assert_eq!(got, want);
}
