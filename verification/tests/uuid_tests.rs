use upid::Upid;
use uuid::Uuid;

#[test]
fn uuid_cycle() {
    let want = Upid::new("user");
    let uuid: Uuid = want.to_uuid();
    let got: Upid = Upid::from_uuid(uuid);

    assert_eq!(got, want)
}
