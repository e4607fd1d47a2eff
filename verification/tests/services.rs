use memfs::account::{Args, Register, User, DEFAULT_PORT};
use memfs::archive::{Archive, TextEncoding};
use memfs::ident::Uuid;

#[test]
fn test() {
    let user = User::default();

    println!("{:#?}", user);
}

#[test]
fn cont() {
    println!("{}", std::mem::size_of::<chrono::NaiveDateTime>())
}

#[test]
fn users_are_made_now() {
    let before = chrono::Utc::now().timestamp();
    let (a, b) = (User::default(), User::default());
    let after = chrono::Utc::now().timestamp();
    assert!(before <= a.create_time.secs && a.create_time.secs <= a.active_time.secs);
    assert!(a.active_time.secs <= after);
    assert_ne!(a.id, b.id);
    assert_eq!(uuid::Uuid::from_u128(a.id.value).get_version_num(), 4);
    let kept = User::new(a.id, b.create_time, a.active_time);
    assert_eq!((kept.id, kept.create_time, kept.active_time), (a.id, b.create_time, a.active_time));
    let _ = Register {};
}

#[test]
fn arguments() {
    let args = Args::new(DEFAULT_PORT, String::from("postgres://localhost"));
    args.run();
    assert_eq!(DEFAULT_PORT, 7777);
}

#[test]
fn the_time_in_an_identifier() {
    let id = Uuid { value: 0x1EC9414C_232A_1B00_B3C8_9E6BDECED846 };
    let archive = Archive::Borrowed(id);
    let outside = uuid::Uuid::from_u128(id.value).get_timestamp().unwrap().to_unix();
    let time = archive.create_time(&id);
    assert_eq!(id.get_timestamp(), Some(outside));
    let want = chrono::DateTime::from_timestamp(outside.0 as i64, outside.1).unwrap();
    let got = time.unwrap();
    assert_eq!(
        format!("{:04}-{:02}-{:02}", got.year, got.month, got.day),
        want.format("%Y-%m-%d").to_string()
    );
    let random = Uuid::new_v4();
    assert!(archive.create_time(&random).is_none());
    let seven = Uuid { value: 0x017F22E2_79B0_7CC3_98C4_DC0C0C07398F };
    assert_eq!(seven.get_timestamp(), Some((1645557742, 0)));
}

#[test]
fn texts_have_no_encoding_at_first() {
    assert_eq!(TextEncoding::default(), TextEncoding::NoEncoding);
}
