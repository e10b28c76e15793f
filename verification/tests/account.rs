use azalea::account::{offline_uuid, uuid_from_md5, Account};

#[test]
fn offline_uuid_of_jeb() {
    let expected: u128 = 0xa762f560_4fce_3236_812a_b80efff0b62b;
    assert_eq!(offline_uuid("jeb_"), expected);
    // the same name gives the same identity every time
    assert_eq!(offline_uuid("jeb_"), offline_uuid("jeb_"));
    assert_eq!(
        uuid::Uuid::from_u128(offline_uuid("jeb_")).to_string(),
        "a762f560-4fce-3236-812a-b80efff0b62b"
    );
}

#[test]
fn offline_uuid_is_a_name_based_identity() {
    for name in ["bot", "Notch", "", "a_rather_long_name"] {
        let uuid = uuid::Uuid::from_u128(offline_uuid(name));
        assert_eq!(uuid.get_version_num(), 3);
        assert_eq!(uuid.get_variant(), uuid::Variant::RFC4122);
    }
    assert_ne!(offline_uuid("bot"), offline_uuid("Bot"));
}

#[test]
fn uuid_from_md5_marks_version_and_variant() {
    assert_eq!(uuid_from_md5(&[0u8; 16]), 0x00000000_0000_3000_8000_000000000000);
    assert_eq!(uuid_from_md5(&[0xffu8; 16]), 0xffffffff_ffff_3fff_bfff_ffffffffffff);
    let digest = [
        0xa7, 0x62, 0xf5, 0x60, 0x4f, 0xce, 0xc2, 0x36, 0xc1, 0x2a, 0xb8, 0x0e, 0xff, 0xf0, 0xb6,
        0x2b,
    ];
    assert_eq!(uuid_from_md5(&digest), 0xa762f560_4fce_3236_812a_b80efff0b62b);
}

#[test]
fn offline_account_has_its_derived_identity() {
    let account = Account::offline("jeb_");
    assert_eq!(account.username, "jeb_");
    assert_eq!(account.uuid, Some(0xa762f560_4fce_3236_812a_b80efff0b62b));
    assert_eq!(account.access_token, None);
    assert_eq!(account.profile_id(), 0xa762f560_4fce_3236_812a_b80efff0b62b);
}

#[test]
fn online_account_keeps_its_token() {
    let mut account = Account::with_access_token("bot", 42, "old".to_string());
    assert_eq!(account.uuid, Some(42));
    assert_eq!(account.access_token.as_deref(), Some("old"));
    account.set_access_token("new".to_string());
    assert_eq!(account.access_token.as_deref(), Some("new"));
    assert_eq!(account.profile_id(), 42);
    // an account that holds no identity is the offline player of its name
    let nameless = Account { username: "x".to_string(), uuid: None, access_token: None };
    assert_eq!(nameless.profile_id(), 0xb838e7412ef23b7b9558e90200080d08);
    assert_eq!(nameless.profile_id(), offline_uuid("x"));
    let jeb = Account { username: "jeb_".to_string(), uuid: None, access_token: None };
    assert_eq!(jeb.profile_id(), 0xa762f560_4fce_3236_812a_b80efff0b62b);
}

#[test]
fn account_with_a_token_needs_an_identity() {
    assert!(Account::offline("bot").is_wf());
    assert!(Account::with_access_token("bot", 1, "t".to_string()).is_wf());
    let odd = Account { username: "x".to_string(), uuid: None, access_token: Some("t".to_string()) };
    assert!(!odd.is_wf());
}
