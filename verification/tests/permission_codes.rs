use pairings::permission::{Permission, PermissionError};

#[test]
fn canonical_bytes() {
    assert_eq!(Permission::User.to_byte(), 0);
    assert_eq!(Permission::Admin.to_byte(), 1);
}

#[test]
fn byte_round_trip_is_lossless() {
    assert_eq!(
        Permission::from_byte(Permission::User.to_byte()).unwrap(),
        Permission::User
    );
    assert_eq!(
        Permission::from_byte(Permission::Admin.to_byte()).unwrap(),
        Permission::Admin
    );
}

#[test]
fn out_of_range_byte_is_rejected() {
    for b in 2..=255u8 {
        assert_eq!(
            Permission::from_byte(b),
            Err(PermissionError::UnknownPermission)
        );
    }
}
