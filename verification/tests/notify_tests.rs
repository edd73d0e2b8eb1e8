use atlas::auth_notify;
use atlas::module_rpc::AtlasModuleId;
use atlas::user_notify::{DecimalAmount, UserUpdateNotify};

#[test]
fn decimal_amounts_stay_in_the_store_range() {
    assert_eq!(DecimalAmount::from_parts(12345, 2), Some(DecimalAmount { mantissa: 12345, scale: 2 }));
    assert_eq!(DecimalAmount::from_parts(1, 29), None);
    let max: i128 = (1i128 << 96) - 1;
    assert!(DecimalAmount::from_parts(max, 28).is_some());
    assert!(DecimalAmount::from_parts(-max, 0).is_some());
    assert_eq!(DecimalAmount::from_parts(max + 1, 0), None);
    assert_eq!(DecimalAmount::from_parts(-max - 1, 0), None);
}

#[test]
fn user_update_notices() {
    assert_eq!(auth_notify::UserUpdateNotify::MODULE_ID, AtlasModuleId::Auth);
    assert_eq!(auth_notify::UserUpdateNotify::NOTIFY_TYPE_ID, 1);
    let n = UserUpdateNotify {
        id: "u".to_string(),
        account: "acc".to_string(),
        name: "n".to_string(),
        balance: DecimalAmount::from_parts(1050, 2).unwrap(),
        avatar: None,
    };
    let c = n.clone();
    assert_eq!(c.balance, DecimalAmount { mantissa: 1050, scale: 2 });
    assert_eq!(c.account, "acc");
}
