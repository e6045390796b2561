use drift_dlob::decode::{
    account_discriminator, decode_user, encode_user, ident_name, instruction_discriminator,
    AccountType, Decode, DecodeError, DiscrimToName, NameToDiscrim,
};
use drift_dlob::order::{Direction, MarketType, Order, OrderStatus, OrderType, TriggerCondition, User};
use sha2::Digest;

fn sha256_first8(preimage: &str) -> [u8; 8] {
    let mut hasher = sha2::Sha256::default();
    hasher.update(preimage.as_bytes());
    let digest = hasher.finalize();
    let mut out = [0u8; 8];
    out.copy_from_slice(&digest.as_slice()[..8]);
    out
}

/// The account discriminator is the first 8 bytes of
/// sha256("account:Name"), with the name in PascalCase.
#[test]
fn account_discriminator_matches_digest() {
    assert_eq!(account_discriminator("User"), sha256_first8("account:User"));
    assert_eq!(account_discriminator("user"), sha256_first8("account:User"));
    assert_eq!(
        account_discriminator("spot_market"),
        sha256_first8("account:SpotMarket")
    );
}

/// The instruction discriminator uses the global namespace and
/// snake_case.
#[test]
fn instruction_discriminator_matches_digest() {
    assert_eq!(
        instruction_discriminator("place_order"),
        sha256_first8("global:place_order")
    );
    assert_eq!(
        instruction_discriminator("PlaceOrder"),
        sha256_first8("global:place_order")
    );
}

/// Name to discriminator and back is the identity for the defined name.
#[test]
fn discriminator_round_trip() {
    let discrim = AccountType::name_to_discrim("User").expect("defined name");
    assert_eq!(discrim, sha256_first8("account:User"));
    let name = AccountType::discrim_to_name(discrim).expect("defined discriminator");
    assert_eq!(name, "User");
}

#[test]
fn unknown_name_is_rejected() {
    assert_eq!(
        AccountType::name_to_discrim("NoSuchAccount"),
        Err(DecodeError::UnknownName)
    );
}

#[test]
fn unknown_discriminator_is_rejected() {
    assert_eq!(
        AccountType::discrim_to_name([0u8; 8]),
        Err(DecodeError::BadDiscriminator)
    );
}

fn sample_order(id: u32) -> Order {
    Order {
        order_id: id,
        market_type: MarketType::Spot,
        market_index: 2,
        status: OrderStatus::Open,
        order_type: OrderType::Limit,
        direction: Direction::Short,
        slot: 77,
        auction_start_slot: 70,
        auction_duration: 9,
        price: 123456,
        oracle_price_offset: -42,
        trigger_price: 999,
        trigger_condition: TriggerCondition::Below,
    }
}

/// An encoded `User` round-trips through the decode interface exactly.
#[test]
fn user_encode_decode_round_trip() {
    let user = User::new(vec![sample_order(1), sample_order(2), Order::default()]);
    let bytes = encode_user(&user);
    let back = decode_user(&bytes).expect("well-formed payload");
    assert_eq!(back, user);
    match AccountType::decode(&bytes).expect("well-formed payload") {
        AccountType::User(u) => assert_eq!(u, user),
    }
}

/// A user with no orders round-trips too.
#[test]
fn empty_user_round_trip() {
    let user = User::new(vec![]);
    let bytes = encode_user(&user);
    assert_eq!(bytes.len(), 12);
    let back = decode_user(&bytes).expect("well-formed payload");
    assert_eq!(back, user);
}

#[test]
fn decode_too_short() {
    assert_eq!(decode_user(&[1, 2, 3]), Err(DecodeError::TooShort));
    assert_eq!(decode_user(&[]), Err(DecodeError::TooShort));
}

#[test]
fn decode_bad_discriminator() {
    let data = [0u8; 12];
    assert_eq!(decode_user(&data), Err(DecodeError::BadDiscriminator));
}

#[test]
fn decode_bad_length() {
    let user = User::new(vec![sample_order(1)]);
    let mut bytes = encode_user(&user);
    bytes.pop();
    assert_eq!(decode_user(&bytes), Err(DecodeError::BadPayload));
}

#[test]
fn decode_bad_tag() {
    let user = User::new(vec![sample_order(1)]);
    let mut bytes = encode_user(&user);
    let tag_at = 12 + 4;
    bytes[tag_at] = 9;
    assert_eq!(decode_user(&bytes), Err(DecodeError::BadPayload));
}

/// A bulk snapshot keeps the accounts that decode as users, in order,
/// and drops the rest.
#[test]
fn snapshot_decoding_skips_foreign_accounts() {
    let u1 = User::new(vec![sample_order(1)]);
    let u2 = User::new(vec![sample_order(2)]);
    let mut key1 = [0u8; 32];
    key1[0] = 1;
    let mut key2 = [0u8; 32];
    key2[0] = 2;
    let accounts = vec![
        (key1, drift_dlob::decode::encode_user(&u1)),
        ([9u8; 32], vec![0u8; 64]),
        (key2, drift_dlob::decode::encode_user(&u2)),
    ];
    let users = drift_dlob::decode::decode_snapshot(&accounts);
    assert_eq!(users.len(), 2);
    assert_eq!(users[0].0, key1);
    assert_eq!(users[0].1, u1);
    assert_eq!(users[1].0, key2);
    assert_eq!(users[1].1, u2);
}

/// The unqualified name is the last `::` segment.
#[test]
fn ident_name_extracts_last_segment() {
    assert_eq!(ident_name("core::option::Option"), "Option");
    assert_eq!(ident_name("alloc::vec::Vec"), "Vec");
    assert_eq!(ident_name("User"), "User");
    assert_eq!(ident_name(""), "");
}
