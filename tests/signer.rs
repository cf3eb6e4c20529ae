use ob_avs::encoding::encode_settlement;
use ob_avs::job::order_eigen;
use ob_avs::order::{Address, MatchError, Order, ProposedSettlement};
use ob_avs::signer::{operator_id_from_key, settlement_digest};

fn hello_world_digest() -> [u8; 32] {
    [
        0x47, 0x17, 0x32, 0x85, 0xa8, 0xd7, 0x34, 0x1e, 0x5e, 0x97, 0x2f, 0xc6, 0x77, 0x28, 0x63,
        0x84, 0xf8, 0x02, 0xf8, 0xef, 0x42, 0xa5, 0xec, 0x5f, 0x03, 0xbb, 0xfa, 0x25, 0x4c, 0xb0,
        0x1f, 0xad,
    ]
}

fn sample_order() -> Order {
    Order {
        owner: Address::new(0x01020304, 0x0506),
        asset_offered: Address::new(0, 7),
        amount_offered: 100,
        asset_wanted: Address::new(0, 8),
        amount_wanted: 10,
        slippage: 5,
        filled: true,
        partially_filled: false,
    }
}

#[test]
fn operator_id_is_digest_of_coordinates() {
    let id = operator_id_from_key(b"hello", b" world");
    assert_eq!(id.bytes, hello_world_digest());
}

#[test]
fn operator_id_ignores_leading_zero_bytes() {
    let id = operator_id_from_key(b"\0\0hello", b" world");
    assert_eq!(id.bytes, hello_world_digest());
    let shifted = operator_id_from_key(b"hello\0", b" world");
    assert_ne!(shifted.bytes, hello_world_digest());
    let zero = operator_id_from_key(&[0, 0], &[]);
    assert!(zero.same(&operator_id_from_key(&[], &[0])));
}

#[test]
fn settlement_encoding_layout() {
    let o = sample_order();
    let p = ProposedSettlement { task_index: 0x0a0b, incoming: o, counter: o, matched_index: Some(3) };
    let bytes = encode_settlement(&p);
    assert_eq!(bytes.len(), 18 * 32);
    assert_eq!(&bytes[28..32], &[0, 0, 0x0a, 0x0b]);
    assert!(bytes[..30].iter().all(|b| *b == 0));
    // The owner word: twelve zero bytes, then the top four bytes, then the low sixteen.
    assert!(bytes[32..44].iter().all(|b| *b == 0));
    assert_eq!(&bytes[44..48], &[1, 2, 3, 4]);
    assert_eq!(&bytes[62..64], &[5, 6]);
    // The amount offered and the filled flag.
    assert_eq!(bytes[32 + 3 * 32 - 1], 100);
    assert_eq!(bytes[32 + 7 * 32 - 1], 1);
    assert_eq!(bytes[32 + 8 * 32 - 1], 0);
    assert_eq!(bytes[18 * 32 - 1], 3);
    let none = ProposedSettlement { matched_index: None, ..p };
    assert_eq!(encode_settlement(&none)[18 * 32 - 1], 0);
}

#[test]
fn digest_is_keccak_of_encoding() {
    let o = sample_order();
    let p = ProposedSettlement { task_index: 1, incoming: o, counter: o, matched_index: None };
    let expected = alloy_primitives::keccak256(encode_settlement(&p)).0;
    assert_eq!(settlement_digest(&p), expected);
}

#[test]
fn order_eigen_prepares_signed_content() {
    let mut a = sample_order();
    a.filled = false;
    let prepared = order_eigen(&a, &vec![], 4).unwrap();
    assert_eq!(prepared.settlement.matched_index, None);
    assert_eq!(prepared.settlement.task_index, 4);
    assert_eq!(prepared.digest, settlement_digest(&prepared.settlement));
    a.amount_wanted = 0;
    assert_eq!(order_eigen(&a, &vec![], 4).err(), Some(MatchError::MatchingPrecondition));
}
