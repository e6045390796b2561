use drift_dlob::decode::{encode_user, DecodeError};
use drift_dlob::ingest::{
    tx_stub_from_parts, AcctCtx, ChannelMsg, CommitmentLevel, GeyserClient, GeyserConfig,
    IngestError, OrderBook, RawInstruction, SlotCache, UserCache, L3,
};
use drift_dlob::order::{Direction, MarketType, OraclePriceData, Order, OrderNode, User};

fn key(b: u8) -> [u8; 32] {
    let mut k = [0u8; 32];
    k[0] = b;
    k
}

fn fixed_bid(id: u32, price: u64) -> Order {
    let mut o = Order::default();
    o.order_id = id;
    o.price = price;
    o.direction = Direction::Long;
    o
}

#[test]
fn slot_cache_get_set() {
    let mut c = SlotCache::default();
    assert_eq!(c.get(), 0);
    c.set(42);
    assert_eq!(c.get(), 42);
}

#[test]
fn user_cache_insert_get() {
    let mut c = UserCache::default();
    assert!(c.get_user(&key(1)).is_none());
    assert_eq!(c.slot(), 0);
    c.insert_user(key(1), User::new(vec![fixed_bid(1, 10)]));
    c.insert_user(key(2), User::new(vec![fixed_bid(2, 20)]));
    c.insert_user(key(1), User::new(vec![fixed_bid(3, 30)]));
    let u1 = c.get_user(&key(1)).expect("cached user");
    assert_eq!(u1.orders.len(), 1);
    assert_eq!(u1.orders[0].order_id, 3, "a re-insert overwrites");
    assert_eq!(c.get_user(&key(2)).unwrap().orders[0].order_id, 2);
}

#[test]
fn geyser_client_holds_config() {
    let cfg = GeyserConfig {
        grpc: "http://localhost:10000".to_string(),
        x_token: "SECRET-REDACTED".to_string(),
        subscribe_slots: true,
        account_owners: vec![key(7)],
        subscribe_transactions: false,
        subscribe_blocks_meta: false,
        commitment: CommitmentLevel::Processed,
    };
    let client = GeyserClient::new(cfg);
    assert!(client.cfg.subscribe_slots);
    assert_eq!(client.cfg.commitment, CommitmentLevel::Processed);
    assert_eq!(client.cfg.account_owners[0], key(7));
}

#[test]
fn l3_best_orders() {
    let n1 = OrderNode {
        order: fixed_bid(1, 100),
        user_account: key(1),
        kind: drift_dlob::order::NodeKind::RestingLimit,
    };
    let l3 = L3 { bids: vec![n1], asks: vec![], slot: 9 };
    assert_eq!(l3.best_bid().unwrap().order.order_id, 1);
    assert!(l3.best_ask().is_none());
}

#[test]
fn tx_stub_resolves_instructions() {
    let keys = vec![key(1).to_vec(), key(2).to_vec(), key(3).to_vec()];
    let ixs = vec![RawInstruction {
        program_id_index: 2,
        accounts: vec![0, 1, 200],
        data: vec![9, 9],
    }];
    let stub = tx_stub_from_parts(5, &vec![7u8; 64], &vec![8u8; 32], &keys, &ixs)
        .expect("well-formed message");
    assert_eq!(stub.slot, 5);
    assert_eq!(stub.signer, key(1).to_vec());
    assert_eq!(stub.ixs.len(), 1);
    assert_eq!(stub.ixs[0].program, key(3).to_vec());
    assert_eq!(
        stub.ixs[0].accounts,
        vec![key(1).to_vec(), key(2).to_vec()],
        "an out-of-range account index is skipped"
    );
    assert_eq!(stub.ixs[0].data, vec![9, 9]);
}

#[test]
fn tx_stub_rejects_bad_parts() {
    let keys = vec![key(1).to_vec(), vec![1, 2, 3]];
    let r = tx_stub_from_parts(5, &vec![7u8; 64], &vec![8u8; 32], &keys, &vec![]);
    assert_eq!(r.err(), Some(IngestError::BadKey));

    let r = tx_stub_from_parts(5, &vec![7u8; 64], &vec![8u8; 32], &vec![], &vec![]);
    assert_eq!(r.err(), Some(IngestError::MissingSigner));

    let keys = vec![key(1).to_vec()];
    let r = tx_stub_from_parts(5, &vec![7u8; 10], &vec![8u8; 32], &keys, &vec![]);
    assert_eq!(r.err(), Some(IngestError::BadSignature));

    let r = tx_stub_from_parts(5, &vec![7u8; 64], &vec![8u8; 10], &keys, &vec![]);
    assert_eq!(r.err(), Some(IngestError::BadBlockhash));

    let ixs = vec![RawInstruction { program_id_index: 4, accounts: vec![], data: vec![] }];
    let r = tx_stub_from_parts(5, &vec![7u8; 64], &vec![8u8; 32], &keys, &ixs);
    assert_eq!(r.err(), Some(IngestError::MissingProgram));
}

#[test]
fn order_book_slot_ticks_are_monotonic() {
    let mut book = OrderBook::new(key(9));
    assert_eq!(book.process_message(&ChannelMsg::Slot(10)), Ok(false));
    assert_eq!(book.slot.get(), 10);
    assert_eq!(book.process_message(&ChannelMsg::Slot(5)), Ok(false));
    assert_eq!(book.slot.get(), 10, "a slot never moves backward");
    assert_eq!(book.process_message(&ChannelMsg::Slot(11)), Ok(false));
    assert_eq!(book.slot.get(), 11);
}

#[test]
fn order_book_account_updates() {
    let program = key(9);
    let mut book = OrderBook::new(program);
    book.process_message(&ChannelMsg::Slot(10)).unwrap();

    let user = User::new(vec![fixed_bid(1, 100)]);
    let data = encode_user(&user);

    let foreign = ChannelMsg::Account(AcctCtx {
        key: key(1),
        owner: key(8),
        data: data.clone(),
        slot: 10,
    });
    assert_eq!(book.process_message(&foreign), Ok(false));
    assert_eq!(book.dlob.size(), (0, 0), "another program's account is ignored");

    let own = ChannelMsg::Account(AcctCtx { key: key(1), owner: program, data, slot: 10 });
    assert_eq!(book.process_message(&own), Ok(true));
    assert_eq!(book.dlob.size(), (1, 0));
    assert!(book.user_cache.get_user(&key(1)).is_some());

    let unknown = ChannelMsg::Account(AcctCtx {
        key: key(1),
        owner: program,
        data: vec![0u8; 40],
        slot: 10,
    });
    assert_eq!(
        book.process_message(&unknown),
        Ok(false),
        "an unrecognized discriminator is skipped"
    );

    let user2 = User::new(vec![fixed_bid(2, 100)]);
    let mut bad = encode_user(&user2);
    let last = bad.len() - 1;
    bad[last] = 77;
    let malformed = ChannelMsg::Account(AcctCtx { key: key(1), owner: program, data: bad, slot: 10 });
    assert_eq!(
        book.process_message(&malformed),
        Err(DecodeError::BadPayload),
        "a malformed recognized account is fatal"
    );
}

#[test]
fn order_book_seed_and_l3() {
    let mut book = OrderBook::new(key(9));
    let users = vec![
        (key(1), User::new(vec![fixed_bid(1, 100)])),
        (key(2), User::new(vec![{
            let mut o = fixed_bid(2, 105);
            o.direction = Direction::Short;
            o
        }])),
    ];
    book.seed(users, 20);
    assert_eq!(book.slot.get(), 20);
    let l3 = book.l3(MarketType::Perp, 0, OraclePriceData { price: 0, confidence: 0 });
    assert_eq!(l3.slot, 20);
    assert_eq!(l3.best_bid().unwrap().order.order_id, 1);
    assert_eq!(l3.best_ask().unwrap().order.order_id, 2);
}
