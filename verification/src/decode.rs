//! Discriminator derivation and the account decode interface: an account
//! payload is an 8-byte discriminator derived from the account's name,
//! followed by the account's binary encoding.

use vstd::prelude::*;
use vstd::bytes::{
    lemma_auto_spec_u16_to_from_le_bytes, lemma_auto_spec_u32_to_from_le_bytes,
    lemma_auto_spec_u64_to_from_le_bytes, spec_u16_from_le_bytes, spec_u16_to_le_bytes,
    spec_u32_from_le_bytes, spec_u32_to_le_bytes, spec_u64_from_le_bytes, spec_u64_to_le_bytes,
    u16_from_le_bytes, u16_to_le_bytes, u32_from_le_bytes, u32_to_le_bytes, u64_from_le_bytes,
    u64_to_le_bytes,
};
use crate::order::{
    Direction, MarketType, Order, OrderStatus, OrderType, TriggerCondition, User,
};

verus! {

/// The digest-derived tag of a namespaced name: the first 8 bytes of the
/// SHA-256 of `"namespace:name"`.  The digest depends on the two strings
/// alone; its value is not modelled here.
pub uninterp spec fn sighash_of(namespace: Seq<char>, name: Seq<char>) -> Seq<u8>;

/// What heck's PascalCase conversion returns; a function of the input
/// characters alone.
pub uninterp spec fn pascal_of(s: Seq<char>) -> Seq<char>;

/// What heck's snake_case conversion returns; a function of the input
/// characters alone.
pub uninterp spec fn snake_of(s: Seq<char>) -> Seq<char>;

/// Relies on sha2::Sha256: the result is the first 8 bytes of the digest
/// of `"namespace:name"`, a function of the two strings alone.
#[verifier::external_body]
pub(crate) fn sighash(namespace: &str, name: &str) -> (r: [u8; 8])
    ensures
        r@ == sighash_of(namespace@, name@),
{
    let preimage = format!("{namespace}:{name}");
    let mut hasher = sha2::Sha256::default();
    let mut out = <[u8; 8]>::default();
    sha2::Digest::update(&mut hasher, preimage.as_bytes());
    let digest = sha2::Digest::finalize(hasher);
    out.copy_from_slice(&digest.as_slice()[..8]);
    out
}

/// Relies on heck::ToPascalCase: the result depends on the input
/// characters alone.
#[verifier::external_body]
fn to_pascal_case(s: &str) -> (r: String)
    ensures
        r@ == pascal_of(s@),
{
    heck::ToPascalCase::to_pascal_case(s)
}

/// Relies on heck::ToSnakeCase: the result depends on the input
/// characters alone.
#[verifier::external_body]
fn to_snake_case(s: &str) -> (r: String)
    ensures
        r@ == snake_of(s@),
{
    heck::ToSnakeCase::to_snake_case(s)
}

/// The discriminator of an account name: accounts are tagged in the
/// `account` namespace with their name in PascalCase.
pub open spec fn account_discriminator_spec(name: Seq<char>) -> Seq<u8> {
    sighash_of("account"@, pascal_of(name))
}

/// The discriminator of an instruction name: instructions are tagged in
/// the `global` namespace with their name in snake_case.
pub open spec fn instruction_discriminator_spec(name: Seq<char>) -> Seq<u8> {
    sighash_of("global"@, snake_of(name))
}

/// Derives the account discriminator from the account name.
pub fn account_discriminator(name: &str) -> (r: [u8; 8])
    ensures
        r@ == account_discriminator_spec(name@),
{
    let pascal = to_pascal_case(name);
    sighash("account", pascal.as_str())
}

/// Derives the instruction discriminator from the instruction name.
pub fn instruction_discriminator(name: &str) -> (r: [u8; 8])
    ensures
        r@ == instruction_discriminator_spec(name@),
{
    let snake = to_snake_case(name);
    sighash("global", snake.as_str())
}

/// Where the last `::` separator ends in a path string; 0 when there is
/// none.
pub open spec fn last_sep_end(s: Seq<char>) -> int
    decreases s.len(),
{
    if s.len() < 2 {
        0
    } else if s[s.len() - 2] == ':' && s[s.len() - 1] == ':' {
        s.len() as int
    } else {
        last_sep_end(s.drop_last())
    }
}

/// The final segment of a `::`-separated path.
pub open spec fn last_segment_spec(s: Seq<char>) -> Seq<char> {
    s.skip(last_sep_end(s))
}

pub proof fn lemma_last_sep_end_bounds(s: Seq<char>)
    ensures
        0 <= last_sep_end(s) <= s.len(),
    decreases s.len(),
{
    if s.len() >= 2 && !(s[s.len() - 2] == ':' && s[s.len() - 1] == ':') {
        lemma_last_sep_end_bounds(s.drop_last());
    }
}

/// The unqualified name at the end of a qualified type path: the
/// characters after the last `::` separator.
pub fn ident_name(s: &str) -> (r: String)
    ensures
        r@ == last_segment_spec(s@),
{
    let n = s.unicode_len();
    if n < 2 {
        proof {
            assert(s@.skip(0) =~= s@);
        }
        return s.to_owned();
    }
    let mut best: usize = 0;
    let mut i: usize = 1;
    proof {
        assert(s@.take(1int).len() == 1);
        assert(last_sep_end(s@.take(1int)) == 0);
    }
    while i < n
        invariant
            1 <= i <= n,
            2 <= n == s@.len(),
            best as int == last_sep_end(s@.take(i as int)),
        decreases n - i,
    {
        let a = s.get_char(i - 1);
        let b = s.get_char(i);
        proof {
            let t = s@.take(i as int + 1);
            assert(t.drop_last() =~= s@.take(i as int));
            assert(t[t.len() - 2] == s@[i as int - 1]);
            assert(t[t.len() - 1] == s@[i as int]);
        }
        if a == ':' && b == ':' {
            best = i + 1;
        }
        i += 1;
    }
    proof {
        assert(s@.take(n as int) =~= s@);
        lemma_last_sep_end_bounds(s@);
    }
    let seg = s.substring_char(best, n);
    seg.to_owned()
}

/// Why a payload was rejected.
#[derive(Clone, Copy, Debug, PartialEq, Eq, Structural)]
pub enum DecodeError {
    /// Fewer bytes than a discriminator and a length prefix need.
    TooShort,
    /// The 8-byte prefix tags no known account.
    BadDiscriminator,
    /// The payload length or an enum tag is wrong.
    BadPayload,
    /// No account of that name is defined.
    UnknownName,
}

pub open spec fn market_type_tag(t: MarketType) -> u8 {
    match t {
        MarketType::Perp => 0,
        MarketType::Spot => 1,
    }
}

pub open spec fn status_tag(t: OrderStatus) -> u8 {
    match t {
        OrderStatus::Init => 0,
        OrderStatus::Open => 1,
        OrderStatus::Filled => 2,
        OrderStatus::Canceled => 3,
    }
}

pub open spec fn order_type_tag(t: OrderType) -> u8 {
    match t {
        OrderType::Market => 0,
        OrderType::Limit => 1,
        OrderType::TriggerMarket => 2,
        OrderType::TriggerLimit => 3,
        OrderType::Oracle => 4,
    }
}

pub open spec fn direction_tag(t: Direction) -> u8 {
    match t {
        Direction::Long => 0,
        Direction::Short => 1,
    }
}

pub open spec fn trigger_tag(t: TriggerCondition) -> u8 {
    match t {
        TriggerCondition::Above => 0,
        TriggerCondition::Below => 1,
    }
}

/// A price offset as stored: two's-complement in 32 bits.
pub open spec fn offset_to_u32(x: i32) -> u32 {
    if x >= 0 {
        x as u32
    } else {
        (x + 0x1_0000_0000) as u32
    }
}

pub open spec fn u32_to_offset(u: u32) -> i32 {
    if u < 0x8000_0000 {
        u as i32
    } else {
        (u - 0x1_0000_0000) as i32
    }
}

/// The 48-byte encoding of one order: little-endian fields, one tag byte
/// per enum.
pub open spec fn enc_order(o: Order) -> Seq<u8> {
    spec_u32_to_le_bytes(o.order_id).add(seq![market_type_tag(o.market_type)]).add(
        spec_u16_to_le_bytes(o.market_index),
    ).add(seq![status_tag(o.status), order_type_tag(o.order_type), direction_tag(o.direction)]).add(
        spec_u64_to_le_bytes(o.slot),
    ).add(spec_u64_to_le_bytes(o.auction_start_slot)).add(seq![o.auction_duration]).add(
        spec_u64_to_le_bytes(o.price),
    ).add(spec_u32_to_le_bytes(offset_to_u32(o.oracle_price_offset))).add(
        spec_u64_to_le_bytes(o.trigger_price),
    ).add(seq![trigger_tag(o.trigger_condition)])
}

pub open spec fn enc_orders(s: Seq<Order>) -> Seq<u8>
    decreases s.len(),
{
    if s.len() == 0 {
        Seq::empty()
    } else {
        enc_order(s[0]).add(enc_orders(s.drop_first()))
    }
}

/// The discriminator that tags a `User` account.
pub open spec fn user_discrim() -> Seq<u8> {
    account_discriminator_spec("User"@)
}

/// The full encoding of a `User` account: discriminator, order count,
/// then each order.
pub open spec fn enc_user(orders: Seq<Order>) -> Seq<u8> {
    user_discrim().add(spec_u32_to_le_bytes(orders.len() as u32)).add(enc_orders(orders))
}

/// Decode one 48-byte order; an unknown enum tag rejects the payload.
pub open spec fn dec_order(b: Seq<u8>) -> Result<Order, DecodeError> {
    let mt = b[4];
    let st = b[7];
    let ot = b[8];
    let dr = b[9];
    let tc = b[47];
    if mt > 1 || st > 3 || ot > 4 || dr > 1 || tc > 1 {
        Err(DecodeError::BadPayload)
    } else {
        Ok(
            Order {
                order_id: spec_u32_from_le_bytes(b.subrange(0, 4)),
                market_type: if mt == 0 {
                    MarketType::Perp
                } else {
                    MarketType::Spot
                },
                market_index: spec_u16_from_le_bytes(b.subrange(5, 7)),
                status: if st == 0 {
                    OrderStatus::Init
                } else if st == 1 {
                    OrderStatus::Open
                } else if st == 2 {
                    OrderStatus::Filled
                } else {
                    OrderStatus::Canceled
                },
                order_type: if ot == 0 {
                    OrderType::Market
                } else if ot == 1 {
                    OrderType::Limit
                } else if ot == 2 {
                    OrderType::TriggerMarket
                } else if ot == 3 {
                    OrderType::TriggerLimit
                } else {
                    OrderType::Oracle
                },
                direction: if dr == 0 {
                    Direction::Long
                } else {
                    Direction::Short
                },
                slot: spec_u64_from_le_bytes(b.subrange(10, 18)),
                auction_start_slot: spec_u64_from_le_bytes(b.subrange(18, 26)),
                auction_duration: b[26],
                price: spec_u64_from_le_bytes(b.subrange(27, 35)),
                oracle_price_offset: u32_to_offset(spec_u32_from_le_bytes(b.subrange(35, 39))),
                trigger_price: spec_u64_from_le_bytes(b.subrange(39, 47)),
                trigger_condition: if tc == 0 {
                    TriggerCondition::Above
                } else {
                    TriggerCondition::Below
                },
            },
        )
    }
}

pub open spec fn dec_orders(b: Seq<u8>, n: nat) -> Result<Seq<Order>, DecodeError>
    decreases n,
{
    if n == 0 {
        Ok(Seq::empty())
    } else {
        match dec_order(b.take(48)) {
            Err(e) => Err(e),
            Ok(o) => match dec_orders(b.skip(48), (n - 1) as nat) {
                Err(e) => Err(e),
                Ok(rest) => Ok(seq![o].add(rest)),
            },
        }
    }
}

/// Decode a `User` account payload: the discriminator must match, the
/// length must be exactly what the order count demands, and every enum
/// tag must be known.
pub open spec fn decode_user_spec(data: Seq<u8>) -> Result<Seq<Order>, DecodeError> {
    if data.len() < 12 {
        Err(DecodeError::TooShort)
    } else if data.subrange(0, 8) != user_discrim() {
        Err(DecodeError::BadDiscriminator)
    } else {
        let n = spec_u32_from_le_bytes(data.subrange(8, 12));
        if data.len() != 12 + 48 * n {
            Err(DecodeError::BadPayload)
        } else {
            dec_orders(data.skip(12), n as nat)
        }
    }
}

/// Byte-wise equality of two 8-byte tags.
pub fn discrim_eq(a: &[u8; 8], b: &[u8; 8]) -> (r: bool)
    ensures
        r == (a@ == b@),
{
    let mut i: usize = 0;
    while i < 8
        invariant
            0 <= i <= 8,
            forall|j: int| 0 <= j < i ==> a@[j] == b@[j],
        decreases 8 - i,
    {
        if a[i] != b[i] {
            return false;
        }
        i += 1;
    }
    proof {
        assert(a@ =~= b@);
    }
    true
}

pub proof fn lemma_enc_order_len(o: Order)
    ensures
        enc_order(o).len() == 48,
{
    lemma_auto_spec_u16_to_from_le_bytes();
    lemma_auto_spec_u32_to_from_le_bytes();
    lemma_auto_spec_u64_to_from_le_bytes();
}

pub proof fn lemma_enc_orders_len(s: Seq<Order>)
    ensures
        enc_orders(s).len() == 48 * s.len(),
    decreases s.len(),
{
    if s.len() > 0 {
        lemma_enc_order_len(s[0]);
        lemma_enc_orders_len(s.drop_first());
    }
}

/// Appending one order to a sequence appends its encoding.
pub proof fn lemma_enc_orders_snoc(s: Seq<Order>, o: Order)
    ensures
        enc_orders(s.push(o)) == enc_orders(s).add(enc_order(o)),
    decreases s.len(),
{
    if s.len() == 0 {
        assert(s.push(o)[0] == o);
        assert(s.push(o).drop_first() =~= Seq::<Order>::empty());
        assert(enc_orders(Seq::<Order>::empty()) =~= Seq::<u8>::empty());
        assert(enc_orders(s.push(o)) =~= enc_order(o).add(Seq::<u8>::empty()));
        assert(enc_orders(s.push(o)) =~= enc_orders(s).add(enc_order(o)));
    } else {
        assert(s.push(o)[0] == s[0]);
        assert(s.push(o).drop_first() =~= s.drop_first().push(o));
        lemma_enc_orders_snoc(s.drop_first(), o);
        assert(enc_orders(s.push(o)) =~= enc_orders(s).add(enc_order(o)));
    }
}

/// Decoding inverts encoding for one order.
pub proof fn lemma_dec_enc_order(o: Order)
    ensures
        dec_order(enc_order(o)) == Ok::<Order, DecodeError>(o),
{
    lemma_auto_spec_u16_to_from_le_bytes();
    lemma_auto_spec_u32_to_from_le_bytes();
    lemma_auto_spec_u64_to_from_le_bytes();
    let b = enc_order(o);
    assert(b.subrange(0, 4) =~= spec_u32_to_le_bytes(o.order_id));
    assert(b[4] == market_type_tag(o.market_type));
    assert(b.subrange(5, 7) =~= spec_u16_to_le_bytes(o.market_index));
    assert(b[7] == status_tag(o.status));
    assert(b[8] == order_type_tag(o.order_type));
    assert(b[9] == direction_tag(o.direction));
    assert(b.subrange(10, 18) =~= spec_u64_to_le_bytes(o.slot));
    assert(b.subrange(18, 26) =~= spec_u64_to_le_bytes(o.auction_start_slot));
    assert(b[26] == o.auction_duration);
    assert(b.subrange(27, 35) =~= spec_u64_to_le_bytes(o.price));
    assert(b.subrange(35, 39) =~= spec_u32_to_le_bytes(offset_to_u32(o.oracle_price_offset)));
    assert(b.subrange(39, 47) =~= spec_u64_to_le_bytes(o.trigger_price));
    assert(b[47] == trigger_tag(o.trigger_condition));
    assert(u32_to_offset(offset_to_u32(o.oracle_price_offset)) == o.oracle_price_offset);
}

pub proof fn lemma_dec_enc_orders(s: Seq<Order>)
    ensures
        dec_orders(enc_orders(s), s.len() as nat) == Ok::<Seq<Order>, DecodeError>(s),
    decreases s.len(),
{
    if s.len() == 0 {
        assert(s =~= Seq::<Order>::empty());
    } else {
        let b = enc_orders(s);
        lemma_enc_order_len(s[0]);
        lemma_enc_orders_len(s.drop_first());
        assert(b.take(48) =~= enc_order(s[0]));
        assert(b.skip(48) =~= enc_orders(s.drop_first()));
        lemma_dec_enc_order(s[0]);
        lemma_dec_enc_orders(s.drop_first());
        assert(seq![s[0]].add(s.drop_first()) =~= s);
    }
}

/// An encoded `User` account decodes back to exactly its orders.
pub proof fn lemma_user_round_trip(orders: Seq<Order>)
    requires
        user_discrim().len() == 8,
        orders.len() <= u32::MAX,
    ensures
        decode_user_spec(enc_user(orders)) == Ok::<Seq<Order>, DecodeError>(orders),
{
    lemma_auto_spec_u32_to_from_le_bytes();
    lemma_enc_orders_len(orders);
    let data = enc_user(orders);
    assert(data.subrange(0, 8) =~= user_discrim());
    assert(data.subrange(8, 12) =~= spec_u32_to_le_bytes(orders.len() as u32));
    assert(data.skip(12) =~= enc_orders(orders));
    lemma_dec_enc_orders(orders);
}

/// Encode one order as its 48 bytes.
fn encode_order(o: &Order) -> (r: Vec<u8>)
    ensures
        r@ == enc_order(*o),
{
    let mut out: Vec<u8> = Vec::new();
    let mut t4 = u32_to_le_bytes(o.order_id);
    out.append(&mut t4);
    let mt: u8 = match o.market_type {
        MarketType::Perp => 0,
        MarketType::Spot => 1,
    };
    out.push(mt);
    let mut t2 = u16_to_le_bytes(o.market_index);
    out.append(&mut t2);
    let st: u8 = match o.status {
        OrderStatus::Init => 0,
        OrderStatus::Open => 1,
        OrderStatus::Filled => 2,
        OrderStatus::Canceled => 3,
    };
    out.push(st);
    let ot: u8 = match o.order_type {
        OrderType::Market => 0,
        OrderType::Limit => 1,
        OrderType::TriggerMarket => 2,
        OrderType::TriggerLimit => 3,
        OrderType::Oracle => 4,
    };
    out.push(ot);
    let dr: u8 = match o.direction {
        Direction::Long => 0,
        Direction::Short => 1,
    };
    out.push(dr);
    let mut t8 = u64_to_le_bytes(o.slot);
    out.append(&mut t8);
    let mut t8b = u64_to_le_bytes(o.auction_start_slot);
    out.append(&mut t8b);
    out.push(o.auction_duration);
    let mut t8c = u64_to_le_bytes(o.price);
    out.append(&mut t8c);
    let off_u: u32 = if o.oracle_price_offset >= 0 {
        o.oracle_price_offset as u32
    } else {
        ((o.oracle_price_offset as i64) + 4294967296i64) as u32
    };
    proof {
        assert(off_u == offset_to_u32(o.oracle_price_offset));
    }
    let mut t4b = u32_to_le_bytes(off_u);
    out.append(&mut t4b);
    let mut t8d = u64_to_le_bytes(o.trigger_price);
    out.append(&mut t8d);
    let tc: u8 = match o.trigger_condition {
        TriggerCondition::Above => 0,
        TriggerCondition::Below => 1,
    };
    out.push(tc);
    proof {
        assert(out@ =~= enc_order(*o));
    }
    out
}

/// Encode a `User` account: discriminator, order count, then each order.
pub fn encode_user(user: &User) -> (r: Vec<u8>)
    requires
        user.orders@.len() <= u32::MAX,
    ensures
        r@ == enc_user(user.orders@),
{
    let discrim = account_discriminator("User");
    let mut out: Vec<u8> = Vec::new();
    let mut i: usize = 0;
    while i < 8
        invariant
            0 <= i <= 8,
            discrim@ == user_discrim(),
            out@ == discrim@.take(i as int),
        decreases 8 - i,
    {
        out.push(discrim[i]);
        proof {
            assert(out@ =~= discrim@.take(i as int + 1));
        }
        i += 1;
    }
    proof {
        assert(out@ =~= user_discrim());
    }
    let mut lenb = u32_to_le_bytes(user.orders.len() as u32);
    out.append(&mut lenb);
    let ghost head = out@;
    let ghost orders = user.orders@;
    let mut k: usize = 0;
    proof {
        assert(orders.take(0) =~= Seq::<Order>::empty());
        assert(head.add(enc_orders(orders.take(0))) =~= head);
    }
    while k < user.orders.len()
        invariant
            0 <= k <= orders.len(),
            orders == user.orders@,
            head == user_discrim().add(spec_u32_to_le_bytes(orders.len() as u32)),
            out@ == head.add(enc_orders(orders.take(k as int))),
        decreases orders.len() - k,
    {
        let mut ob = encode_order(&user.orders[k]);
        out.append(&mut ob);
        proof {
            assert(orders.take(k as int + 1) =~= orders.take(k as int).push(orders[k as int]));
            lemma_enc_orders_snoc(orders.take(k as int), orders[k as int]);
            assert(out@ =~= head.add(enc_orders(orders.take(k as int + 1))));
        }
        k += 1;
    }
    proof {
        assert(orders.take(k as int) =~= orders);
        assert(out@ =~= enc_user(orders));
    }
    out
}

/// Decode the 48-byte order at `off`.
fn decode_order_at(b: &[u8], off: usize) -> (r: Result<Order, DecodeError>)
    requires
        off + 48 <= b@.len(),
    ensures
        r == dec_order(b@.subrange(off as int, off as int + 48)),
{
    let total = b.len();
    let ghost chunk = b@.subrange(off as int, off as int + 48);
    let mt = b[off + 4];
    let st = b[off + 7];
    let ot = b[off + 8];
    let dr = b[off + 9];
    let tc = b[off + 47];
    proof {
        assert(chunk[4] == b@[off as int + 4]);
        assert(chunk[7] == b@[off as int + 7]);
        assert(chunk[8] == b@[off as int + 8]);
        assert(chunk[9] == b@[off as int + 9]);
        assert(chunk[47] == b@[off as int + 47]);
    }
    if mt > 1 || st > 3 || ot > 4 || dr > 1 || tc > 1 {
        return Err(DecodeError::BadPayload);
    }
    let order_id = u32_from_le_bytes(&b[off..off + 4]);
    let market_index = u16_from_le_bytes(&b[off + 5..off + 7]);
    let slot = u64_from_le_bytes(&b[off + 10..off + 18]);
    let auction_start_slot = u64_from_le_bytes(&b[off + 18..off + 26]);
    let auction_duration = b[off + 26];
    let price = u64_from_le_bytes(&b[off + 27..off + 35]);
    let off_u = u32_from_le_bytes(&b[off + 35..off + 39]);
    let trigger_price = u64_from_le_bytes(&b[off + 39..off + 47]);
    proof {
        assert(chunk.subrange(0, 4) =~= b@.subrange(off as int, off as int + 4));
        assert(chunk.subrange(5, 7) =~= b@.subrange(off as int + 5, off as int + 7));
        assert(chunk.subrange(10, 18) =~= b@.subrange(off as int + 10, off as int + 18));
        assert(chunk.subrange(18, 26) =~= b@.subrange(off as int + 18, off as int + 26));
        assert(chunk.subrange(27, 35) =~= b@.subrange(off as int + 27, off as int + 35));
        assert(chunk.subrange(35, 39) =~= b@.subrange(off as int + 35, off as int + 39));
        assert(chunk.subrange(39, 47) =~= b@.subrange(off as int + 39, off as int + 47));
        assert(chunk[26] == b@[off as int + 26]);
    }
    let oracle_price_offset: i32 = if off_u < 0x8000_0000 {
        off_u as i32
    } else {
        ((off_u as i64) - 4294967296i64) as i32
    };
    proof {
        assert(oracle_price_offset == u32_to_offset(off_u));
    }
    Ok(
        Order {
            order_id,
            market_type: if mt == 0 {
                MarketType::Perp
            } else {
                MarketType::Spot
            },
            market_index,
            status: if st == 0 {
                OrderStatus::Init
            } else if st == 1 {
                OrderStatus::Open
            } else if st == 2 {
                OrderStatus::Filled
            } else {
                OrderStatus::Canceled
            },
            order_type: if ot == 0 {
                OrderType::Market
            } else if ot == 1 {
                OrderType::Limit
            } else if ot == 2 {
                OrderType::TriggerMarket
            } else if ot == 3 {
                OrderType::TriggerLimit
            } else {
                OrderType::Oracle
            },
            direction: if dr == 0 {
                Direction::Long
            } else {
                Direction::Short
            },
            slot,
            auction_start_slot,
            auction_duration,
            price,
            oracle_price_offset,
            trigger_price,
            trigger_condition: if tc == 0 {
                TriggerCondition::Above
            } else {
                TriggerCondition::Below
            },
        },
    )
}

/// Decode a `User` account from a discriminator-prefixed payload.
#[verifier::loop_isolation(false)]
pub fn decode_user(data: &[u8]) -> (r: Result<User, DecodeError>)
    ensures
        match r {
            Ok(u) => decode_user_spec(data@) == Ok::<Seq<Order>, DecodeError>(u.orders@),
            Err(e) => decode_user_spec(data@) == Err::<Seq<Order>, DecodeError>(e),
        },
{
    if data.len() < 12 {
        return Err(DecodeError::TooShort);
    }
    let expected = account_discriminator("User");
    let mut i: usize = 0;
    while i < 8
        invariant
            0 <= i <= 8,
            data@.len() >= 12,
            expected@ == user_discrim(),
            forall|j: int| 0 <= j < i ==> data@[j] == expected@[j],
        decreases 8 - i,
    {
        if data[i] != expected[i] {
            proof {
                assert(data@.subrange(0, 8)[i as int] == data@[i as int]);
                assert(data@.subrange(0, 8) != user_discrim());
            }
            return Err(DecodeError::BadDiscriminator);
        }
        i += 1;
    }
    proof {
        assert(data@.subrange(0, 8) =~= user_discrim());
    }
    let n = u32_from_le_bytes(&data[8..12]);
    proof {
        assert(data@.subrange(8, 12) =~= data@.subrange(8int, 12int));
    }
    let need: u128 = 12u128 + 48u128 * (n as u128);
    if (data.len() as u128) != need {
        return Err(DecodeError::BadPayload);
    }
    let ghost body = data@.skip(12);
    let mut orders: Vec<Order> = Vec::new();
    let mut k: usize = 0;
    proof {
        assert(orders@ =~= Seq::<Order>::empty());
    }
    while k < n as usize
        invariant
            0 <= k <= n,
            data@.len() == 12 + 48 * n,
            body == data@.skip(12),
            orders@.len() == k,
            dec_orders(body, n as nat) == (match dec_orders(
                data@.skip(12 + 48 * k as int),
                (n - k) as nat,
            ) {
                Ok(rest) => Ok::<Seq<Order>, DecodeError>(orders@.add(rest)),
                Err(e) => Err::<Seq<Order>, DecodeError>(e),
            }),
        decreases n - k,
    {
        proof {
            assert(12 + 48 * (k as int) + 48 <= data@.len());
        }
        let off = 12 + 48 * k;
        let ghost sub = data@.skip(12 + 48 * k as int);
        proof {
            assert(sub.take(48) =~= data@.subrange(off as int, off as int + 48));
            assert(sub.skip(48) =~= data@.skip(12 + 48 * (k as int + 1)));
        }
        match decode_order_at(data, off) {
            Err(e) => {
                return Err(e);
            },
            Ok(o) => {
                let ghost prev = orders@;
                orders.push(o);
                proof {
                    let rest2 = dec_orders(data@.skip(12 + 48 * (k as int + 1)), (n - k - 1) as nat);
                    if rest2 is Ok {
                        assert(prev.add(seq![o].add(rest2->Ok_0)) =~= orders@.add(
                            rest2->Ok_0,
                        ));
                    }
                }
            },
        }
        k += 1;
    }
    proof {
        assert(data@.skip(12 + 48 * k as int) =~= Seq::<u8>::empty());
        assert(dec_orders(data@.skip(12 + 48 * k as int), 0) == Ok::<Seq<Order>, DecodeError>(
            Seq::empty(),
        ));
        assert(orders@.add(Seq::<Order>::empty()) =~= orders@);
    }
    Ok(User { orders })
}


/// What decoding a bulk account snapshot keeps: the accounts that decode
/// as `User`, in snapshot order; the rest are dropped silently.
pub open spec fn snapshot_users_spec(s: Seq<([u8; 32], Vec<u8>)>) -> Seq<([u8; 32], Seq<Order>)>
    decreases s.len(),
{
    if s.len() == 0 {
        Seq::empty()
    } else {
        let rest = snapshot_users_spec(s.drop_first());
        match decode_user_spec(s[0].1@) {
            Ok(orders) => seq![(s[0].0, orders)].add(rest),
            Err(_) => rest,
        }
    }
}

/// Decode a bulk snapshot of program accounts into users: an account
/// that does not decode as a `User` is skipped.
#[verifier::loop_isolation(false)]
pub fn decode_snapshot(accounts: &Vec<([u8; 32], Vec<u8>)>) -> (r: Vec<([u8; 32], User)>)
    ensures
        r@.map_values(|p: ([u8; 32], User)| (p.0, p.1@)) == snapshot_users_spec(accounts@),
{
    let ghost src = accounts@;
    let mut out: Vec<([u8; 32], User)> = Vec::new();
    let mut i: usize = 0;
    proof {
        assert(src.skip(0) =~= src);
        assert(out@.map_values(|p: ([u8; 32], User)| (p.0, p.1@)) =~= Seq::<
            ([u8; 32], Seq<Order>),
        >::empty());
    }
    while i < accounts.len()
        invariant
            0 <= i <= src.len(),
            out@.map_values(|p: ([u8; 32], User)| (p.0, p.1@)).add(
                snapshot_users_spec(src.skip(i as int)),
            ) == snapshot_users_spec(src),
        decreases src.len() - i,
    {
        let ghost rest = src.skip(i as int);
        let ghost prev = out@.map_values(|p: ([u8; 32], User)| (p.0, p.1@));
        proof {
            assert(rest[0] == src[i as int]);
            assert(rest.drop_first() =~= src.skip(i as int + 1));
        }
        match decode_user(&accounts[i].1) {
            Ok(user) => {
                out.push((accounts[i].0, user));
                proof {
                    assert(out@.map_values(|p: ([u8; 32], User)| (p.0, p.1@)) =~= prev.push(
                        (src[i as int].0, out@.last().1@),
                    ));
                    assert(prev.push((src[i as int].0, out@.last().1@)).add(
                        snapshot_users_spec(src.skip(i as int + 1)),
                    ) =~= prev.add(
                        seq![(src[i as int].0, out@.last().1@)].add(
                            snapshot_users_spec(src.skip(i as int + 1)),
                        ),
                    ));
                }
            },
            Err(_) => {
            },
        }
        i += 1;
    }
    proof {
        assert(src.skip(i as int) =~= Seq::<([u8; 32], Vec<u8>)>::empty());
        assert(out@.map_values(|p: ([u8; 32], User)| (p.0, p.1@)).add(
            Seq::<([u8; 32], Seq<Order>)>::empty(),
        ) =~= out@.map_values(|p: ([u8; 32], User)| (p.0, p.1@)));
    }
    out
}

/// The tagged account variants the decode interface can produce.
#[derive(Clone, Debug, PartialEq)]
pub enum AccountType {
    User(User),
}

/// Deserialize a program account from its discriminator-prefixed bytes.
pub trait Decode: Sized {
    /// What a decode result means for this account family.
    spec fn decoded(data: Seq<u8>, r: Result<Self, DecodeError>) -> bool;

    fn decode(data: &[u8]) -> (r: Result<Self, DecodeError>)
        ensures
            Self::decoded(data@, r),
    ;
}

impl Decode for AccountType {
    open spec fn decoded(data: Seq<u8>, r: Result<AccountType, DecodeError>) -> bool {
        match r {
            Ok(AccountType::User(u)) => decode_user_spec(data) == Ok::<Seq<Order>, DecodeError>(
                u.orders@,
            ),
            Err(e) => decode_user_spec(data) == Err::<Seq<Order>, DecodeError>(e),
        }
    }

    fn decode(data: &[u8]) -> (r: Result<AccountType, DecodeError>) {
        match decode_user(data) {
            Ok(u) => Ok(AccountType::User(u)),
            Err(e) => Err(e),
        }
    }
}

/// Executable string equality over views.
fn str_eq(a: &str, b: &str) -> (r: bool)
    ensures
        r == (a@ == b@),
{
    let ao = a.to_owned();
    let bo = b.to_owned();
    ao == bo
}

/// Map a defined account name to its discriminator.
pub trait NameToDiscrim: Sized {
    /// Whether this account family defines the name.
    spec fn known_name(name: Seq<char>) -> bool;

    /// The discriminator a defined name maps to.
    spec fn discrim_of_name(name: Seq<char>) -> Seq<u8>;

    fn name_to_discrim(name: &str) -> (r: Result<[u8; 8], DecodeError>)
        ensures
            match r {
                Ok(d) => Self::known_name(name@) && d@ == Self::discrim_of_name(name@),
                Err(e) => !Self::known_name(name@) && e == DecodeError::UnknownName,
            },
    ;
}

impl NameToDiscrim for AccountType {
    open spec fn known_name(name: Seq<char>) -> bool {
        name == "User"@
    }

    open spec fn discrim_of_name(name: Seq<char>) -> Seq<u8> {
        account_discriminator_spec(name)
    }

    fn name_to_discrim(name: &str) -> (r: Result<[u8; 8], DecodeError>) {
        if str_eq(name, "User") {
            Ok(account_discriminator(name))
        } else {
            Err(DecodeError::UnknownName)
        }
    }
}

/// Map a discriminator back to the account name it tags.
pub trait DiscrimToName: Sized {
    /// Whether this account family defines the discriminator.
    spec fn known_discrim(d: Seq<u8>) -> bool;

    /// The name a defined discriminator maps to.
    spec fn name_of_discrim(d: Seq<u8>) -> Seq<char>;

    fn discrim_to_name(discrim: [u8; 8]) -> (r: Result<String, DecodeError>)
        ensures
            match r {
                Ok(s) => Self::known_discrim(discrim@) && s@ == Self::name_of_discrim(discrim@),
                Err(e) => !Self::known_discrim(discrim@) && e == DecodeError::BadDiscriminator,
            },
    ;
}

impl DiscrimToName for AccountType {
    open spec fn known_discrim(d: Seq<u8>) -> bool {
        d == user_discrim()
    }

    open spec fn name_of_discrim(d: Seq<u8>) -> Seq<char> {
        "User"@
    }

    fn discrim_to_name(discrim: [u8; 8]) -> (r: Result<String, DecodeError>) {
        let expected = account_discriminator("User");
        if discrim_eq(&discrim, &expected) {
            Ok("User".to_owned())
        } else {
            Err(DecodeError::BadDiscriminator)
        }
    }
}

/// Round trip: deriving a defined account name's discriminator and
/// looking it back up yields the name; a defined discriminator maps to a
/// name whose discriminator is itself.
pub proof fn lemma_name_discrim_round_trip(name: Seq<char>, d: Seq<u8>)
    ensures
        <AccountType as NameToDiscrim>::known_name(name) ==> {
            &&& <AccountType as DiscrimToName>::known_discrim(
                <AccountType as NameToDiscrim>::discrim_of_name(name),
            )
            &&& <AccountType as DiscrimToName>::name_of_discrim(
                <AccountType as NameToDiscrim>::discrim_of_name(name),
            ) == name
        },
        <AccountType as DiscrimToName>::known_discrim(d) ==> {
            &&& <AccountType as NameToDiscrim>::known_name(
                <AccountType as DiscrimToName>::name_of_discrim(d),
            )
            &&& <AccountType as NameToDiscrim>::discrim_of_name(
                <AccountType as DiscrimToName>::name_of_discrim(d),
            ) == d
        },
{
}

} // verus!
