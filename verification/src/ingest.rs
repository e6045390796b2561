//! The ingest surface: the slot clock, the user cache, typed update
//! messages, conversion of raw transaction parts into plain stubs, and
//! the book-facing decision logic that a streaming driver runs.

use vstd::prelude::*;
use crate::decode::{decode_user, decode_user_spec, DecodeError};
use crate::dlob::{update_user_rec, resting_limit_orders_spec, DlobV, DLOB};
use crate::order::{keys_eq, MarketType, Order, OrderNode, OraclePriceData, Side, User};

verus! {

/// The latest slot seen, advanced monotonically by the ingest loop.
pub struct SlotCache {
    pub slot: u64,
}

impl SlotCache {
    pub fn get(&self) -> (r: u64)
        ensures
            r == self.slot,
    {
        self.slot
    }

    pub fn set(&mut self, slot: u64)
        ensures
            final(self).slot == slot,
    {
        self.slot = slot;
    }
}

impl Default for SlotCache {
    fn default() -> (r: SlotCache)
        ensures
            r.slot == 0,
    {
        SlotCache { slot: 0 }
    }
}

/// An element-wise copy of an order vector.
fn copy_orders(v: &Vec<Order>) -> (r: Vec<Order>)
    ensures
        r@ == v@,
{
    let mut out: Vec<Order> = Vec::new();
    let mut i: usize = 0;
    while i < v.len()
        invariant
            0 <= i <= v@.len(),
            out@ == v@.take(i as int),
        decreases v@.len() - i,
    {
        out.push(v[i]);
        proof {
            assert(out@ =~= v@.take(i as int + 1));
        }
        i += 1;
    }
    proof {
        assert(v@.take(i as int) =~= v@);
    }
    out
}

/// A copy of a user with the same orders.
pub fn clone_user(u: &User) -> (r: User)
    ensures
        r@ == u@,
{
    User { orders: copy_orders(&u.orders) }
}

/// Index of a user key in the cache, or -1.
pub open spec fn find_user(s: Seq<([u8; 32], User)>, key: Seq<u8>) -> int
    decreases s.len(),
{
    if s.len() == 0 {
        -1
    } else if s[0].0@ == key {
        0
    } else {
        let r = find_user(s.drop_first(), key);
        if r < 0 {
            -1
        } else {
            r + 1
        }
    }
}

pub proof fn lemma_find_user_at(s: Seq<([u8; 32], User)>, key: Seq<u8>, i: int)
    requires
        0 <= i <= s.len(),
        forall|j: int| 0 <= j < i ==> s[j].0@ != key,
        i < s.len() ==> s[i].0@ == key,
    ensures
        i < s.len() ==> find_user(s, key) == i,
        i == s.len() ==> find_user(s, key) == -1,
    decreases s.len(),
{
    if s.len() > 0 && s[0].0@ != key {
        assert(forall|j: int| 1 <= j < s.len() ==> s[j] == s.drop_first()[j - 1]);
        lemma_find_user_at(s.drop_first(), key, i - 1);
    }
}

/// Store a user under a key, overwriting an existing entry.
pub open spec fn user_upsert(
    s: Seq<([u8; 32], User)>,
    key: [u8; 32],
    user: User,
) -> Seq<([u8; 32], User)> {
    let i = find_user(s, key@);
    if i >= 0 {
        s.update(i, (key, user))
    } else {
        s.push((key, user))
    }
}

/// The cache after storing a run of snapshot pairs, in order.
pub open spec fn cache_upsert_all(
    s: Seq<([u8; 32], User)>,
    users: Seq<([u8; 32], User)>,
) -> Seq<([u8; 32], User)>
    decreases users.len(),
{
    if users.len() == 0 {
        s
    } else {
        cache_upsert_all(user_upsert(s, users[0].0, users[0].1), users.drop_first())
    }
}

/// The user accounts last seen, keyed by account key.
pub struct UserCache {
    pub users: Vec<([u8; 32], User)>,
    pub latest_slot: u64,
}

impl Default for UserCache {
    fn default() -> (r: UserCache)
        ensures
            r.users@ =~= Seq::<([u8; 32], User)>::empty(),
            r.latest_slot == 0,
    {
        UserCache { users: Vec::new(), latest_slot: 0 }
    }
}

impl UserCache {
    fn find_index(&self, key: &[u8; 32]) -> (r: Option<usize>)
        ensures
            match r {
                Some(i) => 0 <= i < self.users@.len() && find_user(self.users@, key@) == i as int,
                None => find_user(self.users@, key@) == -1,
            },
    {
        let mut i: usize = 0;
        while i < self.users.len()
            invariant
                0 <= i <= self.users@.len(),
                forall|j: int| 0 <= j < i ==> self.users@[j].0@ != key@,
            decreases self.users@.len() - i,
        {
            if keys_eq(&self.users[i].0, key) {
                proof {
                    lemma_find_user_at(self.users@, key@, i as int);
                }
                return Some(i);
            }
            i += 1;
        }
        proof {
            lemma_find_user_at(self.users@, key@, i as int);
        }
        None
    }

    /// The cached user under `key`, cloned out.
    pub fn get_user(&self, key: &[u8; 32]) -> (r: Option<User>)
        ensures
            ({
                let i = find_user(self.users@, key@);
                match r {
                    Some(u) => i >= 0 && u@ == self.users@[i].1@,
                    None => i < 0,
                }
            }),
    {
        match self.find_index(key) {
            Some(i) => Some(clone_user(&self.users[i].1)),
            None => None,
        }
    }

    pub fn insert_user(&mut self, key: [u8; 32], user: User)
        ensures
            final(self).users@ == user_upsert(old(self).users@, key, user),
            final(self).latest_slot == old(self).latest_slot,
    {
        match self.find_index(&key) {
            Some(i) => {
                self.users.set(i, (key, user));
            },
            None => {
                self.users.push((key, user));
            },
        }
    }

    pub fn slot(&self) -> (r: u64)
        ensures
            r == self.latest_slot,
    {
        self.latest_slot
    }
}

/// One instruction of a raw transaction message, as the stream carries
/// it: indexes into the message's account-key table.
#[derive(Clone, Debug)]
pub struct RawInstruction {
    pub program_id_index: u32,
    pub accounts: Vec<u8>,
    pub data: Vec<u8>,
}

/// The mathematical value of a raw instruction.
#[verifier::ext_equal]
pub ghost struct RawInstructionV {
    pub program_id_index: u32,
    pub accounts: Seq<u8>,
    pub data: Seq<u8>,
}

impl View for RawInstruction {
    type V = RawInstructionV;

    open spec fn view(&self) -> RawInstructionV {
        RawInstructionV {
            program_id_index: self.program_id_index,
            accounts: self.accounts@,
            data: self.data@,
        }
    }
}

/// One instruction resolved against the account-key table.
#[derive(Clone, Debug)]
pub struct Ix {
    pub program: Vec<u8>,
    pub accounts: Vec<Vec<u8>>,
    pub data: Vec<u8>,
}

#[verifier::ext_equal]
pub ghost struct IxV {
    pub program: Seq<u8>,
    pub accounts: Seq<Seq<u8>>,
    pub data: Seq<u8>,
}

impl View for Ix {
    type V = IxV;

    open spec fn view(&self) -> IxV {
        IxV { program: self.program@, accounts: self.accounts.deep_view(), data: self.data@ }
    }
}

/// A decoded transaction event: the signer, signature, blockhash and the
/// resolved instructions.
#[derive(Clone, Debug)]
pub struct TxStub {
    pub slot: u64,
    pub blockhash: Vec<u8>,
    pub ixs: Vec<Ix>,
    pub signature: Vec<u8>,
    pub signer: Vec<u8>,
}

#[verifier::ext_equal]
pub ghost struct TxStubV {
    pub slot: u64,
    pub blockhash: Seq<u8>,
    pub ixs: Seq<IxV>,
    pub signature: Seq<u8>,
    pub signer: Seq<u8>,
}

impl View for TxStub {
    type V = TxStubV;

    open spec fn view(&self) -> TxStubV {
        TxStubV {
            slot: self.slot,
            blockhash: self.blockhash@,
            ixs: self.ixs@.map_values(|x: Ix| x@),
            signature: self.signature@,
            signer: self.signer@,
        }
    }
}

/// Why a raw transaction message was rejected.
#[derive(Clone, Copy, Debug, PartialEq, Eq, Structural)]
pub enum IngestError {
    /// An account key is not 32 bytes.
    BadKey,
    /// The message has no account keys, hence no signer.
    MissingSigner,
    /// The signature is not 64 bytes.
    BadSignature,
    /// The blockhash is not 32 bytes.
    BadBlockhash,
    /// An instruction's program index is outside the key table.
    MissingProgram,
}

/// The account keys an instruction references, in order; indexes outside
/// the table are skipped.
pub open spec fn pick_accounts(idxs: Seq<u8>, keys: Seq<Seq<u8>>) -> Seq<Seq<u8>>
    decreases idxs.len(),
{
    if idxs.len() == 0 {
        Seq::empty()
    } else {
        let rest = pick_accounts(idxs.drop_first(), keys);
        if idxs[0] < keys.len() {
            seq![keys[idxs[0] as int]].add(rest)
        } else {
            rest
        }
    }
}

/// What converting a raw transaction yields: each malformed part has its
/// error, checked in order; otherwise the resolved stub.
pub open spec fn tx_stub_spec(
    slot: u64,
    signature: Seq<u8>,
    blockhash: Seq<u8>,
    keys: Seq<Seq<u8>>,
    ixs: Seq<RawInstructionV>,
) -> Result<TxStubV, IngestError> {
    if exists|i: int| 0 <= i < keys.len() && (#[trigger] keys[i]).len() != 32 {
        Err(IngestError::BadKey)
    } else if keys.len() == 0 {
        Err(IngestError::MissingSigner)
    } else if signature.len() != 64 {
        Err(IngestError::BadSignature)
    } else if blockhash.len() != 32 {
        Err(IngestError::BadBlockhash)
    } else if exists|i: int|
        0 <= i < ixs.len() && (#[trigger] ixs[i]).program_id_index >= keys.len() {
        Err(IngestError::MissingProgram)
    } else {
        Ok(
            TxStubV {
                slot,
                blockhash,
                signature,
                signer: keys[0],
                ixs: ixs.map_values(
                    |x: RawInstructionV|
                        IxV {
                            program: keys[x.program_id_index as int],
                            accounts: pick_accounts(x.accounts, keys),
                            data: x.data,
                        },
                ),
            },
        )
    }
}

/// An element-wise copy of a byte vector.
pub fn copy_bytes(v: &Vec<u8>) -> (r: Vec<u8>)
    ensures
        r@ == v@,
{
    let mut out: Vec<u8> = Vec::new();
    let mut i: usize = 0;
    while i < v.len()
        invariant
            0 <= i <= v@.len(),
            out@ == v@.take(i as int),
        decreases v@.len() - i,
    {
        out.push(v[i]);
        proof {
            assert(out@ =~= v@.take(i as int + 1));
        }
        i += 1;
    }
    proof {
        assert(v@.take(i as int) =~= v@);
    }
    out
}

/// Resolve a raw transaction message into a plain stub: keys must be 32
/// bytes, the signature 64, the blockhash 32, and every instruction's
/// program index in range; instruction account indexes outside the table
/// are skipped.
#[verifier::loop_isolation(false)]
pub fn tx_stub_from_parts(
    slot: u64,
    signature: &Vec<u8>,
    blockhash: &Vec<u8>,
    account_keys: &Vec<Vec<u8>>,
    instructions: &Vec<RawInstruction>,
) -> (r: Result<TxStub, IngestError>)
    ensures
        match r {
            Ok(t) => tx_stub_spec(
                slot,
                signature@,
                blockhash@,
                account_keys.deep_view(),
                instructions@.map_values(|x: RawInstruction| x@),
            ) == Ok::<TxStubV, IngestError>(t@),
            Err(e) => tx_stub_spec(
                slot,
                signature@,
                blockhash@,
                account_keys.deep_view(),
                instructions@.map_values(|x: RawInstruction| x@),
            ) == Err::<TxStubV, IngestError>(e),
        },
{
    let ghost keys = account_keys.deep_view();
    let ghost rixs = instructions@.map_values(|x: RawInstruction| x@);
    let mut i: usize = 0;
    while i < account_keys.len()
        invariant
            0 <= i <= keys.len(),
            forall|j: int| 0 <= j < i ==> (#[trigger] keys[j]).len() == 32,
        decreases keys.len() - i,
    {
        if account_keys[i].len() != 32 {
            proof {
                assert(keys[i as int].len() != 32);
            }
            return Err(IngestError::BadKey);
        }
        i += 1;
    }
    if account_keys.len() == 0 {
        return Err(IngestError::MissingSigner);
    }
    if signature.len() != 64 {
        return Err(IngestError::BadSignature);
    }
    if blockhash.len() != 32 {
        return Err(IngestError::BadBlockhash);
    }
    let mut k: usize = 0;
    while k < instructions.len()
        invariant
            0 <= k <= rixs.len(),
            forall|j: int| 0 <= j < k ==> (#[trigger] rixs[j]).program_id_index < keys.len(),
        decreases rixs.len() - k,
    {
        if instructions[k].program_id_index as usize >= account_keys.len() {
            proof {
                assert(rixs[k as int].program_id_index >= keys.len());
            }
            return Err(IngestError::MissingProgram);
        }
        k += 1;
    }
    let mut ixs: Vec<Ix> = Vec::new();
    let ghost goal = rixs.map_values(
        |x: RawInstructionV|
            IxV {
                program: keys[x.program_id_index as int],
                accounts: pick_accounts(x.accounts, keys),
                data: x.data,
            },
    );
    let mut k2: usize = 0;
    while k2 < instructions.len()
        invariant
            0 <= k2 <= rixs.len(),
            ixs@.len() == k2,
            forall|j: int| 0 <= j < k2 ==> (#[trigger] ixs@[j])@ == goal[j],
        decreases rixs.len() - k2,
    {
        let ix = &instructions[k2];
        proof {
            assert(rixs[k2 as int] == instructions@[k2 as int]@);
            assert(rixs[k2 as int].program_id_index < keys.len());
            assert(keys[rixs[k2 as int].program_id_index as int] =~= account_keys@[rixs[k2 as int].program_id_index as int]@);
        }
        let program = copy_bytes(&account_keys[ix.program_id_index as usize]);
        let mut accounts: Vec<Vec<u8>> = Vec::new();
        let ghost idxs = ix.accounts@;
        let mut a: usize = 0;
        proof {
            assert(idxs.skip(0) =~= idxs);
            assert(accounts.deep_view() =~~= Seq::<Seq<u8>>::empty());
        }
        while a < ix.accounts.len()
            invariant
                0 <= a <= idxs.len(),
                idxs == ix.accounts@,
                accounts.deep_view().add(pick_accounts(idxs.skip(a as int), keys))
                    == pick_accounts(idxs, keys),
            decreases idxs.len() - a,
        {
            let idx = ix.accounts[a];
            let ghost prev = accounts.deep_view();
            let ghost restx = idxs.skip(a as int);
            proof {
                assert(restx[0] == idxs[a as int]);
                assert(restx.drop_first() =~= idxs.skip(a as int + 1));
            }
            if (idx as usize) < account_keys.len() {
                proof {
                    assert(keys[idx as int] =~= account_keys@[idx as int]@);
                }
                accounts.push(copy_bytes(&account_keys[idx as usize]));
                proof {
                    assert(accounts.deep_view() =~~= prev.push(keys[idx as int]));
                    assert(prev.push(keys[idx as int]).add(
                        pick_accounts(idxs.skip(a as int + 1), keys),
                    ) =~~= prev.add(
                        seq![keys[idx as int]].add(pick_accounts(idxs.skip(a as int + 1), keys)),
                    ));
                }
            }
            a += 1;
        }
        proof {
            assert(idxs.skip(a as int) =~= Seq::<u8>::empty());
            assert(accounts.deep_view().add(Seq::<Seq<u8>>::empty()) =~~= accounts.deep_view());
        }
        let data = copy_bytes(&ix.data);
        ixs.push(Ix { program, accounts, data });
        proof {
            assert(rixs[k2 as int] == instructions@[k2 as int]@);
            assert(ixs@[k2 as int]@ =~~= goal[k2 as int]);
        }
        k2 += 1;
    }
    proof {
        assert(keys[0] =~= account_keys@[0]@);
    }
    let r = TxStub {
        slot,
        blockhash: copy_bytes(blockhash),
        ixs,
        signature: copy_bytes(signature),
        signer: copy_bytes(&account_keys[0]),
    };
    proof {
        let spec_r = tx_stub_spec(slot, signature@, blockhash@, keys, rixs);
        assert(r@.ixs =~~= goal);
        assert(spec_r is Ok);
        assert(spec_r->Ok_0 =~~= r@);
        assert(spec_r == Ok::<TxStubV, IngestError>(r@));
    }
    Ok(r)
}


/// Block metadata surfaced by the stream.
#[derive(Clone, Debug)]
pub struct BlockInfo {
    pub slot: u64,
    pub blockhash: Vec<u8>,
    pub timestamp: i64,
}

/// An account update as the stream carries it.
#[derive(Clone, Debug)]
pub struct AcctCtx {
    pub key: [u8; 32],
    pub owner: [u8; 32],
    pub data: Vec<u8>,
    pub slot: u64,
}

/// A typed update message.  Only `Slot` and `Account` affect the book.
#[derive(Clone, Debug)]
pub enum ChannelMsg {
    Slot(u64),
    Account(AcctCtx),
    Tx(TxStub),
    Block(BlockInfo),
}

/// Commitment level requested from the stream.
#[derive(Clone, Copy, Debug, PartialEq, Eq, Structural)]
pub enum CommitmentLevel {
    Processed,
    Confirmed,
    Finalized,
}

/// Connection settings for the streaming source, as plain values.
#[derive(Clone, Debug)]
pub struct GeyserConfig {
    pub grpc: String,
    pub x_token: String,
    pub subscribe_slots: bool,
    pub account_owners: Vec<[u8; 32]>,
    pub subscribe_transactions: bool,
    pub subscribe_blocks_meta: bool,
    pub commitment: CommitmentLevel,
}

/// A handle on the streaming source: it only carries the settings; the
/// transport that uses them lives outside the verified core.
pub struct GeyserClient {
    pub cfg: GeyserConfig,
}

impl GeyserClient {
    pub fn new(cfg: GeyserConfig) -> (r: GeyserClient)
        ensures
            r.cfg == cfg,
    {
        GeyserClient { cfg }
    }
}

/// One level-3 view of a market: full bid and ask books at a slot.
pub struct L3 {
    pub bids: Vec<OrderNode>,
    pub asks: Vec<OrderNode>,
    pub slot: u64,
}

impl L3 {
    /// The best bid, if any: the first node of the bid book.
    pub fn best_bid(&self) -> (r: Option<OrderNode>)
        ensures
            r == if self.bids@.len() > 0 {
                Some(self.bids@[0])
            } else {
                None::<OrderNode>
            },
    {
        if self.bids.len() > 0 {
            Some(self.bids[0])
        } else {
            None
        }
    }

    /// The best ask, if any: the first node of the ask book.
    pub fn best_ask(&self) -> (r: Option<OrderNode>)
        ensures
            r == if self.asks@.len() > 0 {
                Some(self.asks@[0])
            } else {
                None::<OrderNode>
            },
    {
        if self.asks.len() > 0 {
            Some(self.asks[0])
        } else {
            None
        }
    }
}

/// The book-facing state of a streaming order book: the slot clock, the
/// user cache, the book itself, and the program whose accounts feed it.
/// A driver owns the transport and hands every message to
/// `process_message`.
pub struct OrderBook {
    pub program_id: [u8; 32],
    pub slot: SlotCache,
    pub user_cache: UserCache,
    pub dlob: DLOB,
}

impl OrderBook {
    pub open spec fn well_formed(&self) -> bool {
        crate::dlob::dlob_wf(self.dlob@)
    }

    pub fn new(program_id: [u8; 32]) -> (r: OrderBook)
        ensures
            r.well_formed(),
            r.program_id == program_id,
            r.slot.slot == 0,
            r.user_cache.users@ =~= Seq::<([u8; 32], User)>::empty(),
            r.dlob@ == crate::dlob::dlob_new_spec(),
    {
        OrderBook {
            program_id,
            slot: SlotCache::default(),
            user_cache: UserCache::default(),
            dlob: DLOB::new(),
        }
    }

    /// Seed the book from a full account snapshot at `slot`: the slot
    /// clock is set, the book rebuilt, and every snapshot pair stored in
    /// the user cache, in snapshot order.
    pub fn seed(&mut self, users: Vec<([u8; 32], User)>, slot: u64)
        requires
            old(self).well_formed(),
        ensures
            final(self).well_formed(),
            final(self).slot.slot == slot,
            final(self).dlob@ == crate::dlob::build_spec(users@, slot),
            final(self).user_cache.users@ == cache_upsert_all(
                old(self).user_cache.users@,
                users@,
            ),
            final(self).user_cache.latest_slot == old(self).user_cache.latest_slot,
            final(self).program_id == old(self).program_id,
    {
        let ghost orig = users@;
        let ghost pid = self.program_id;
        let ghost base = self.user_cache.users@;
        let ghost cache_slot = self.user_cache.latest_slot;
        self.slot.set(slot);
        self.dlob.build_from_usermap(&users, slot);
        let mut rest = users;
        while rest.len() > 0
            invariant
                self.slot.slot == slot,
                self.program_id == pid,
                self.dlob@ == crate::dlob::build_spec(orig, slot),
                crate::dlob::dlob_wf(self.dlob@),
                self.user_cache.latest_slot == cache_slot,
                cache_upsert_all(self.user_cache.users@, rest@) == cache_upsert_all(base, orig),
            decreases rest@.len(),
        {
            let ghost prev = rest@;
            let pair = rest.remove(0);
            proof {
                assert(prev[0] == pair);
                assert(rest@ =~= prev.drop_first());
            }
            self.user_cache.insert_user(pair.0, pair.1);
        }
        proof {
            assert(rest@.len() == 0);
        }
    }

    /// A slot tick: the clock advances, and never moves backward.
    pub fn handle_slot_update(&mut self, slot: u64)
        ensures
            final(self).slot.slot == if slot > old(self).slot.slot {
                slot
            } else {
                old(self).slot.slot
            },
            final(self).dlob == old(self).dlob,
            final(self).user_cache == old(self).user_cache,
            final(self).program_id == old(self).program_id,
    {
        if slot > self.slot.get() {
            self.slot.set(slot);
        }
    }

    /// An account update.  Accounts of other programs are ignored, as is
    /// a payload whose discriminator is unknown; a recognized account
    /// with a malformed payload is a fatal decode error.  A decoded user
    /// is cached and its orders re-inserted at the cached slot.
    pub fn handle_account_update(&mut self, key: [u8; 32], owner: [u8; 32], data: &[u8]) -> (r:
        Result<bool, DecodeError>)
        requires
            old(self).well_formed(),
        ensures
            final(self).well_formed(),
            final(self).program_id == old(self).program_id,
            final(self).slot == old(self).slot,
            owner@ != old(self).program_id@ ==> r == Ok::<bool, DecodeError>(false) && *final(self)
                == *old(self),
            owner@ == old(self).program_id@ ==> match decode_user_spec(data@) {
                Ok(orders) => {
                    &&& r == Ok::<bool, DecodeError>(true)
                    &&& exists|u: User|
                        u@ == orders && final(self).user_cache.users@ == user_upsert(
                            old(self).user_cache.users@,
                            key,
                            u,
                        )
                    &&& final(self).dlob@ == update_user_rec(
                        old(self).dlob@,
                        key,
                        orders,
                        old(self).slot.slot,
                    )
                },
                Err(e) => {
                    &&& *final(self) == *old(self)
                    &&& if e == DecodeError::BadDiscriminator || e == DecodeError::TooShort {
                        r == Ok::<bool, DecodeError>(false)
                    } else {
                        r == Err::<bool, DecodeError>(e)
                    }
                },
            },
    {
        if !keys_eq(&owner, &self.program_id) {
            return Ok(false);
        }
        match decode_user(data) {
            Ok(user) => {
                let slot = self.slot.get();
                self.dlob.update_user(key, &user, slot);
                let ghost u = user;
                self.user_cache.insert_user(key, user);
                proof {
                    assert(exists|w: User|
                        w@ == u@ && final(self).user_cache.users@ == user_upsert(
                            old(self).user_cache.users@,
                            key,
                            w,
                        )) by {
                        assert(u@ == u@ && final(self).user_cache.users@ == user_upsert(
                            old(self).user_cache.users@,
                            key,
                            u,
                        ));
                    }
                }
                Ok(true)
            },
            Err(e) => {
                if matches!(e, DecodeError::BadDiscriminator) || matches!(
                    e,
                    DecodeError::TooShort,
                ) {
                    Ok(false)
                } else {
                    Err(e)
                }
            },
        }
    }

    /// The ingest decision function: a slot tick advances the clock, an
    /// account update feeds the book, transaction and block events are
    /// ignored.  `Ok(true)` reports that the book changed.
    pub fn process_message(&mut self, msg: &ChannelMsg) -> (r: Result<bool, DecodeError>)
        requires
            old(self).well_formed(),
        ensures
            final(self).well_formed(),
            final(self).program_id == old(self).program_id,
            match msg {
                ChannelMsg::Slot(s) => {
                    &&& r == Ok::<bool, DecodeError>(false)
                    &&& final(self).slot.slot == if *s > old(self).slot.slot {
                        *s
                    } else {
                        old(self).slot.slot
                    }
                    &&& final(self).dlob == old(self).dlob
                },
                ChannelMsg::Account(ctx) => {
                    &&& final(self).slot == old(self).slot
                    &&& ctx.owner@ != old(self).program_id@ ==> r == Ok::<bool, DecodeError>(
                        false,
                    ) && *final(self) == *old(self)
                    &&& ctx.owner@ == old(self).program_id@ ==> match decode_user_spec(
                        ctx.data@,
                    ) {
                        Ok(orders) => {
                            &&& r == Ok::<bool, DecodeError>(true)
                            &&& exists|u: User|
                                u@ == orders && final(self).user_cache.users@ == user_upsert(
                                    old(self).user_cache.users@,
                                    ctx.key,
                                    u,
                                )
                            &&& final(self).dlob@ == update_user_rec(
                                old(self).dlob@,
                                ctx.key,
                                orders,
                                old(self).slot.slot,
                            )
                        },
                        Err(e) => {
                            &&& *final(self) == *old(self)
                            &&& if e == DecodeError::BadDiscriminator || e
                                == DecodeError::TooShort {
                                r == Ok::<bool, DecodeError>(false)
                            } else {
                                r == Err::<bool, DecodeError>(e)
                            }
                        },
                    }
                },
                ChannelMsg::Tx(_) => *final(self) == *old(self) && r == Ok::<bool, DecodeError>(
                    false,
                ),
                ChannelMsg::Block(_) => *final(self) == *old(self) && r == Ok::<bool, DecodeError>(
                    false,
                ),
            },
    {
        match msg {
            ChannelMsg::Slot(s) => {
                self.handle_slot_update(*s);
                Ok(false)
            },
            ChannelMsg::Account(ctx) => self.handle_account_update(ctx.key, ctx.owner, &ctx.data),
            ChannelMsg::Tx(_) => Ok(false),
            ChannelMsg::Block(_) => Ok(false),
        }
    }

    /// A level-3 snapshot of one market at the cached slot: merged
    /// resting bid and ask books, best-first.
    pub fn l3(&mut self, market_type: MarketType, market_index: u16, oracle: OraclePriceData) -> (r:
        L3)
        requires
            old(self).well_formed(),
        ensures
            final(self).well_formed(),
            r.slot == old(self).slot.slot,
            ({
                let b = resting_limit_orders_spec(
                    old(self).dlob@,
                    old(self).slot.slot,
                    market_type,
                    market_index,
                    oracle,
                    Side::Bid,
                    false,
                );
                let a = resting_limit_orders_spec(
                    b.1,
                    old(self).slot.slot,
                    market_type,
                    market_index,
                    oracle,
                    Side::Ask,
                    true,
                );
                r.bids@ == b.0 && r.asks@ == a.0 && final(self).dlob@ == a.1
            }),
    {
        let slot = self.slot.get();
        let bids = self.dlob.get_resting_limit_bids(slot, market_type, market_index, oracle);
        let asks = self.dlob.get_resting_limit_asks(slot, market_type, market_index, oracle);
        L3 { bids, asks, slot }
    }
}

} // verus!
