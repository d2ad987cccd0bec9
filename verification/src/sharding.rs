//! The shards of a cluster: their configuration and status, and which shard owns what.

use vstd::prelude::*;
use vstd::string::StringSliceAdditionalSpecFns;
use crate::error::DbError;
use crate::fold::fold64_bytes;
use crate::fold::fold_str;
use crate::text::str_eq;

verus! {

/// The coordinator's view of a shard's condition.
#[derive(Clone, Copy, Debug, PartialEq, Eq, Structural)]
pub enum ShardStatus {
    Active,
    Inactive,
    Maintenance,
    Failed,
}

/// What changes about a shard while the cluster runs.
#[derive(Debug)]
pub struct ShardInfo {
    pub status: ShardStatus,
    pub capacity: u64,
    pub used_space: u64,
    pub collections: Vec<String>,
}

/// Where a shard is reached.
#[derive(Debug)]
pub struct ShardConfig {
    pub id: String,
    pub host: String,
    pub port: u16,
    pub description: Option<String>,
}

/// A shard: how it is configured and how it stands.
#[derive(Debug)]
pub struct Shard {
    pub config: ShardConfig,
    pub info: ShardInfo,
}

/// How requests are assigned to shards. Every strategy routes as `HashBased` does.
#[derive(Clone, Copy, Debug, PartialEq, Eq, Structural)]
pub enum RoutingStrategy {
    HashBased,
    RangeBased,
    LSHBased,
    MetadataBased,
}

/// The strategy that a configured name stands for; any other name is an invalid
/// argument.
pub open spec fn strategy_of_name(s: Seq<char>) -> Result<RoutingStrategy, DbError> {
    if s == "hash_based"@ {
        Ok(RoutingStrategy::HashBased)
    } else if s == "range_based"@ {
        Ok(RoutingStrategy::RangeBased)
    } else if s == "lsh_based"@ {
        Ok(RoutingStrategy::LSHBased)
    } else if s == "metadata_based"@ {
        Ok(RoutingStrategy::MetadataBased)
    } else {
        Err(DbError::InvalidArgument)
    }
}

impl RoutingStrategy {
    /// Reads a strategy from its configured name.
    pub fn from_string(s: &str) -> (r: Result<RoutingStrategy, DbError>)
        ensures
            r == strategy_of_name(s@),
    {
        if str_eq(s, "hash_based") {
            Ok(RoutingStrategy::HashBased)
        } else if str_eq(s, "range_based") {
            Ok(RoutingStrategy::RangeBased)
        } else if str_eq(s, "lsh_based") {
            Ok(RoutingStrategy::LSHBased)
        } else if str_eq(s, "metadata_based") {
            Ok(RoutingStrategy::MetadataBased)
        } else {
            Err(DbError::InvalidArgument)
        }
    }
}

/// The outcome of one operation on one shard.
#[derive(Debug)]
pub struct ShardOperationResult {
    pub shard_id: String,
    pub success: bool,
    pub data: Option<Vec<u8>>,
    pub error: Option<String>,
}

/// The capacity given to a newly configured shard.
pub const DEFAULT_CAPACITY: u64 = 1000000;

/// The replication factor of a new manager.
pub const DEFAULT_REPLICATION: u8 = 2;

/// A shard as plain values.
pub struct ShardView {
    pub id: Seq<char>,
    pub host: Seq<char>,
    pub port: u16,
    pub description: Option<Seq<char>>,
    pub status: ShardStatus,
    pub capacity: u64,
    pub used_space: u64,
    pub collections: Seq<Seq<char>>,
}

/// A shard's configuration as plain values.
pub struct ConfigView {
    pub id: Seq<char>,
    pub host: Seq<char>,
    pub port: u16,
    pub description: Option<Seq<char>>,
}

impl View for ShardConfig {
    type V = ConfigView;

    open spec fn view(&self) -> ConfigView {
        ConfigView {
            id: self.id@,
            host: self.host@,
            port: self.port,
            description: match self.description {
                Some(d) => Some(d@),
                None => None,
            },
        }
    }
}

impl View for Shard {
    type V = ShardView;

    open spec fn view(&self) -> ShardView {
        ShardView {
            id: self.config.id@,
            host: self.config.host@,
            port: self.config.port,
            description: match self.config.description {
                Some(d) => Some(d@),
                None => None,
            },
            status: self.info.status,
            capacity: self.info.capacity,
            used_space: self.info.used_space,
            collections: Seq::new(self.info.collections@.len(), |i: int| self.info.collections@[i]@),
        }
    }
}

/// A shard as it stands right after configuration: active, empty, of default capacity.
pub open spec fn fresh_shard(c: ConfigView) -> ShardView {
    ShardView {
        id: c.id,
        host: c.host,
        port: c.port,
        description: c.description,
        status: ShardStatus::Active,
        capacity: DEFAULT_CAPACITY,
        used_space: 0,
        collections: Seq::empty(),
    }
}

/// Some shard of `ss` has identifier `id`.
pub open spec fn has_shard(ss: Seq<ShardView>, id: Seq<char>) -> bool {
    exists|i: int| 0 <= i < ss.len() && (#[trigger] ss[i]).id == id
}

/// The position of the shard with identifier `id`.
pub open spec fn shard_index(ss: Seq<ShardView>, id: Seq<char>) -> int {
    choose|i: int| 0 <= i < ss.len() && (#[trigger] ss[i]).id == id
}

/// No two shards share an identifier.
pub open spec fn shard_ids_distinct(ss: Seq<ShardView>) -> bool {
    forall|i: int, j: int|
        0 <= i < ss.len() && 0 <= j < ss.len() && i != j ==> (#[trigger] ss[i]).id != (#[trigger] ss[j]).id
}

pub proof fn lemma_shard_index(ss: Seq<ShardView>, i: int)
    requires
        shard_ids_distinct(ss),
        0 <= i < ss.len(),
    ensures
        has_shard(ss, ss[i].id),
        shard_index(ss, ss[i].id) == i,
{
    let j = shard_index(ss, ss[i].id);
    assert(ss[i].id == ss[i].id);
    if j != i {
        assert(ss[j].id != ss[i].id);
    }
}

/// The shard list after one more configuration is registered: a shard with a new
/// identifier joins at the end, one with a known identifier replaces the shard
/// registered under it.
pub open spec fn register(ss: Seq<ShardView>, c: ConfigView) -> Seq<ShardView> {
    if has_shard(ss, c.id) {
        ss.update(shard_index(ss, c.id), fresh_shard(c))
    } else {
        ss.push(fresh_shard(c))
    }
}

/// The shard list after the first `n` configurations are registered in order.
pub open spec fn registered(cs: Seq<ConfigView>, n: nat) -> Seq<ShardView>
    decreases n,
{
    if n == 0 {
        Seq::empty()
    } else {
        register(registered(cs, (n - 1) as nat), cs[n - 1])
    }
}

/// Registering keeps identifiers distinct.
pub proof fn lemma_register_distinct(ss: Seq<ShardView>, c: ConfigView)
    requires
        shard_ids_distinct(ss),
    ensures
        shard_ids_distinct(register(ss, c)),
        has_shard(register(ss, c), c.id),
{
    let ns = register(ss, c);
    if has_shard(ss, c.id) {
        let p = shard_index(ss, c.id);
        assert forall|i: int, j: int| 0 <= i < ns.len() && 0 <= j < ns.len() && i != j implies (
        #[trigger] ns[i]).id != (#[trigger] ns[j]).id by {
            assert(ns[i].id == ss[i].id && ns[j].id == ss[j].id);
        }
        assert(ns[p].id == c.id);
    } else {
        assert forall|i: int, j: int| 0 <= i < ns.len() && 0 <= j < ns.len() && i != j implies (
        #[trigger] ns[i]).id != (#[trigger] ns[j]).id by {
            if i < ss.len() && j < ss.len() {
                assert(ss[i].id != ss[j].id);
            } else if i < ss.len() {
                assert(ss[i].id != c.id);
            } else {
                assert(ss[j].id != c.id);
            }
        }
        assert(ns[ss.len() as int].id == c.id);
    }
}

/// The position that probing reaches after `d` steps from `start` in a ring of `n`.
pub open spec fn ring(start: int, d: int, n: int) -> int {
    (start + d) % n
}

/// Probing from `start`, position `ring(start, d, n)` is the first active shard.
pub open spec fn is_first_active(ss: Seq<ShardView>, start: int, d: int) -> bool {
    &&& 0 <= d < ss.len()
    &&& ss[ring(start, d, ss.len() as int)].status == ShardStatus::Active
    &&& forall|e: int| 0 <= e < d ==> (#[trigger] ss[ring(start, e, ss.len() as int)]).status
        != ShardStatus::Active
}

/// No shard is active.
pub open spec fn none_active(ss: Seq<ShardView>) -> bool {
    forall|i: int| 0 <= i < ss.len() ==> (#[trigger] ss[i]).status != ShardStatus::Active
}

/// The shard that owns the hash value `h`: the shard at position `h mod n` of the
/// configured list, or, where that one is not active, the first active shard after it,
/// going round the list. Without shards there is nothing to find; with no active shard
/// the owner is unavailable.
pub open spec fn owner_of(ss: Seq<ShardView>, h: u64) -> Result<Seq<char>, DbError> {
    if ss.len() == 0 {
        Err(DbError::NotFound)
    } else if none_active(ss) {
        Err(DbError::RemoteUnavailable)
    } else {
        Ok(ss[ring(h as int % ss.len() as int, probe_steps(ss, h as int % ss.len() as int), ss.len() as int)].id)
    }
}

/// The number of steps that probing from `start` takes to reach an active shard.
pub open spec fn probe_steps(ss: Seq<ShardView>, start: int) -> int {
    choose|d: int| is_first_active(ss, start, d)
}

/// The steps to the first active shard are determined.
pub proof fn lemma_probe_steps(ss: Seq<ShardView>, start: int, d: int)
    requires
        is_first_active(ss, start, d),
    ensures
        probe_steps(ss, start) == d,
        !none_active(ss),
{
    let e = probe_steps(ss, start);
    assert(is_first_active(ss, start, e));
    if e < d {
        assert(ss[ring(start, e, ss.len() as int)].status != ShardStatus::Active);
    } else if d < e {
        assert(ss[ring(start, d, ss.len() as int)].status != ShardStatus::Active);
    }
    let i = ring(start, d, ss.len() as int);
    vstd::arithmetic::div_mod::lemma_mod_bound(start + d, ss.len() as int);
    assert(ss[i].status == ShardStatus::Active);
}

/// Where some shard is active, probing from any position reaches a first active one.
pub proof fn lemma_probe_exists(ss: Seq<ShardView>, start: int)
    requires
        0 <= start < ss.len(),
        !none_active(ss),
    ensures
        is_first_active(ss, start, probe_steps(ss, start)),
{
    let n = ss.len() as int;
    let i = choose|i: int| 0 <= i < ss.len() && (#[trigger] ss[i]).status == ShardStatus::Active;
    let d = if i >= start { i - start } else { i + n - start };
    if i >= start {
        vstd::arithmetic::div_mod::lemma_small_mod(i as nat, n as nat);
    } else {
        vstd::arithmetic::div_mod::lemma_small_mod(i as nat, n as nat);
        vstd::arithmetic::div_mod::lemma_mod_sub_multiples_vanish(start + d, n);
    }
    assert(ring(start, d, n) == i);
    lemma_least_active(ss, start, d);
}

proof fn lemma_least_active(ss: Seq<ShardView>, start: int, d: int)
    requires
        0 <= d < ss.len(),
        ss[ring(start, d, ss.len() as int)].status == ShardStatus::Active,
    ensures
        exists|e: int| is_first_active(ss, start, e),
    decreases d,
{
    if exists|e: int|
        0 <= e < d && (#[trigger] ss[ring(start, e, ss.len() as int)]).status == ShardStatus::Active {
        let e = choose|e: int|
            0 <= e < d && (#[trigger] ss[ring(start, e, ss.len() as int)]).status
                == ShardStatus::Active;
        lemma_least_active(ss, start, e);
    } else {
        assert(is_first_active(ss, start, d));
    }
}

/// The owner of a hash value is one of the shards, and an active one.
pub proof fn lemma_owner_is_shard(ss: Seq<ShardView>, h: u64)
    requires
        owner_of(ss, h) is Ok,
    ensures
        has_shard(ss, owner_of(ss, h)->Ok_0),
        exists|i: int|
            0 <= i < ss.len() && (#[trigger] ss[i]).id == owner_of(ss, h)->Ok_0 && ss[i].status
                == ShardStatus::Active,
{
    let n = ss.len() as int;
    let start = h as int % n;
    vstd::arithmetic::div_mod::lemma_mod_bound(h as int, n);
    lemma_probe_exists(ss, start);
    let d = probe_steps(ss, start);
    let i = ring(start, d, n);
    vstd::arithmetic::div_mod::lemma_mod_bound(start + d, n);
    assert(ss[i].id == owner_of(ss, h)->Ok_0);
}

/// Where every shard is active, the owner is the shard at position `h mod n`.
pub proof fn lemma_owner_all_active(ss: Seq<ShardView>, h: u64)
    requires
        ss.len() > 0,
        forall|i: int| 0 <= i < ss.len() ==> (#[trigger] ss[i]).status == ShardStatus::Active,
    ensures
        owner_of(ss, h) == Ok::<Seq<char>, DbError>(ss[h as int % ss.len() as int].id),
{
    let n = ss.len() as int;
    let start = h as int % n;
    vstd::arithmetic::div_mod::lemma_mod_bound(h as int, n);
    vstd::arithmetic::div_mod::lemma_small_mod(start as nat, n as nat);
    assert(ring(start, 0, n) == start);
    assert(is_first_active(ss, start, 0));
    lemma_probe_steps(ss, start, 0);
}

/// A shard's collection list after `name` is recorded: unchanged if already listed.
pub open spec fn with_collection(names: Seq<Seq<char>>, name: Seq<char>) -> Seq<Seq<char>> {
    if names.contains(name) {
        names
    } else {
        names.push(name)
    }
}

/// A shard's collection list with every occurrence of `name` taken out.
pub open spec fn without_collection(names: Seq<Seq<char>>, name: Seq<char>) -> Seq<Seq<char>> {
    names.filter(|n: Seq<char>| n != name)
}

/// What is known of one shard: how it is configured, how it stands, and what it holds.
pub struct ShardStatistics {
    pub id: String,
    pub host: String,
    pub port: u16,
    pub description: Option<String>,
    pub status: ShardStatus,
    pub capacity: u64,
    pub used_space: u64,
    pub collections_count: usize,
    pub collections: Vec<String>,
}

impl View for ShardStatistics {
    type V = ShardView;

    open spec fn view(&self) -> ShardView {
        ShardView {
            id: self.id@,
            host: self.host@,
            port: self.port,
            description: match self.description {
                Some(d) => Some(d@),
                None => None,
            },
            status: self.status,
            capacity: self.capacity,
            used_space: self.used_space,
            collections: Seq::new(self.collections@.len(), |i: int| self.collections@[i]@),
        }
    }
}

/// The identifiers of the active shards of `ss`, in order.
pub open spec fn active_ids(ss: Seq<ShardView>) -> Seq<Seq<char>>
    decreases ss.len(),
{
    if ss.len() == 0 {
        Seq::empty()
    } else if ss.last().status == ShardStatus::Active {
        active_ids(ss.drop_last()).push(ss.last().id)
    } else {
        active_ids(ss.drop_last())
    }
}

/// The texts of a list of strings.
pub open spec fn texts(ss: Seq<String>) -> Seq<Seq<char>> {
    Seq::new(ss.len(), |i: int| ss[i]@)
}

/// The shard is active and its identifier is not among `exclude`.
pub open spec fn available(s: ShardView, exclude: Seq<Seq<char>>) -> bool {
    s.status == ShardStatus::Active && !exclude.contains(s.id)
}

/// Position `i` holds the first shard that is active and not among `exclude`.
pub open spec fn is_next_available(ss: Seq<ShardView>, exclude: Seq<Seq<char>>, i: int) -> bool {
    &&& 0 <= i < ss.len()
    &&& available(ss[i], exclude)
    &&& forall|j: int| 0 <= j < i ==> !available(#[trigger] ss[j], exclude)
}

/// The identifier at position `t` of `chosen` is that of the first shard which is
/// active and not among the identifiers before it.
pub open spec fn is_replica(ss: Seq<ShardView>, chosen: Seq<Seq<char>>, t: int) -> bool {
    exists|i: int| is_next_available(ss, chosen.take(t), i) && chosen[t] == (#[trigger] ss[i]).id
}

/// Two managers with the same shards give every collection the same owner.
pub proof fn lemma_routing_stable(a: ShardManager, b: ShardManager, h: u64)
    requires
        a.shards() == b.shards(),
    ensures
        owner_of(a.shards(), h) == owner_of(b.shards(), h),
{
}

/// Holds the configured shards in order, their status, and the routing strategy.
pub struct ShardManager {
    shards: Vec<Shard>,
    routing_strategy: RoutingStrategy,
    replication_factor: u8,
}

impl ShardManager {
    /// The shards as plain values, in configured order.
    pub closed spec fn shards(&self) -> Seq<ShardView> {
        Seq::new(self.shards@.len(), |i: int| self.shards@[i]@)
    }

    pub closed spec fn strategy(&self) -> RoutingStrategy {
        self.routing_strategy
    }

    pub closed spec fn replication(&self) -> u8 {
        self.replication_factor
    }

    /// No two shards share an identifier.
    pub open spec fn wf(&self) -> bool {
        shard_ids_distinct(self.shards())
    }

    /// Everything but the shard at position `i` is as it was in `before`.
    pub open spec fn same_but_shard(&self, before: &ShardManager, i: int) -> bool {
        &&& self.shards().len() == before.shards().len()
        &&& self.strategy() == before.strategy()
        &&& self.replication() == before.replication()
        &&& forall|j: int|
            0 <= j < self.shards().len() && j != i ==> (#[trigger] self.shards()[j]) == before.shards()[j]
    }

    /// The position of the shard with identifier `shard_id`.
    fn position(&self, shard_id: &str) -> (r: Option<usize>)
        ensures
            match r {
                Some(i) => i < self.shards().len() && self.shards()[i as int].id == shard_id@
                    && has_shard(self.shards(), shard_id@) && (self.wf() ==> shard_index(
                    self.shards(),
                    shard_id@,
                ) == i),
                None => !has_shard(self.shards(), shard_id@),
            },
    {
        let mut i: usize = 0;
        while i < self.shards.len()
            invariant
                0 <= i <= self.shards@.len(),
                forall|j: int| 0 <= j < i ==> (#[trigger] self.shards()[j]).id != shard_id@,
            decreases self.shards.len() - i,
        {
            if str_eq(self.shards[i].config.id.as_str(), shard_id) {
                proof {
                    if self.wf() {
                        lemma_shard_index(self.shards(), i as int);
                    }
                }
                return Some(i);
            }
            i += 1;
        }
        None
    }

    /// Registers the configured shards in order, each active, empty and of default
    /// capacity. A configuration whose identifier was already registered replaces the
    /// earlier one.
    pub fn new(configs: Vec<ShardConfig>, strategy: RoutingStrategy) -> (m: ShardManager)
        ensures
            m.wf(),
            m.strategy() == strategy,
            m.replication() == DEFAULT_REPLICATION,
            m.shards() == registered(Seq::new(configs@.len(), |i: int| configs@[i]@), configs@.len()),
    {
        let ghost cs = Seq::new(configs@.len(), |i: int| configs@[i]@);
        let mut m = ShardManager {
            shards: Vec::new(),
            routing_strategy: strategy,
            replication_factor: DEFAULT_REPLICATION,
        };
        assert(m.shards() =~= registered(cs, 0));
        let mut i: usize = 0;
        while i < configs.len()
            invariant
                0 <= i <= configs@.len(),
                cs == Seq::new(configs@.len(), |i: int| configs@[i]@),
                m.wf(),
                m.routing_strategy == strategy,
                m.replication_factor == DEFAULT_REPLICATION,
                m.shards() == registered(cs, i as nat),
            decreases configs.len() - i,
        {
            let cfg = &configs[i];
            let shard = Shard {
                config: ShardConfig {
                    id: cfg.id.clone(),
                    host: cfg.host.clone(),
                    port: cfg.port,
                    description: match &cfg.description {
                        Some(d) => Some(d.clone()),
                        None => None,
                    },
                },
                info: ShardInfo {
                    status: ShardStatus::Active,
                    capacity: DEFAULT_CAPACITY,
                    used_space: 0,
                    collections: Vec::new(),
                },
            };
            let ghost before = m.shards();
            proof {
                assert(shard@.collections =~= Seq::<Seq<char>>::empty());
                assert(shard@ == fresh_shard(cs[i as int]));
                lemma_register_distinct(before, cs[i as int]);
            }
            match m.position(cfg.id.as_str()) {
                Some(p) => {
                    m.shards.set(p, shard);
                    assert(m.shards() =~= before.update(p as int, fresh_shard(cs[i as int])));
                },
                None => {
                    m.shards.push(shard);
                    assert(m.shards() =~= before.push(fresh_shard(cs[i as int])));
                },
            }
            i += 1;
        }
        m
    }

    /// The owner of the hash value `h`.
    fn owner(&self, h: u64) -> (r: Result<String, DbError>)
        ensures
            match r {
                Ok(id) => Ok::<Seq<char>, DbError>(id@),
                Err(e) => Err::<Seq<char>, DbError>(e),
            } == owner_of(self.shards(), h),
    {
        let n = self.shards.len();
        if n == 0 {
            return Err(DbError::NotFound);
        }
        let start = (h % (n as u64)) as usize;
        let mut d: usize = 0;
        while d < n
            invariant
                0 <= d <= n,
                n == self.shards@.len(),
                n > 0,
                start == h as int % n as int,
                0 <= start < n,
                forall|e: int|
                    0 <= e < d ==> (#[trigger] self.shards()[ring(start as int, e, n as int)]).status
                        != ShardStatus::Active,
            decreases n - d,
        {
            let at = if start < n - d {
                start + d
            } else {
                d - (n - start)
            };
            proof {
                if start < n - d {
                    vstd::arithmetic::div_mod::lemma_small_mod((start + d) as nat, n as nat);
                } else {
                    vstd::arithmetic::div_mod::lemma_small_mod((start + d - n) as nat, n as nat);
                    vstd::arithmetic::div_mod::lemma_mod_sub_multiples_vanish(
                        (start + d) as int,
                        n as int,
                    );
                }
                assert(at == ring(start as int, d as int, n as int));
            }
            match self.shards[at].info.status {
                ShardStatus::Active => {
                    proof {
                        assert(is_first_active(self.shards(), start as int, d as int));
                        lemma_probe_steps(self.shards(), start as int, d as int);
                    }
                    return Ok(self.shards[at].config.id.clone());
                },
                _ => {},
            }
            d += 1;
        }
        proof {
            let ss = self.shards();
            assert forall|i: int| 0 <= i < ss.len() implies (#[trigger] ss[i]).status
                != ShardStatus::Active by {
                let e = if i >= start { i - start } else { i + n - start };
                if i >= start {
                    vstd::arithmetic::div_mod::lemma_small_mod(i as nat, n as nat);
                } else {
                    vstd::arithmetic::div_mod::lemma_small_mod(i as nat, n as nat);
                    vstd::arithmetic::div_mod::lemma_mod_sub_multiples_vanish(
                        (start + e) as int,
                        n as int,
                    );
                }
                assert(ring(start as int, e, n as int) == i);
                assert(ss[ring(start as int, e, n as int)].status != ShardStatus::Active);
            }
        }
        Err(DbError::RemoteUnavailable)
    }

    /// The shard that owns the collection named `collection_name`: the owner of the
    /// fold of the name's UTF-8 bytes, under every strategy.
    pub fn get_shard_for_collection(&self, collection_name: &str) -> (r: Result<String, DbError>)
        ensures
            match r {
                Ok(id) => Ok::<Seq<char>, DbError>(id@),
                Err(e) => Err::<Seq<char>, DbError>(e),
            } == owner_of(self.shards(), fold64_bytes(collection_name.spec_bytes())),
    {
        let hash = fold_str(collection_name);
        match self.routing_strategy {
            RoutingStrategy::HashBased => self.owner(hash),
            RoutingStrategy::RangeBased => self.owner(hash),
            RoutingStrategy::LSHBased => self.owner(hash),
            RoutingStrategy::MetadataBased => self.owner(hash),
        }
    }

    /// The shard that owns the bucket `bucket_id`.
    pub fn get_shard_for_bucket(&self, bucket_id: u64) -> (r: Result<String, DbError>)
        ensures
            match r {
                Ok(id) => Ok::<Seq<char>, DbError>(id@),
                Err(e) => Err::<Seq<char>, DbError>(e),
            } == owner_of(self.shards(), bucket_id),
    {
        self.owner(bucket_id)
    }

    /// The first active shard, in configured order, whose identifier is not among
    /// `exclude`.
    pub fn get_next_available_shard(&self, exclude: &Vec<String>) -> (r: Option<String>)
        ensures
            match r {
                Some(id) => exists|i: int|
                    is_next_available(self.shards(), texts(exclude@), i) && id@ == (
                    #[trigger] self.shards()[i]).id,
                None => forall|i: int|
                    0 <= i < self.shards().len() ==> !available(
                        #[trigger] self.shards()[i],
                        texts(exclude@),
                    ),
            },
    {
        let ghost ex = texts(exclude@);
        let mut i: usize = 0;
        while i < self.shards.len()
            invariant
                0 <= i <= self.shards@.len(),
                ex == texts(exclude@),
                forall|j: int| 0 <= j < i ==> !available(#[trigger] self.shards()[j], ex),
            decreases self.shards.len() - i,
        {
            let mut excluded = false;
            let mut t: usize = 0;
            while t < exclude.len()
                invariant
                    0 <= t <= exclude@.len(),
                    i < self.shards@.len(),
                    ex == texts(exclude@),
                    excluded <==> exists|u: int| 0 <= u < t && ex[u] == self.shards()[i as int].id,
                decreases exclude.len() - t,
            {
                if str_eq(exclude[t].as_str(), self.shards[i].config.id.as_str()) {
                    assert(ex[t as int] == self.shards()[i as int].id);
                    excluded = true;
                }
                t += 1;
            }
            proof {
                let id = self.shards()[i as int].id;
                if ex.contains(id) {
                    let u = choose|u: int| 0 <= u < ex.len() && ex[u] == id;
                    assert(excluded);
                }
                if excluded {
                    let u = choose|u: int| 0 <= u < t && ex[u] == id;
                    assert(ex.contains(id));
                }
            }
            let active = match self.shards[i].info.status {
                ShardStatus::Active => true,
                _ => false,
            };
            if active && !excluded {
                assert(is_next_available(self.shards(), ex, i as int));
                return Some(self.shards[i].config.id.clone());
            }
            i += 1;
        }
        None
    }

    /// The shards that hold the bucket `bucket_id`: its owner, then further active
    /// shards in configured order, up to the replication factor.
    pub fn get_shards_for_bucket(&self, bucket_id: u64) -> (r: Result<Vec<String>, DbError>)
        ensures
            match r {
                Ok(ids) => {
                    &&& owner_of(self.shards(), bucket_id) == Ok::<Seq<char>, DbError>(ids@[0]@)
                    &&& 1 <= ids@.len()
                    &&& ids@.len() <= vstd::math::max(1, self.replication() as int)
                    &&& forall|t: int|
                        1 <= t < ids@.len() ==> #[trigger] is_replica(self.shards(), texts(ids@), t)
                    &&& ids@.len() < self.replication() ==> forall|i: int|
                        0 <= i < self.shards().len() ==> !available(
                            #[trigger] self.shards()[i],
                            texts(ids@),
                        )
                },
                Err(e) => owner_of(self.shards(), bucket_id) == Err::<Seq<char>, DbError>(e),
            },
    {
        let primary = match self.get_shard_for_bucket(bucket_id) {
            Ok(p) => p,
            Err(e) => {
                return Err(e);
            },
        };
        let mut shards: Vec<String> = Vec::new();
        shards.push(primary);
        let mut n: u8 = 1;
        let mut exhausted = false;
        while n < self.replication_factor && !exhausted
            invariant
                1 <= n,
                n <= self.replication_factor || n == 1,
                shards@.len() >= 1,
                shards@.len() <= n,
                !exhausted ==> shards@.len() == n,
                owner_of(self.shards(), bucket_id) == Ok::<Seq<char>, DbError>(shards@[0]@),
                forall|t: int|
                    1 <= t < shards@.len() ==> #[trigger] is_replica(self.shards(), texts(shards@), t),
                exhausted ==> forall|i: int|
                    0 <= i < self.shards().len() ==> !available(
                        #[trigger] self.shards()[i],
                        texts(shards@),
                    ),
            decreases self.replication_factor - n + if exhausted { 0int } else { 1int },
        {
            let ghost before = shards@;
            match self.get_next_available_shard(&shards) {
                Some(replica_id) => {
                    let ghost replica = replica_id;
                    shards.push(replica_id);
                    proof {
                        let after = shards@;
                        assert(texts(after).take(before.len() as int) =~= texts(before));
                        assert forall|t: int| 1 <= t < after.len() implies #[trigger] is_replica(
                            self.shards(),
                            texts(after),
                            t,
                        ) by {
                            if t < before.len() {
                                assert(is_replica(self.shards(), texts(before), t));
                                assert(texts(after).take(t) =~= texts(before).take(t));
                                assert(texts(after)[t] == texts(before)[t]);
                                let i = choose|i: int|
                                    is_next_available(self.shards(), texts(before).take(t), i) && texts(
                                        before,
                                    )[t] == (#[trigger] self.shards()[i]).id;
                                assert(is_next_available(self.shards(), texts(after).take(t), i));
                            } else {
                                let i = choose|i: int|
                                    is_next_available(self.shards(), texts(before), i) && replica@ == (
                                    #[trigger] self.shards()[i]).id;
                                assert(texts(after).take(t) =~= texts(before));
                                assert(is_next_available(self.shards(), texts(after).take(t), i));
                                assert(texts(after)[t] == self.shards()[i].id);
                            }
                        }
                    }
                    n = n + 1;
                },
                None => {
                    exhausted = true;
                },
            }
        }
        Ok(shards)
    }

    /// The shard with identifier `shard_id`.
    pub fn get_shard_info(&self, shard_id: &str) -> (r: Option<&Shard>)
        ensures
            match r {
                Some(s) => has_shard(self.shards(), shard_id@) && s@.id == shard_id@ && (self.wf() ==> s@
                    == self.shards()[shard_index(self.shards(), shard_id@)]),
                None => !has_shard(self.shards(), shard_id@),
            },
    {
        match self.position(shard_id) {
            Some(i) => Some(&self.shards[i]),
            None => None,
        }
    }

    /// The active shards, in configured order.
    pub fn get_active_shards(&self) -> (active: Vec<&Shard>)
        ensures
            Seq::new(active@.len(), |i: int| active@[i]@) == self.shards().filter(
                |s: ShardView| s.status == ShardStatus::Active,
            ),
    {
        let mut active: Vec<&Shard> = Vec::new();
        let ghost keep = |s: ShardView| s.status == ShardStatus::Active;
        let mut i: usize = 0;
        assert(self.shards().take(0).filter(keep) =~= Seq::<ShardView>::empty()) by {
            assert(self.shards().take(0) =~= Seq::<ShardView>::empty());
        }
        while i < self.shards.len()
            invariant
                0 <= i <= self.shards@.len(),
                keep == |s: ShardView| s.status == ShardStatus::Active,
                Seq::new(active@.len(), |j: int| active@[j]@) == self.shards().take(i as int).filter(keep),
            decreases self.shards.len() - i,
        {
            let ghost done = Seq::new(active@.len(), |j: int| active@[j]@);
            proof {
                let upto = self.shards().take(i + 1);
                assert(upto.drop_last() =~= self.shards().take(i as int));
                assert(upto.last() == self.shards()[i as int]);
                reveal(Seq::filter);
            }
            match self.shards[i].info.status {
                ShardStatus::Active => {
                    active.push(&self.shards[i]);
                    assert(Seq::new(active@.len(), |j: int| active@[j]@) =~= done.push(
                        self.shards()[i as int],
                    ));
                },
                _ => {
                    assert(Seq::new(active@.len(), |j: int| active@[j]@) =~= done);
                },
            }
            i += 1;
        }
        assert(self.shards().take(i as int) == self.shards());
        active
    }

    /// Sets the status of the shard `shard_id`.
    pub fn update_shard_status(&mut self, shard_id: &str, status: ShardStatus) -> (r: Result<(), DbError>)
        requires
            old(self).wf(),
        ensures
            final(self).wf(),
            has_shard(old(self).shards(), shard_id@) ==> r == Ok::<(), DbError>(()) && final(self).same_but_shard(old(self), shard_index(old(self).shards(), shard_id@)) && final(self).shards()[shard_index(old(self).shards(), shard_id@)] == (ShardView {
                status,
                ..old(self).shards()[shard_index(old(self).shards(), shard_id@)]
            }),
            !has_shard(old(self).shards(), shard_id@) ==> r == Err::<(), DbError>(DbError::NotFound)
                && final(self).shards() == old(self).shards() && final(self).strategy() == old(self).strategy() && final(self).replication() == old(self).replication(),
    {
        match self.position(shard_id) {
            Some(i) => {
                self.shards[i].info.status = status;
                proof {
                    assert forall|j: int| 0 <= j < self.shards().len() && j != i implies (
                    #[trigger] self.shards()[j]) == old(self).shards()[j] by {}
                    assert forall|a: int, b: int|
                        0 <= a < self.shards().len() && 0 <= b < self.shards().len() && a != b implies (
                    #[trigger] self.shards()[a]).id != (#[trigger] self.shards()[b]).id by {
                        assert(self.shards()[a].id == old(self).shards()[a].id);
                        assert(self.shards()[b].id == old(self).shards()[b].id);
                    }
                }
                Ok(())
            },
            None => Err(DbError::NotFound),
        }
    }

    /// Records that the shard `shard_id` holds the collection `collection_name`.
    pub fn add_collection_to_shard(&mut self, shard_id: &str, collection_name: String) -> (r: Result<
        (),
        DbError,
    >)
        requires
            old(self).wf(),
        ensures
            final(self).wf(),
            has_shard(old(self).shards(), shard_id@) ==> r == Ok::<(), DbError>(()) && final(self).same_but_shard(old(self), shard_index(old(self).shards(), shard_id@)) && final(self).shards()[shard_index(old(self).shards(), shard_id@)] == (ShardView {
                collections: with_collection(
                    old(self).shards()[shard_index(old(self).shards(), shard_id@)].collections,
                    collection_name@,
                ),
                ..old(self).shards()[shard_index(old(self).shards(), shard_id@)]
            }),
            !has_shard(old(self).shards(), shard_id@) ==> r == Err::<(), DbError>(DbError::NotFound)
                && final(self).shards() == old(self).shards() && final(self).strategy() == old(self).strategy() && final(self).replication() == old(self).replication(),
    {
        match self.position(shard_id) {
            Some(i) => {
                let ghost names = self.shards()[i as int].collections;
                let mut listed = false;
                let mut j: usize = 0;
                while j < self.shards[i].info.collections.len()
                    invariant
                        0 <= j <= self.shards@[i as int].info.collections@.len(),
                        i < self.shards@.len(),
                        names == self.shards()[i as int].collections,
                        listed <==> exists|t: int| 0 <= t < j && names[t] == collection_name@,
                    decreases self.shards@[i as int].info.collections@.len() - j,
                {
                    if str_eq(self.shards[i].info.collections[j].as_str(), collection_name.as_str()) {
                        assert(names[j as int] == collection_name@);
                        listed = true;
                    }
                    j += 1;
                }
                proof {
                    if names.contains(collection_name@) {
                        let t = choose|t: int| 0 <= t < names.len() && names[t] == collection_name@;
                        assert(listed);
                    }
                    if listed {
                        let t = choose|t: int| 0 <= t < j && names[t] == collection_name@;
                        assert(names.contains(collection_name@));
                    }
                }
                if !listed {
                    self.shards[i].info.collections.push(collection_name);
                    assert(self.shards()[i as int].collections =~= names.push(collection_name@));
                }
                proof {
                    assert forall|k: int| 0 <= k < self.shards().len() && k != i implies (
                    #[trigger] self.shards()[k]) == old(self).shards()[k] by {}
                    assert forall|a: int, b: int|
                        0 <= a < self.shards().len() && 0 <= b < self.shards().len() && a != b implies (
                    #[trigger] self.shards()[a]).id != (#[trigger] self.shards()[b]).id by {
                        assert(self.shards()[a].id == old(self).shards()[a].id);
                        assert(self.shards()[b].id == old(self).shards()[b].id);
                    }
                }
                Ok(())
            },
            None => Err(DbError::NotFound),
        }
    }

    /// Records that the shard `shard_id` no longer holds the collection
    /// `collection_name`.
    pub fn remove_collection_from_shard(&mut self, shard_id: &str, collection_name: &str) -> (r: Result<
        (),
        DbError,
    >)
        requires
            old(self).wf(),
        ensures
            final(self).wf(),
            has_shard(old(self).shards(), shard_id@) ==> r == Ok::<(), DbError>(()) && final(self).same_but_shard(old(self), shard_index(old(self).shards(), shard_id@)) && final(self).shards()[shard_index(old(self).shards(), shard_id@)] == (ShardView {
                collections: without_collection(
                    old(self).shards()[shard_index(old(self).shards(), shard_id@)].collections,
                    collection_name@,
                ),
                ..old(self).shards()[shard_index(old(self).shards(), shard_id@)]
            }),
            !has_shard(old(self).shards(), shard_id@) ==> r == Err::<(), DbError>(DbError::NotFound)
                && final(self).shards() == old(self).shards() && final(self).strategy() == old(self).strategy() && final(self).replication() == old(self).replication(),
    {
        match self.position(shard_id) {
            Some(i) => {
                let ghost names = self.shards()[i as int].collections;
                let ghost keep = |n: Seq<char>| n != collection_name@;
                let mut kept: Vec<String> = Vec::new();
                let mut j: usize = 0;
                assert(names.take(0).filter(keep) =~= Seq::<Seq<char>>::empty()) by {
                    assert(names.take(0) =~= Seq::<Seq<char>>::empty());
                }
                while j < self.shards[i].info.collections.len()
                    invariant
                        0 <= j <= self.shards@[i as int].info.collections@.len(),
                        i < self.shards@.len(),
                        names == self.shards()[i as int].collections,
                        keep == |n: Seq<char>| n != collection_name@,
                        Seq::new(kept@.len(), |t: int| kept@[t]@) == names.take(j as int).filter(keep),
                    decreases self.shards@[i as int].info.collections@.len() - j,
                {
                    let ghost done = Seq::new(kept@.len(), |t: int| kept@[t]@);
                    proof {
                        let upto = names.take(j + 1);
                        assert(upto.drop_last() =~= names.take(j as int));
                        assert(upto.last() == names[j as int]);
                        reveal(Seq::filter);
                    }
                    if !str_eq(self.shards[i].info.collections[j].as_str(), collection_name) {
                        kept.push(self.shards[i].info.collections[j].clone());
                        assert(Seq::new(kept@.len(), |t: int| kept@[t]@) =~= done.push(names[j as int]));
                    } else {
                        assert(Seq::new(kept@.len(), |t: int| kept@[t]@) =~= done);
                    }
                    j += 1;
                }
                assert(names.take(j as int) == names);
                self.shards[i].info.collections = kept;
                proof {
                    assert(self.shards()[i as int].collections =~= without_collection(
                        names,
                        collection_name@,
                    ));
                    assert forall|k: int| 0 <= k < self.shards().len() && k != i implies (
                    #[trigger] self.shards()[k]) == old(self).shards()[k] by {}
                    assert forall|a: int, b: int|
                        0 <= a < self.shards().len() && 0 <= b < self.shards().len() && a != b implies (
                    #[trigger] self.shards()[a]).id != (#[trigger] self.shards()[b]).id by {
                        assert(self.shards()[a].id == old(self).shards()[a].id);
                        assert(self.shards()[b].id == old(self).shards()[b].id);
                    }
                }
                Ok(())
            },
            None => Err(DbError::NotFound),
        }
    }

    /// What is known of every shard, in configured order.
    pub fn get_shards_statistics(&self) -> (stats: Vec<ShardStatistics>)
        ensures
            stats@.len() == self.shards().len(),
            forall|i: int|
                0 <= i < stats@.len() ==> (#[trigger] stats@[i])@ == self.shards()[i] && stats@[i].collections_count
                    == self.shards()[i].collections.len(),
    {
        let mut stats: Vec<ShardStatistics> = Vec::new();
        let mut i: usize = 0;
        while i < self.shards.len()
            invariant
                0 <= i <= self.shards@.len(),
                stats@.len() == i,
                forall|j: int|
                    0 <= j < i ==> (#[trigger] stats@[j])@ == self.shards()[j] && stats@[j].collections_count
                        == self.shards()[j].collections.len(),
            decreases self.shards.len() - i,
        {
            let shard = &self.shards[i];
            let mut collections: Vec<String> = Vec::new();
            let mut t: usize = 0;
            while t < shard.info.collections.len()
                invariant
                    0 <= t <= shard.info.collections@.len(),
                    collections@.len() == t,
                    forall|u: int| 0 <= u < t ==> (#[trigger] collections@[u])@ == shard.info.collections@[u]@,
                decreases shard.info.collections.len() - t,
            {
                collections.push(shard.info.collections[t].clone());
                t += 1;
            }
            let entry = ShardStatistics {
                id: shard.config.id.clone(),
                host: shard.config.host.clone(),
                port: shard.config.port,
                description: match &shard.config.description {
                    Some(d) => Some(d.clone()),
                    None => None,
                },
                status: shard.info.status,
                capacity: shard.info.capacity,
                used_space: shard.info.used_space,
                collections_count: collections.len(),
                collections,
            };
            proof {
                assert(entry@.collections =~= self.shards()[i as int].collections);
            }
            stats.push(entry);
            i += 1;
        }
        stats
    }

    /// The identifiers of the active shards, in configured order: where a fan-out goes.
    pub fn active_shard_ids(&self) -> (ids: Vec<String>)
        ensures
            texts(ids@) == active_ids(self.shards()),
    {
        let mut ids: Vec<String> = Vec::new();
        let ghost ss = self.shards();
        let mut i: usize = 0;
        assert(texts(ids@) =~= active_ids(ss.take(0)));
        while i < self.shards.len()
            invariant
                0 <= i <= self.shards@.len(),
                ss == self.shards(),
                texts(ids@) == active_ids(ss.take(i as int)),
            decreases self.shards.len() - i,
        {
            let ghost done = texts(ids@);
            proof {
                let upto = ss.take(i + 1);
                assert(upto.drop_last() =~= ss.take(i as int));
                assert(upto.last() == ss[i as int]);
            }
            match self.shards[i].info.status {
                ShardStatus::Active => {
                    ids.push(self.shards[i].config.id.clone());
                    assert(texts(ids@) =~= done.push(ss[i as int].id));
                },
                _ => {
                    assert(texts(ids@) =~= done);
                },
            }
            i += 1;
        }
        assert(ss.take(i as int) == ss);
        ids
    }

    /// The identifiers of all shards, in configured order.
    pub fn shard_ids(&self) -> (ids: Vec<String>)
        ensures
            ids@.len() == self.shards().len(),
            forall|i: int| 0 <= i < ids@.len() ==> (#[trigger] ids@[i])@ == self.shards()[i].id,
    {
        let mut ids: Vec<String> = Vec::new();
        let mut i: usize = 0;
        while i < self.shards.len()
            invariant
                0 <= i <= self.shards@.len(),
                ids@.len() == i,
                forall|j: int| 0 <= j < i ==> (#[trigger] ids@[j])@ == self.shards()[j].id,
            decreases self.shards.len() - i,
        {
            ids.push(self.shards[i].config.id.clone());
            i += 1;
        }
        ids
    }
}

} // verus!
