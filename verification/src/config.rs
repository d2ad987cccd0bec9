//! The configuration of a node.

use vstd::prelude::*;
use crate::metadata::lemma_pairs_map_step;
use crate::metadata::pairs_map;
use crate::metadata::Metadata;
use crate::paths::starts_with;
use crate::error::DbError;
use crate::json::flat_of;
use crate::json::flatten;
use crate::json::parse_json;
use crate::json::parsed_json;
use crate::json::shard_configs_of;
use crate::json::shard_list;
use crate::sharding::strategy_of_name;
use crate::sharding::ConfigView;
use crate::sharding::ShardConfig;
use crate::sharding::RoutingStrategy;
use crate::text::str_eq;

verus! {

/// The entries of the section `name` of a flat configuration: every entry whose key
/// is `name`, a dot, and a rest, under that rest.
pub open spec fn section(flat: Map<Seq<char>, Seq<char>>, name: Seq<char>) -> Map<Seq<char>, Seq<char>> {
    Map::new(
        |k: Seq<char>| flat.contains_key(name + "."@ + k),
        |k: Seq<char>| flat[name + "."@ + k],
    )
}

/// The role that a configuration names; a shard where it names none.
pub open spec fn role_of(flat: Map<Seq<char>, Seq<char>>) -> Seq<char> {
    if section(flat, "server"@).contains_key("role"@) {
        section(flat, "server"@)["role"@]
    } else {
        "shard"@
    }
}

/// The routing strategy that a configuration names: hash-based where it names none,
/// an invalid argument where the name is none of the four.
pub open spec fn routing_of(flat: Map<Seq<char>, Seq<char>>) -> Result<RoutingStrategy, DbError> {
    if section(flat, "sharding"@).contains_key("strategy"@) {
        strategy_of_name(section(flat, "sharding"@)["strategy"@])
    } else {
        Ok(RoutingStrategy::HashBased)
    }
}

/// Whether a configuration switches sharding on.
pub open spec fn sharding_on(flat: Map<Seq<char>, Seq<char>>) -> bool {
    section(flat, "sharding"@).contains_key("enabled"@) && section(flat, "sharding"@)["enabled"@]
        == "true"@
}

/// The flat entries of a configuration text; none for a text that is missing or is not
/// JSON.
pub open spec fn loaded_entries(content: Option<Seq<char>>) -> Map<Seq<char>, Seq<char>> {
    match content {
        Some(c) => match parsed_json(c) {
            Some(json) => flat_of(json),
            None => Map::empty(),
        },
        None => Map::empty(),
    }
}

/// The shards that a configuration text lists, for a loader that holds `flat` and was
/// loaded from `path`: the loader must hold a `sharding` section and a path, and the
/// text must be there, be JSON, and hold a list under `sharding.shards`.
pub open spec fn shard_configs_outcome(
    flat: Map<Seq<char>, Seq<char>>,
    path: Option<Seq<char>>,
    content: Option<Seq<char>>,
) -> Result<Seq<ConfigView>, DbError> {
    if forall|k: Seq<char>| !section(flat, "sharding"@).contains_key(k) {
        Err(DbError::NotFound)
    } else if path is None {
        Err(DbError::InvalidArgument)
    } else if content is None {
        Err(DbError::Io)
    } else if parsed_json(content->Some_0) is None {
        Err(DbError::InvalidArgument)
    } else {
        match shard_list(parsed_json(content->Some_0)->Some_0) {
            Some(cs) => Ok(cs),
            None => Err(DbError::NotFound),
        }
    }
}

/// The text given, as plain characters.
pub open spec fn content_view(content: Option<&str>) -> Option<Seq<char>> {
    match content {
        Some(c) => Some(c@),
        None => None,
    }
}

/// A configuration, flattened to one level: `section.key` to value.
pub struct ConfigLoader {
    configs: Option<Metadata>,
    config_path: Option<String>,
}

impl ConfigLoader {
    /// The flat entries; none where nothing is loaded.
    pub closed spec fn flat(&self) -> Map<Seq<char>, Seq<char>> {
        match self.configs {
            Some(m) => m@,
            None => Map::empty(),
        }
    }

    /// The path that the configuration was loaded from.
    pub closed spec fn path(&self) -> Option<Seq<char>> {
        match self.config_path {
            Some(p) => Some(p@),
            None => None,
        }
    }

    pub closed spec fn wf(&self) -> bool {
        match self.configs {
            Some(m) => m.wf(),
            None => true,
        }
    }

    /// A loader with nothing loaded.
    pub fn new() -> (c: ConfigLoader)
        ensures
            c.wf(),
            c.flat() == Map::<Seq<char>, Seq<char>>::empty(),
            c.path() is None,
    {
        ConfigLoader { configs: None, config_path: None }
    }

    /// Takes the flat entries read from the file at `path`; `None` stands for a file
    /// that could not be read, and leaves nothing loaded.
    pub fn load_entries(&mut self, path: String, entries: Option<Metadata>)
        requires
            entries matches Some(m) ==> m.wf(),
        ensures
            final(self).wf(),
            final(self).path() == Some(path@),
            final(self).flat() == (match entries {
                Some(m) => m@,
                None => Map::empty(),
            }),
    {
        self.config_path = Some(path);
        self.configs = entries;
    }

    /// Takes the configuration read from the file at `path`: its JSON text flattened to
    /// one level. A text that is missing or is not JSON leaves nothing loaded.
    pub fn load(&mut self, path: String, content: Option<&str>)
        ensures
            final(self).wf(),
            final(self).path() == Some(path@),
            final(self).flat() == loaded_entries(content_view(content)),
    {
        self.config_path = Some(path);
        self.configs = match content {
            Some(text) => match parse_json(text) {
                Some(json) => Some(flatten(&json)),
                None => None,
            },
            None => None,
        };
    }

    /// The shards that the configuration text lists under `sharding.shards`. A shard
    /// without an identifier is called `unknown`, one without a host is at `127.0.0.1`,
    /// and one without a port is at 8080.
    pub fn get_shard_configs(&self, content: Option<&str>) -> (r: Result<Vec<ShardConfig>, DbError>)
        requires
            self.wf(),
        ensures
            match r {
                Ok(cs) => Ok::<Seq<ConfigView>, DbError>(Seq::new(cs@.len(), |i: int| cs@[i]@)),
                Err(e) => Err::<Seq<ConfigView>, DbError>(e),
            } == shard_configs_outcome(self.flat(), self.path(), content_view(content)),
    {
        if self.get("sharding").is_empty() {
            return Err(DbError::NotFound);
        }
        if self.config_path.is_none() {
            return Err(DbError::InvalidArgument);
        }
        let text = match content {
            Some(t) => t,
            None => {
                return Err(DbError::Io);
            },
        };
        let json = match parse_json(text) {
            Some(j) => j,
            None => {
                return Err(DbError::InvalidArgument);
            },
        };
        match shard_configs_of(&json) {
            Some(cs) => Ok(cs),
            None => Err(DbError::NotFound),
        }
    }

    /// The entries of the section `name`, under their keys without the section.
    pub fn get(&self, name: &str) -> (r: Metadata)
        requires
            self.wf(),
        ensures
            r.wf(),
            r@ == section(self.flat(), name@),
    {
        let mut result = Metadata::new();
        match &self.configs {
            Some(configs) => {
                let prefix = name.to_owned().concat(".");
                let plen = prefix.as_str().unicode_len();
                let ghost ps = configs.pairs();
                let ghost pre = name@ + "."@;
                let mut i: usize = 0;
                proof {
                    assert(pairs_map(ps.take(0)) =~= Map::<Seq<char>, Seq<char>>::empty());
                    assert(result@ =~= section(pairs_map(ps.take(0)), name@));
                }
                while i < configs.len()
                    invariant
                        0 <= i <= ps.len(),
                        ps == configs.pairs(),
                        configs.wf(),
                        result.wf(),
                        prefix@ == pre,
                        pre == name@ + "."@,
                        plen == pre.len(),
                        result@ == section(pairs_map(ps.take(i as int)), name@),
                    decreases ps.len() - i,
                {
                    let key = configs.key_at(i);
                    let value = configs.value_at(i);
                    let ghost done = pairs_map(ps.take(i as int));
                    let ghost before = result@;
                    proof {
                        lemma_pairs_map_step(ps, i as int);
                    }
                    if starts_with(key.as_str(), prefix.as_str()) {
                        let klen = key.as_str().unicode_len();
                        let rest = key.as_str().substring_char(plen, klen);
                        let ghost suffix = rest@;
                        result.insert(rest.to_owned(), value.clone());
                        proof {
                            assert(pre + suffix =~= key@);
                            assert forall|k: Seq<char>| pre + k == key@ implies k == suffix by {
                                assert((pre + k).subrange(pre.len() as int, (pre + k).len() as int) =~= k);
                                assert(key@.subrange(pre.len() as int, key@.len() as int) =~= suffix);
                            }
                            assert(result@ =~= section(done.insert(key@, value@), name@));
                        }
                    } else {
                        proof {
                            assert forall|k: Seq<char>| pre + k != key@ by {
                                if pre + k == key@ {
                                    assert((pre + k).subrange(0, pre.len() as int) =~= pre);
                                }
                            }
                            assert(result@ =~= section(done.insert(key@, value@), name@));
                        }
                    }
                    i += 1;
                }
                assert(ps.take(i as int) == ps);
            },
            None => {
                assert(result@ =~= section(self.flat(), name@));
            },
        }
        result
    }

    /// The node's role: what `server.role` says, a shard where it says nothing.
    pub fn get_role(&self) -> (role: String)
        requires
            self.wf(),
        ensures
            role@ == role_of(self.flat()),
    {
        let server = self.get("server");
        match server.get("role") {
            Some(r) => r.clone(),
            None => "shard".to_owned(),
        }
    }

    /// Whether the node is the coordinator.
    pub fn is_coordinator(&self) -> (b: bool)
        requires
            self.wf(),
        ensures
            b == (role_of(self.flat()) == "coordinator"@),
    {
        let role = self.get_role();
        str_eq(role.as_str(), "coordinator")
    }

    /// Whether the node is a shard.
    pub fn is_shard(&self) -> (b: bool)
        requires
            self.wf(),
        ensures
            b == (role_of(self.flat()) == "shard"@),
    {
        let role = self.get_role();
        str_eq(role.as_str(), "shard")
    }

    /// The routing strategy: what `sharding.strategy` names, hash-based where the key
    /// is absent. A name that is none of the four strategies is an invalid argument.
    pub fn get_routing_strategy(&self) -> (r: Result<RoutingStrategy, DbError>)
        requires
            self.wf(),
        ensures
            r == routing_of(self.flat()),
    {
        let sharding = self.get("sharding");
        match sharding.get("strategy") {
            Some(name) => RoutingStrategy::from_string(name.as_str()),
            None => Ok(RoutingStrategy::HashBased),
        }
    }

    /// Whether `sharding.enabled` is `true`.
    pub fn is_sharding_enabled(&self) -> (b: bool)
        requires
            self.wf(),
        ensures
            b == sharding_on(self.flat()),
    {
        let sharding = self.get("sharding");
        match sharding.get("enabled") {
            Some(v) => str_eq(v.as_str(), "true"),
            None => false,
        }
    }

    /// A copy with the same entries and path.
    pub fn duplicate(&self) -> (c: ConfigLoader)
        ensures
            c.flat() == self.flat(),
            c.path() == self.path(),
            c.wf() == self.wf(),
    {
        ConfigLoader {
            configs: match &self.configs {
                Some(m) => Some(m.duplicate()),
                None => None,
            },
            config_path: match &self.config_path {
                Some(p) => Some(p.clone()),
                None => None,
            },
        }
    }
}

/// Holds the configuration that the server is started with.
pub struct ConnectionController {
    config_loader: ConfigLoader,
}

impl ConnectionController {
    pub closed spec fn loader(&self) -> ConfigLoader {
        self.config_loader
    }

    pub fn new(config_loader: ConfigLoader) -> (c: ConnectionController)
        ensures
            c.loader() == config_loader,
    {
        ConnectionController { config_loader }
    }

    /// The entries of the `server` section.
    pub fn get_connection_config(&self) -> (r: Metadata)
        requires
            self.loader().wf(),
        ensures
            r.wf(),
            r@ == section(self.loader().flat(), "server"@),
    {
        self.config_loader.get("server")
    }

    pub fn get_config_loader(&self) -> (c: &ConfigLoader)
        ensures
            *c == self.loader(),
    {
        &self.config_loader
    }
}

} // verus!
