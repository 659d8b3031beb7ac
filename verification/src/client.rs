//! The client façade: the session prime, the client key, and the map
//! catalog parsed once at construction, plus the plain game metadata
//! the matchmaker describes.

use crate::map::{spec_map_error, GameMap, MapParseError, RawMap};
use crate::map::raw_map_wf;
use vstd::prelude::*;

verus! {

/// A game listed by the matchmaker.
#[derive(Debug, Clone)]
pub struct Game {
    pub client_key: String,
    pub id: String,
    pub region: String,
    pub version: String,
    pub players: u8,
    pub max_players: u8,
    pub custom: bool,
    pub map: String,
    pub mode: u8,
}

/// What a connection needs: the host and the game and client ids.
#[derive(Debug, Clone)]
pub struct GameConnectInfo {
    pub host: String,
    pub client_id: String,
    pub game_id: String,
}

/// Whether a raw map plays the standard mode (mode 0).
pub open spec fn spec_has_mode0(raw: RawMap) -> bool {
    exists|k: int| 0 <= k < raw.config.modes@.len() && raw.config.modes@[k] == 0
}

fn has_mode0(raw: &RawMap) -> (r: bool)
    ensures
        r == spec_has_mode0(*raw),
{
    let mut k: usize = 0;
    while k < raw.config.modes.len()
        invariant
            k <= raw.config.modes@.len(),
            forall|j: int| 0 <= j < k ==> raw.config.modes@[j] != 0,
        decreases raw.config.modes@.len() - k,
    {
        if raw.config.modes[k] == 0 {
            return true;
        }
        k += 1;
    }
    false
}

/// The indices of the raw maps the catalog keeps: those playing the
/// standard mode, in order, among the first `i`.
pub open spec fn spec_kept_maps(raws: Seq<RawMap>, i: int) -> Seq<int>
    decreases i,
{
    if i <= 0 {
        Seq::empty()
    } else if spec_has_mode0(raws[i - 1]) {
        spec_kept_maps(raws, i - 1).push(i - 1)
    } else {
        spec_kept_maps(raws, i - 1)
    }
}

/// A shorter prefix of the map list keeps a prefix of the map indices.
proof fn lemma_kept_maps_prefix(raws: Seq<RawMap>, i: int, i2: int)
    requires
        i <= i2,
    ensures
        spec_kept_maps(raws, i).is_prefix_of(spec_kept_maps(raws, i2)),
    decreases i2 - i,
{
    if i < i2 {
        lemma_kept_maps_prefix(raws, i, i2 - 1);
    }
}

/// The client: the session's rolling-padding prime, the bearer key,
/// and the preprocessed catalog of standard-mode maps.
pub struct Client {
    pub prime: u16,
    pub client_key: String,
    pub maps: Vec<GameMap>,
}

impl Client {
    /// Builds the client from the collaborator-supplied prime, key and
    /// raw map list: maps playing the standard mode are preprocessed in
    /// order, and any single map failure fails construction.
    pub fn new(prime: u16, client_key: String, raw_maps: &Vec<RawMap>) -> (r: Result<
        Client,
        MapParseError,
    >)
        requires
            forall|i: int| 0 <= i < raw_maps@.len() ==> raw_map_wf(#[trigger] raw_maps@[i]),
        ensures
            ({
                let kept = spec_kept_maps(raw_maps@, raw_maps@.len() as int);
                match r {
                    Result::Ok(c) => {
                        &&& c.prime == prime
                        &&& c.client_key@ == client_key@
                        &&& c.maps@.len() == kept.len()
                        &&& forall|j: int|
                            0 <= j < c.maps@.len() ==> (#[trigger] c.maps@[j]).wf()
                                && c.maps@[j].name@ == raw_maps@[kept[j]].name@
                        &&& forall|j: int|
                            0 <= j < kept.len() ==> spec_map_error(raw_maps@[#[trigger] kept[j]])
                                is None
                    },
                    Result::Err(e) => exists|j: int|
                        {
                            &&& 0 <= j < kept.len()
                            &&& spec_map_error(raw_maps@[#[trigger] kept[j]]) == Option::Some(e)
                            &&& forall|j2: int|
                                0 <= j2 < j ==> spec_map_error(raw_maps@[#[trigger] kept[j2]])
                                    is None
                        },
                }
            }),
    {
        let mut maps: Vec<GameMap> = Vec::new();
        let mut i: usize = 0;
        while i < raw_maps.len()
            invariant
                i <= raw_maps@.len(),
                forall|k: int| 0 <= k < raw_maps@.len() ==> raw_map_wf(#[trigger] raw_maps@[k]),
                maps@.len() == spec_kept_maps(raw_maps@, i as int).len(),
                forall|j: int|
                    0 <= j < maps@.len() ==> (#[trigger] maps@[j]).wf() && maps@[j].name@
                        == raw_maps@[spec_kept_maps(raw_maps@, i as int)[j]].name@,
                forall|j: int|
                    0 <= j < maps@.len() ==> spec_map_error(
                        raw_maps@[#[trigger] spec_kept_maps(raw_maps@, i as int)[j]],
                    ) is None,
            decreases raw_maps@.len() - i,
        {
            let raw: &RawMap = &raw_maps[i];
            if has_mode0(raw) {
                match GameMap::new(raw) {
                    Ok(m) => {
                        maps.push(m);
                        proof {
                            let kept_next = spec_kept_maps(raw_maps@, i as int + 1);
                            assert(kept_next == spec_kept_maps(raw_maps@, i as int).push(i as int));
                        }
                    },
                    Err(e) => {
                        proof {
                            let kept_here = spec_kept_maps(raw_maps@, i as int);
                            let kept_next = spec_kept_maps(raw_maps@, i as int + 1);
                            let kept_all = spec_kept_maps(raw_maps@, raw_maps@.len() as int);
                            assert(kept_next == kept_here.push(i as int));
                            lemma_kept_maps_prefix(raw_maps@, i as int + 1, raw_maps@.len() as int);
                            let j = kept_here.len() as int;
                            assert(kept_all[j] == kept_next[j] == i as int);
                            assert forall|j2: int| 0 <= j2 < j implies spec_map_error(
                                raw_maps@[#[trigger] kept_all[j2]],
                            ) is None by {
                                assert(kept_all[j2] == kept_next[j2] == kept_here[j2]);
                            }
                        }
                        return Err(e);
                    },
                }
            }
            i += 1;
        }
        proof {
            lemma_kept_maps_prefix(raw_maps@, i as int, raw_maps@.len() as int);
            assert(spec_kept_maps(raw_maps@, i as int) == spec_kept_maps(
                raw_maps@,
                raw_maps@.len() as int,
            ));
        }
        Ok(Client { prime, client_key, maps })
    }

    /// The names of the catalog's maps, in order.
    pub fn available_maps(&self) -> (r: Vec<String>)
        ensures
            r@.len() == self.maps@.len(),
            forall|j: int| 0 <= j < r@.len() ==> #[trigger] r@[j]@ == self.maps@[j].name@,
    {
        let mut names: Vec<String> = Vec::new();
        let mut i: usize = 0;
        while i < self.maps.len()
            invariant
                i <= self.maps@.len(),
                names@.len() == i,
                forall|j: int| 0 <= j < i ==> #[trigger] names@[j]@ == self.maps@[j].name@,
            decreases self.maps@.len() - i,
        {
            names.push(self.maps[i].name());
            i += 1;
        }
        names
    }

    /// An owned copy of the first catalog map with the given name.
    pub fn map_by_name(&self, name: &str) -> (r: Option<GameMap>)
        requires
            forall|j: int| 0 <= j < self.maps@.len() ==> (#[trigger] self.maps@[j]).wf(),
        ensures
            match r {
                Option::Some(m) => m.wf() && m.name@ == name@ && exists|j: int|
                    0 <= j < self.maps@.len() && (#[trigger] self.maps@[j]).name@ == name@,
                Option::None => forall|j: int|
                    0 <= j < self.maps@.len() ==> (#[trigger] self.maps@[j]).name@ != name@,
            },
    {
        let mut i: usize = 0;
        while i < self.maps.len()
            invariant
                i <= self.maps@.len(),
                forall|j: int| 0 <= j < self.maps@.len() ==> (#[trigger] self.maps@[j]).wf(),
                forall|j: int| 0 <= j < i ==> (#[trigger] self.maps@[j]).name@ != name@,
            decreases self.maps@.len() - i,
        {
            let m: &GameMap = &self.maps[i];
            let m_name: String = m.name();
            if crate::messages::str_eq(m_name.as_str(), name) {
                let copy: GameMap = m.clone();
                return Some(copy);
            }
            i += 1;
        }
        None
    }
}

} // verus!
