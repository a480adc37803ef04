//! The champion catalog: parsing catalog entries, whose numeric key may
//! arrive string-encoded, and the in-memory cache the lookups run on.

use vstd::prelude::*;

use crate::json::{field_str_owned, opt_as_int_lenient, opt_as_str, spec_get, JsonValue};

verus! {

/// One champion of the catalog.
#[derive(Debug, Clone)]
pub struct Champion {
    pub id: String,
    pub key: i64,
    pub name: String,
    pub title: String,
    pub tags: Vec<String>,
}

/// A catalog version together with its champions.
#[derive(Debug, Clone)]
pub struct ChampionData {
    pub version: String,
    pub champions: Vec<Champion>,
}

#[verifier::ext_equal]
pub struct ChampionModel {
    pub id: Seq<char>,
    pub key: i64,
    pub name: Seq<char>,
    pub title: Seq<char>,
    pub tags: Seq<Seq<char>>,
}

impl View for Champion {
    type V = ChampionModel;

    open spec fn view(&self) -> ChampionModel {
        ChampionModel {
            id: self.id@,
            key: self.key,
            name: self.name@,
            title: self.title@,
            tags: self.tags.deep_view(),
        }
    }
}

pub open spec fn champion_views(s: Seq<Champion>) -> Seq<ChampionModel> {
    s.map(|i: int, c: Champion| c@)
}

/// The strings of a JSON array, when every element is a string.
pub open spec fn spec_str_list(items: Seq<JsonValue>) -> Option<Seq<Seq<char>>>
    decreases items.len(),
{
    if items.len() == 0 {
        Some(Seq::empty())
    } else {
        match spec_str_list(items.drop_last()) {
            None => None,
            Some(rest) => match crate::json::spec_as_str(items.last()) {
                Some(s) => Some(rest.push(s)),
                None => None,
            },
        }
    }
}

fn parse_str_list(items: &Vec<JsonValue>) -> (r: Option<Vec<String>>)
    ensures
        match r {
            Some(v) => spec_str_list(items@) == Some(v.deep_view()),
            None => spec_str_list(items@) is None,
        },
{
    let mut out: Vec<String> = Vec::new();
    let n = items.len();
    let mut i: usize = 0;
    proof {
        assert(items@.take(0) =~= Seq::<JsonValue>::empty());
        assert(spec_str_list(items@.take(0)) == Some(out.deep_view()));
    }
    while i < n
        invariant
            i <= n,
            n == items@.len(),
            spec_str_list(items@.take(i as int)) == Some(out.deep_view()),
        decreases n - i,
    {
        proof {
            assert(items@.take(i as int + 1).drop_last() =~= items@.take(i as int));
            assert(items@.take(i as int + 1).last() == items@[i as int]);
        }
        match items[i].as_string() {
            Some(s) => {
                let ghost prev = out.deep_view();
                out.push(s.clone());
                proof {
                    assert(out.deep_view() =~= prev.push(items@[i as int]->Str_0@));
                }
            },
            None => {
                proof {
                    let j = i as int;
                    assert(spec_str_list(items@.take(j + 1)) is None);
                    lemma_str_list_prefix_none(items@, j + 1);
                }
                return None;
            },
        }
        i += 1;
    }
    proof {
        assert(items@.take(n as int) =~= items@);
    }
    Some(out)
}

/// A list with a non-string element stays unparseable however it is
/// extended.
proof fn lemma_str_list_prefix_none(items: Seq<JsonValue>, i: int)
    requires
        0 <= i <= items.len(),
        spec_str_list(items.take(i)) is None,
    ensures
        spec_str_list(items) is None,
    decreases items.len() - i,
{
    if i < items.len() {
        assert(items.take(i + 1).drop_last() =~= items.take(i));
        lemma_str_list_prefix_none(items, i + 1);
    } else {
        assert(items.take(i) =~= items);
    }
}

/// What one catalog entry parses to. Every field must be present and
/// well-typed — the key may be a number or a string-encoded number —
/// else the entry is skipped.
pub open spec fn spec_champion(v: JsonValue) -> Option<ChampionModel> {
    match opt_as_str(spec_get(v, "id"@)) {
        None => None,
        Some(id) => match opt_as_int_lenient(spec_get(v, "key"@)) {
            None => None,
            Some(key) => match opt_as_str(spec_get(v, "name"@)) {
                None => None,
                Some(name) => match opt_as_str(spec_get(v, "title"@)) {
                    None => None,
                    Some(title) => match spec_get(v, "tags"@) {
                        None => None,
                        Some(t) => match t {
                            JsonValue::Arr(items) => match spec_str_list(items@) {
                                None => None,
                                Some(tags) => Some(ChampionModel { id, key, name, title, tags }),
                            },
                            _ => None,
                        },
                    },
                },
            },
        },
    }
}

/// Parse one catalog entry; its key may arrive as a string or a number.
pub fn parse_champion(v: &JsonValue) -> (r: Option<Champion>)
    ensures
        match r {
            Some(c) => spec_champion(*v) == Some(c@),
            None => spec_champion(*v) is None,
        },
{
    let id = match field_str_owned(v, "id") {
        Some(s) => s,
        None => {
            return None;
        },
    };
    let key = match crate::json::field_int_lenient(v, "key") {
        Some(k) => k,
        None => {
            return None;
        },
    };
    let name = match field_str_owned(v, "name") {
        Some(s) => s,
        None => {
            return None;
        },
    };
    let title = match field_str_owned(v, "title") {
        Some(s) => s,
        None => {
            return None;
        },
    };
    let tags = match v.get("tags") {
        Some(t) => match t.as_array() {
            Some(items) => match parse_str_list(items) {
                Some(tags) => tags,
                None => {
                    return None;
                },
            },
            None => {
                return None;
            },
        },
        None => {
            return None;
        },
    };
    let c = Champion { id, key, name, title, tags };
    proof {
        assert(c@ =~= spec_champion(*v)->Some_0);
    }
    Some(c)
}

/// The champions of a catalog document: the well-formed entries of its
/// `data` object, in entry order.
pub open spec fn spec_champion_list(entries: Seq<(String, JsonValue)>) -> Seq<ChampionModel>
    decreases entries.len(),
{
    if entries.len() == 0 {
        Seq::empty()
    } else {
        let rest = spec_champion_list(entries.drop_last());
        match spec_champion(entries.last().1) {
            Some(c) => rest.push(c),
            None => rest,
        }
    }
}

pub open spec fn spec_catalog(v: JsonValue) -> Seq<ChampionModel> {
    match spec_get(v, "data"@) {
        Some(d) => match d {
            JsonValue::Obj(entries) => spec_champion_list(entries@),
            _ => Seq::empty(),
        },
        None => Seq::empty(),
    }
}

/// Collect the champions of a catalog document, skipping malformed
/// entries.
pub fn parse_champion_catalog(v: &JsonValue) -> (r: Vec<Champion>)
    ensures
        champion_views(r@) == spec_catalog(*v),
{
    let mut out: Vec<Champion> = Vec::new();
    let entries = match v.get("data") {
        Some(d) => match d {
            JsonValue::Obj(entries) => entries,
            _ => {
                proof {
                    assert(champion_views(out@) =~= spec_catalog(*v));
                }
                return out;
            },
        },
        None => {
            proof {
                assert(champion_views(out@) =~= spec_catalog(*v));
            }
            return out;
        },
    };
    let n = entries.len();
    let mut i: usize = 0;
    proof {
        assert(entries@.take(0) =~= Seq::<(String, JsonValue)>::empty());
        assert(champion_views(out@) =~= spec_champion_list(entries@.take(0)));
    }
    while i < n
        invariant
            i <= n,
            n == entries@.len(),
            champion_views(out@) == spec_champion_list(entries@.take(i as int)),
        decreases n - i,
    {
        proof {
            assert(entries@.take(i as int + 1).drop_last() =~= entries@.take(i as int));
            assert(entries@.take(i as int + 1).last() == entries@[i as int]);
        }
        let ghost prev = out@;
        match parse_champion(&entries[i].1) {
            Some(c) => {
                let ghost cm = c@;
                out.push(c);
                proof {
                    assert(champion_views(out@) =~= champion_views(prev).push(cm));
                    assert(champion_views(out@) =~= spec_champion_list(entries@.take(i as int + 1)));
                }
            },
            None => {
                proof {
                    assert(champion_views(out@) =~= spec_champion_list(entries@.take(i as int + 1)));
                }
            },
        }
        i += 1;
    }
    proof {
        assert(entries@.take(n as int) =~= entries@);
    }
    out
}

fn clone_string_vec(v: &Vec<String>) -> (r: Vec<String>)
    ensures
        r.deep_view() == v.deep_view(),
{
    let mut out: Vec<String> = Vec::new();
    let n = v.len();
    let mut i: usize = 0;
    while i < n
        invariant
            i <= n,
            n == v@.len(),
            out@.len() == i,
            forall|j: int| 0 <= j < i ==> out@[j]@ == v@[j]@,
        decreases n - i,
    {
        out.push(v[i].clone());
        i += 1;
    }
    proof {
        assert(out.deep_view() =~= v.deep_view());
    }
    out
}

fn clone_champion(c: &Champion) -> (r: Champion)
    ensures
        r@ == c@,
{
    let r = Champion {
        id: c.id.clone(),
        key: c.key,
        name: c.name.clone(),
        title: c.title.clone(),
        tags: clone_string_vec(&c.tags),
    };
    proof {
        assert(r@ =~= c@);
    }
    r
}

/// The first champion of the catalog carrying the given numeric key.
pub open spec fn spec_find_champion(cs: Seq<ChampionModel>, id: i64) -> Option<ChampionModel>
    decreases cs.len(),
{
    if cs.len() == 0 {
        None
    } else if cs[0].key == id {
        Some(cs[0])
    } else {
        spec_find_champion(cs.drop_first(), id)
    }
}

/// The in-memory champion cache the lookups run on.
pub struct ChampionCache {
    data: Option<ChampionData>,
}

impl ChampionCache {
    /// The catalog the cache holds, if one was stored.
    pub closed spec fn spec_data(&self) -> Option<ChampionData> {
        self.data
    }

    /// An empty cache.
    pub fn new() -> (c: Self)
        ensures
            c.spec_data() is None,
    {
        ChampionCache { data: None }
    }

    /// Store a catalog, replacing whatever was held.
    pub fn set_data(&mut self, data: ChampionData)
        ensures
            final(self).spec_data() == Some(data),
    {
        self.data = Some(data);
    }

    /// The stored catalog's version.
    pub fn get_version(&self) -> (r: Option<String>)
        ensures
            match (r, self.spec_data()) {
                (Some(v), Some(d)) => v@ == d.version@,
                (None, None) => true,
                _ => false,
            },
    {
        match &self.data {
            Some(d) => Some(d.version.clone()),
            None => None,
        }
    }

    /// All stored champions, in catalog order.
    pub fn get_all_champions(&self) -> (r: Vec<Champion>)
        ensures
            champion_views(r@) == (match self.spec_data() {
                Some(d) => champion_views(d.champions@),
                None => Seq::<ChampionModel>::empty(),
            }),
    {
        let mut out: Vec<Champion> = Vec::new();
        match &self.data {
            Some(d) => {
                let n = d.champions.len();
                let mut i: usize = 0;
                while i < n
                    invariant
                        i <= n,
                        n == d.champions@.len(),
                        self.spec_data() == Some(*d),
                        out@.len() == i,
                        forall|j: int| 0 <= j < i ==> out@[j]@ == d.champions@[j]@,
                    decreases n - i,
                {
                    out.push(clone_champion(&d.champions[i]));
                    i += 1;
                }
                proof {
                    assert(champion_views(out@) =~= champion_views(d.champions@));
                }
                out
            },
            None => {
                proof {
                    assert(champion_views(out@) =~= Seq::<ChampionModel>::empty());
                }
                out
            },
        }
    }

    /// The first stored champion with the given numeric key.
    pub fn get_champion_by_id(&self, id: i64) -> (r: Option<Champion>)
        ensures
            match (r, self.spec_data()) {
                (Some(c), Some(d)) => spec_find_champion(champion_views(d.champions@), id)
                    == Some(c@),
                (None, Some(d)) => spec_find_champion(champion_views(d.champions@), id) is None,
                (None, None) => true,
                (Some(_), None) => false,
            },
    {
        match &self.data {
            Some(d) => {
                let ghost cs = champion_views(d.champions@);
                let n = d.champions.len();
                let mut i: usize = 0;
                proof {
                    assert(cs.skip(0) =~= cs);
                }
                while i < n
                    invariant
                        i <= n,
                        n == d.champions@.len(),
                        cs == champion_views(d.champions@),
                        self.spec_data() == Some(*d),
                        spec_find_champion(cs, id) == spec_find_champion(cs.skip(i as int), id),
                    decreases n - i,
                {
                    proof {
                        assert(cs.skip(i as int).drop_first() =~= cs.skip(i as int + 1));
                        assert(cs.skip(i as int)[0] == cs[i as int]);
                    }
                    if d.champions[i].key == id {
                        let c = clone_champion(&d.champions[i]);
                        proof {
                            assert(spec_find_champion(cs.skip(i as int), id) == Some(
                                cs[i as int],
                            ));
                        }
                        return Some(c);
                    }
                    i += 1;
                }
                proof {
                    assert(cs.skip(n as int) =~= Seq::<ChampionModel>::empty());
                }
                None
            },
            None => None,
        }
    }
}

} // verus!
