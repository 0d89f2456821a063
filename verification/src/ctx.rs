//! The context value the host attaches to each command it runs, so that the
//! command's result can be routed back: a small tagged value written to
//! key/value string pairs and parsed back from them.

use vstd::prelude::*;
use vstd::string::StringExecFns;
use crate::text::str_eq;

verus! {

/// Which outstanding host command a result belongs to.
#[derive(Debug, Clone, PartialEq, Eq)]
pub enum Ctx {
    TimeFetch,
    IcsFetch,
    IcsFetchFile { path: String },
    IcsReadFile { path: String },
}

/// The key/value pairs seen as character sequences.
pub open spec fn pairs_view(m: Seq<(String, String)>) -> Seq<(Seq<char>, Seq<char>)> {
    m.map_values(|p: (String, String)| (p.0@, p.1@))
}

/// The pair list a context value serializes to: its tag under "source", and
/// for the file-carrying variants the path under "path", keys in sorted
/// order.
pub open spec fn spec_ctx_pairs(c: Ctx) -> Seq<(Seq<char>, Seq<char>)> {
    match c {
        Ctx::TimeFetch => seq![("source"@, "time_fetch"@)],
        Ctx::IcsFetch => seq![("source"@, "ics_fetch"@)],
        Ctx::IcsFetchFile { path } => seq![("path"@, path@), ("source"@, "ics_fetch_file"@)],
        Ctx::IcsReadFile { path } => seq![("path"@, path@), ("source"@, "ics_read_file"@)],
    }
}

/// The value under the first pair whose key matches, if any.
pub open spec fn spec_lookup(m: Seq<(Seq<char>, Seq<char>)>, key: Seq<char>) -> Option<Seq<char>>
    decreases m.len(),
{
    if m.len() == 0 {
        None
    } else if m[0].0 == key {
        Some(m[0].1)
    } else {
        spec_lookup(m.drop_first(), key)
    }
}

/// `c` is the context value the pair list denotes.
pub open spec fn from_map_ok(m: Seq<(Seq<char>, Seq<char>)>, c: Ctx) -> bool {
    match spec_lookup(m, "source"@) {
        None => false,
        Some(tag) => if tag == "time_fetch"@ {
            c == Ctx::TimeFetch
        } else if tag == "ics_fetch"@ {
            c == Ctx::IcsFetch
        } else if tag == "ics_fetch_file"@ {
            c matches Ctx::IcsFetchFile { path } && Some(path@) == spec_lookup(m, "path"@)
        } else if tag == "ics_read_file"@ {
            c matches Ctx::IcsReadFile { path } && Some(path@) == spec_lookup(m, "path"@)
        } else {
            false
        },
    }
}

/// The pair list denotes no context value: the "source" key is missing, its
/// value is unknown, or a file-carrying variant misses its "path".
pub open spec fn from_map_fails(m: Seq<(Seq<char>, Seq<char>)>) -> bool {
    match spec_lookup(m, "source"@) {
        None => true,
        Some(tag) => if tag == "time_fetch"@ || tag == "ics_fetch"@ {
            false
        } else if tag == "ics_fetch_file"@ || tag == "ics_read_file"@ {
            spec_lookup(m, "path"@) is None
        } else {
            true
        },
    }
}

/// Skipping pairs whose key does not match leaves the lookup unchanged.
proof fn lemma_lookup_skip(m: Seq<(Seq<char>, Seq<char>)>, key: Seq<char>, i: int)
    requires
        0 <= i <= m.len(),
        forall|j: int| 0 <= j < i ==> (#[trigger] m[j]).0 != key,
    ensures
        spec_lookup(m, key) == spec_lookup(m.skip(i), key),
    decreases i,
{
    assert(m.skip(0) =~= m);
    if i > 0 {
        lemma_lookup_skip(m, key, i - 1);
        let tail: Seq<(Seq<char>, Seq<char>)> = m.skip(i - 1);
        assert(tail.len() == m.len() - i + 1 >= 1);
        assert(tail[0] == m[i - 1]);
        assert(tail[0].0 != key);
        assert(spec_lookup(tail, key) == spec_lookup(tail.drop_first(), key));
        assert(tail.drop_first() =~= m.skip(i));
    }
}

fn lookup(m: &Vec<(String, String)>, key: &str) -> (r: Option<String>)
    ensures
        r matches Some(v) ==> spec_lookup(pairs_view(m@), key@) == Some(v@),
        r is None ==> spec_lookup(pairs_view(m@), key@) is None,
{
    let mut i: usize = 0;
    while i < m.len()
        invariant
            0 <= i <= m@.len(),
            forall|j: int| 0 <= j < i ==> (#[trigger] pairs_view(m@)[j]).0 != key@,
        decreases m@.len() - i,
    {
        if str_eq(m[i].0.as_str(), key) {
            let v: String = m[i].1.clone();
            proof {
                lemma_lookup_skip(pairs_view(m@), key@, i as int);
                assert(pairs_view(m@).skip(i as int)[0] == pairs_view(m@)[i as int]);
            }
            return Some(v);
        }
        i = i + 1;
    }
    proof {
        lemma_lookup_skip(pairs_view(m@), key@, m@.len() as int);
        assert(pairs_view(m@).skip(m@.len() as int).len() == 0);
    }
    None
}

impl Ctx {
    /// Serializes the context to key/value pairs, the tag under "source" and
    /// a path, if one is carried, under "path", keys in sorted order.
    pub fn into_map(self) -> (r: Vec<(String, String)>)
        ensures
            pairs_view(r@) == spec_ctx_pairs(self),
    {
        let mut v: Vec<(String, String)> = Vec::new();
        match self {
            Ctx::TimeFetch => {
                v.push((String::from_str("source"), String::from_str("time_fetch")));
            },
            Ctx::IcsFetch => {
                v.push((String::from_str("source"), String::from_str("ics_fetch")));
            },
            Ctx::IcsFetchFile { path } => {
                v.push((String::from_str("path"), path));
                v.push((String::from_str("source"), String::from_str("ics_fetch_file")));
            },
            Ctx::IcsReadFile { path } => {
                v.push((String::from_str("path"), path));
                v.push((String::from_str("source"), String::from_str("ics_read_file")));
            },
        }
        proof {
            assert(pairs_view(v@) =~= spec_ctx_pairs(self));
        }
        v
    }

    /// Parses a context value back out of key/value pairs, reporting a
    /// missing "source" key, an unknown "source" value, or a missing "path"
    /// field as errors.
    pub fn from_map(map: &Vec<(String, String)>) -> (r: Result<Ctx, String>)
        ensures
            r matches Ok(c) ==> from_map_ok(pairs_view(map@), c),
            r is Err <==> from_map_fails(pairs_view(map@)),
    {
        let src: String = match lookup(map, "source") {
            Some(v) => v,
            None => {
                return Err(String::from_str("missing 'source' key"));
            },
        };
        if str_eq(src.as_str(), "time_fetch") {
            return Ok(Ctx::TimeFetch);
        }
        if str_eq(src.as_str(), "ics_fetch") {
            return Ok(Ctx::IcsFetch);
        }
        if str_eq(src.as_str(), "ics_fetch_file") {
            return match lookup(map, "path") {
                Some(p) => Ok(Ctx::IcsFetchFile { path: p }),
                None => Err(String::from_str("missing 'path' field")),
            };
        }
        if str_eq(src.as_str(), "ics_read_file") {
            return match lookup(map, "path") {
                Some(p) => Ok(Ctx::IcsReadFile { path: p }),
                None => Err(String::from_str("missing 'path' field")),
            };
        }
        let mut msg: String = String::new();
        msg.append("unknown 'source' value '");
        msg.append(src.as_str());
        msg.append("'");
        Err(msg)
    }
}

} // verus!
