//! Configuration from a key-value environment file.
//!
//! The file holds `KEY=VALUE` lines; `#` starts a comment line, keys and
//! values are trimmed and may be wrapped in double quotes, and when a key is
//! defined twice the later line wins.  The pipeline needs two entries: the
//! feed credential and the market area code.

use vstd::prelude::*;

use crate::text::{find_from, spec_find, spec_strip_quotes, spec_trim, str_eq, strip_quotes_str, trim_str};

verus! {

/// What the price feed needs from the operator: a credential and an area.
#[derive(Debug)]
pub struct Config {
    pub api_key: String,
    pub area: String,
}

/// Why a configuration was rejected.
#[derive(Clone, Copy, Debug, PartialEq, Eq, Structural)]
pub enum ConfigError {
    /// No line defines the feed credential.
    MissingApiKey,
    /// No line defines the market area.
    MissingArea,
}

/// The key/value pair one file line defines: a non-comment line with exactly
/// one `=`, both sides trimmed and then stripped of double quotes.
pub open spec fn spec_env_pair(line: Seq<char>) -> Option<(Seq<char>, Seq<char>)> {
    let i = spec_find(line, '=', 0);
    let j = spec_find(line, '=', i + 1);
    if line.len() > 0 && line[0] != '#' && i < line.len() && j == line.len() {
        Some(
            (
                spec_strip_quotes(spec_trim(line.subrange(0, i))),
                spec_strip_quotes(spec_trim(line.subrange(i + 1, line.len() as int))),
            ),
        )
    } else {
        None
    }
}

pub open spec fn env_pair_fn() -> spec_fn(String) -> Option<(Seq<char>, Seq<char>)> {
    |l: String| spec_env_pair(l@)
}

/// The text of a list of owned pairs.
pub open spec fn pairs_view(s: Seq<(String, String)>) -> Seq<(Seq<char>, Seq<char>)> {
    s.map_values(|p: (String, String)| (p.0@, p.1@))
}

/// The value bound to `key` by a pair list, the last binding winning.
pub open spec fn spec_last_value(pairs: Seq<(Seq<char>, Seq<char>)>, key: Seq<char>) -> Option<
    Seq<char>,
>
    decreases pairs.len(),
{
    if pairs.len() == 0 {
        None
    } else if pairs.last().0 == key {
        Some(pairs.last().1)
    } else {
        spec_last_value(pairs.drop_last(), key)
    }
}

/// The value bound to `key` by an environment file, given as its lines.
pub open spec fn spec_env_value(lines: Seq<String>, key: Seq<char>) -> Option<Seq<char>> {
    spec_last_value(lines.filter_map(env_pair_fn()), key)
}

/// Reads the key/value pairs an environment file defines, in file order:
/// every non-comment line with exactly one `=`, both sides trimmed and
/// stripped of double quotes.
pub fn read_env_file(lines: &Vec<String>) -> (r: Vec<(String, String)>)
    ensures
        pairs_view(r@) == lines@.filter_map(env_pair_fn()),
{
    let ghost f = env_pair_fn();
    let mut pairs: Vec<(String, String)> = Vec::new();
    let mut i: usize = 0;
    while i < lines.len()
        invariant
            0 <= i <= lines@.len(),
            f == env_pair_fn(),
            pairs_view(pairs@) == lines@.take(i as int).filter_map(f),
        decreases lines@.len() - i,
    {
        let s = lines[i].as_str();
        let n = s.unicode_len();
        let mut live = n > 0 && s.get_char(0) != '#';
        let e1 = find_from(s, '=', 0);
        if live {
            live = e1 < n && find_from(s, '=', e1 + 1) == n;
        }
        proof {
            lines@.lemma_filter_map_take_succ(f, i as int);
            assert(live == (f(lines@[i as int]) is Some));
        }
        if live {
            let key = String::from_str(strip_quotes_str(trim_str(s.substring_char(0, e1))));
            let val = String::from_str(strip_quotes_str(trim_str(s.substring_char(e1 + 1, n))));
            let ghost pairs0 = pairs@;
            pairs.push((key, val));
            proof {
                assert(pairs_view(pairs@) =~= pairs_view(pairs0).push((key@, val@)));
                assert(f(lines@[i as int]) == Some((key@, val@)));
                assert(pairs_view(pairs@) =~= lines@.take((i + 1) as int).filter_map(f));
            }
        } else {
            proof {
                assert(pairs_view(pairs@) =~= lines@.take((i + 1) as int).filter_map(f));
            }
        }
        i = i + 1;
    }
    proof {
        assert(lines@.take(lines@.len() as int) =~= lines@);
    }
    pairs
}

/// The value bound to `key` by the pairs, the last binding winning.
fn env_get(pairs: &Vec<(String, String)>, key: &str) -> (r: Option<String>)
    ensures
        match r {
            Some(v) => spec_last_value(pairs_view(pairs@), key@) == Some(v@),
            None => spec_last_value(pairs_view(pairs@), key@) is None,
        },
{
    let mut i: usize = pairs.len();
    proof {
        assert(pairs_view(pairs@).take(pairs@.len() as int) =~= pairs_view(pairs@));
    }
    while i > 0
        invariant
            0 <= i <= pairs@.len(),
            spec_last_value(pairs_view(pairs@), key@) == spec_last_value(
                pairs_view(pairs@).take(i as int),
                key@,
            ),
        decreases i,
    {
        i = i - 1;
        let hit = str_eq(pairs[i].0.as_str(), key);
        proof {
            let pv = pairs_view(pairs@);
            assert(pv.take((i + 1) as int).drop_last() =~= pv.take(i as int));
            assert(pv.take((i + 1) as int).last() == (pairs@[i as int].0@, pairs@[i as int].1@));
        }
        if hit {
            return Some(pairs[i].1.clone());
        }
    }
    proof {
        assert(pairs_view(pairs@).take(0) =~= Seq::<(Seq<char>, Seq<char>)>::empty());
    }
    None
}

impl Config {
    /// Builds the configuration from the lines of an environment file.  The
    /// credential entry `API_KEY` and the area entry `AREA` must both be
    /// present; when a key is defined twice the later line wins.
    pub fn from_file(lines: &Vec<String>) -> (r: Result<Config, ConfigError>)
        ensures
            match r {
                Ok(c) => spec_env_value(lines@, "API_KEY"@) == Some(c.api_key@) && spec_env_value(
                    lines@,
                    "AREA"@,
                ) == Some(c.area@),
                Err(e) => match e {
                    ConfigError::MissingApiKey => spec_env_value(lines@, "API_KEY"@) is None,
                    ConfigError::MissingArea => spec_env_value(lines@, "API_KEY"@) is Some
                        && spec_env_value(lines@, "AREA"@) is None,
                },
            },
    {
        let pairs = read_env_file(lines);
        let api_key = match env_get(&pairs, "API_KEY") {
            Some(v) => v,
            None => {
                return Err(ConfigError::MissingApiKey);
            },
        };
        let area = match env_get(&pairs, "AREA") {
            Some(v) => v,
            None => {
                return Err(ConfigError::MissingArea);
            },
        };
        Ok(Config { api_key, area })
    }
}

} // verus!
