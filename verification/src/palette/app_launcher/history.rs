//! When each application was last launched.

use vstd::prelude::*;

use crate::paths::{joined, path_join};
use crate::text;
use crate::textmap::{distinct_keys, map_of, TextMap};

verus! {

/// The times of the last launches, in seconds since the epoch, by the identifier
/// of the entry.
pub struct LaunchHistory {
    pub entries: TextMap<i64>,
    /// Where the history is kept. Empty: nowhere.
    pub path: String,
}

/// What a JSON text says of launches: the map from names to numbers that it
/// stands for, or nothing where it does not stand for one.
pub uninterp spec fn launches_in(text: Seq<char>) -> Option<Map<Seq<char>, i64>>;

/// The JSON text of a map from names to numbers, over several lines.
pub uninterp spec fn launches_text(launches: Map<Seq<char>, i64>) -> Seq<char>;

/// `serde_json::from_str` reads a text as a map from strings to numbers. The
/// result depends on the text alone: the entries of the map, no key twice, or
/// nothing where the text is no such map.
#[verifier::external_body]
fn read_launches(text: &str) -> (r: Option<Vec<(String, i64)>>)
    ensures
        r is Some <==> launches_in(text@) is Some,
        r is Some ==> distinct_keys(r->0@) && launches_in(text@) == Some(map_of(r->0@)),
{
    serde_json::from_str::<std::collections::BTreeMap<String, i64>>(text).ok().map(
        |m| m.into_iter().collect(),
    )
}

/// `serde_json::to_string_pretty` writes a map from strings to numbers, which
/// always succeeds. The text depends on the map alone, and reading it with
/// `serde_json::from_str` gives the map back.
#[verifier::external_body]
fn write_launches(entries: &[(String, i64)]) -> (r: String)
    requires
        distinct_keys(entries@),
    ensures
        r@ == launches_text(map_of(entries@)),
        launches_in(r@) == Some(map_of(entries@)),
{
    let map: std::collections::BTreeMap<&str, i64> = entries.iter().map(
        |e| (e.0.as_str(), e.1),
    ).collect();
    serde_json::to_string_pretty(&map).unwrap_or_default()
}

/// The map that a saved history stands for; nothing saved, or nothing that can
/// be read, is an empty one.
pub open spec fn loaded(text: Option<Seq<char>>) -> Map<Seq<char>, i64> {
    match text {
        Some(t) => match launches_in(t) {
            Some(m) => m,
            None => Map::empty(),
        },
        None => Map::empty(),
    }
}

/// The seconds since a launch. A launch in the future counts as one just now.
pub open spec fn age(last: i64, now: i64) -> int {
    if now <= last {
        0
    } else {
        now - last
    }
}

/// The seconds since a launch.
pub fn age_seconds(last: i64, now: i64) -> (r: u64)
    ensures
        r == age(last, now),
{
    if now <= last {
        0
    } else {
        let wide: i128 = now as i128 - last as i128;
        wide as u64
    }
}

impl LaunchHistory {
    /// The history as it was saved: `text` is what the file at `path` holds, or
    /// nothing where it could not be read.
    pub fn load(path: String, text: Option<&str>) -> (r: Self)
        ensures
            r.path == path,
            r.entries@ == loaded(
                match text {
                    Some(t) => Some(t@),
                    None => None,
                },
            ),
    {
        let mut entries: TextMap<i64> = TextMap::new();
        if let Some(t) = text {
            if let Some(found) = read_launches(t) {
                let mut i: usize = 0;
                assert(map_of(found@.take(0)) =~= Map::empty());
                while i < found.len()
                    invariant
                        i <= found@.len(),
                        entries@ == map_of(found@.take(i as int)),
                    decreases found@.len() - i,
                {
                    assert(found@.take(i + 1).drop_last() =~= found@.take(i as int));
                    entries.insert(found[i].0.clone(), found[i].1);
                    i += 1;
                }
                assert(found@.take(i as int) =~= found@);
            }
        }
        LaunchHistory { entries, path }
    }

    /// An empty history that is kept nowhere.
    pub fn in_memory() -> (r: Self)
        ensures
            r.path@.len() == 0,
            r.entries@ == Map::<Seq<char>, i64>::empty(),
    {
        LaunchHistory { entries: TextMap::new(), path: String::new() }
    }

    /// Notes a launch at the time `now`.
    pub fn record(&mut self, entry_id: &str, now: i64)
        ensures
            final(self).path == old(self).path,
            final(self).entries@ == old(self).entries@.insert(entry_id@, now),
    {
        self.entries.insert(text::owned(entry_id), now);
    }

    /// Sets the time of a launch.
    pub fn set_launch_time(&mut self, entry_id: &str, unix_ts: i64)
        ensures
            final(self).path == old(self).path,
            final(self).entries@ == old(self).entries@.insert(entry_id@, unix_ts),
    {
        self.entries.insert(text::owned(entry_id), unix_ts);
    }

    /// The time of the last launch, or nothing where there was none.
    pub fn last_launch(&self, entry_id: &str) -> (r: Option<i64>)
        ensures
            r == (if self.entries@.dom().contains(entry_id@) {
                Some(self.entries@[entry_id@])
            } else {
                None
            }),
    {
        match self.entries.get(entry_id) {
            Some(t) => Some(*t),
            None => None,
        }
    }

    /// What is to be written where to keep the history: the path and the text.
    /// Nothing where the history is kept nowhere. Loading what was written gives
    /// the same history again.
    pub fn persist(&self) -> (r: Option<(String, String)>)
        ensures
            r is Some <==> self.path@.len() > 0,
            r matches Some((path, text)) ==> path == self.path && text@ == launches_text(
                self.entries@,
            ) && loaded(Some(text@)) == self.entries@,
    {
        if text::same(&self.path, "") {
            proof {
                reveal_strlit("");
            }
            return None;
        }
        proof {
            reveal_strlit("");
            if self.path@.len() == 0 {
                assert(self.path@ =~= ""@);
            }
        }
        Some((self.path.clone(), write_launches(self.entries.entries())))
    }
}

/// The file of the history below the state directory of the user.
pub open spec fn launches_path(xdg_state_home: Option<Seq<char>>, home: Option<Seq<char>>) -> Seq<
    char,
> {
    match (xdg_state_home, home) {
        (Some(state), _) => joined(state, "levshell/launches.json"@),
        (None, Some(h)) => joined(h, ".local/state/levshell/launches.json"@),
        (None, None) => "/tmp/levshell-launches.json"@,
    }
}

/// The file of the history.
pub fn default_launches_path(xdg_state_home: &Option<String>, home: &Option<String>) -> (r: String)
    ensures
        r@ == launches_path(xdg_state_home.deep_view(), home.deep_view()),
{
    match (xdg_state_home, home) {
        (Some(state), _) => path_join(state, "levshell/launches.json"),
        (None, Some(h)) => path_join(h, ".local/state/levshell/launches.json"),
        (None, None) => text::owned("/tmp/levshell-launches.json"),
    }
}

/// How long ago an application was started: the time between, and none where the start lies
/// ahead.
pub proof fn law_ages(last: i64, now: i64)
    ensures
        age(last, now) >= 0,
        last <= now ==> last + age(last, now) == now,
        now <= last ==> age(last, now) == 0,
{
}

/// What cannot be read tells of no start.
pub proof fn law_unread_histories_are_empty(text: Seq<char>)
    ensures
        loaded(None) == Map::<Seq<char>, i64>::empty(),
        launches_in(text) is None ==> loaded(Some(text)) == Map::<Seq<char>, i64>::empty(),
        launches_in(text) is Some ==> loaded(Some(text)) == launches_in(text)->0,
{
}

/// The starts are kept below the directory for state, else below the home directory, else
/// among the temporary files.
pub proof fn law_where_starts_are_kept(state: Seq<char>, home: Option<Seq<char>>)
    requires
        state.len() > 0,
        state.last() != '/',
    ensures
        launches_path(Some(state), home) == state + "/levshell/launches.json"@,
        launches_path(None, Some(state)) == state + "/.local/state/levshell/launches.json"@,
        launches_path(None, None) == "/tmp/levshell-launches.json"@,
{
    reveal_strlit("levshell/launches.json");
    reveal_strlit("/levshell/launches.json");
    reveal_strlit(".local/state/levshell/launches.json");
    reveal_strlit("/.local/state/levshell/launches.json");
    assert(launches_path(Some(state), home) =~= state + "/levshell/launches.json"@);
    assert(launches_path(None, Some(state)) =~= state + "/.local/state/levshell/launches.json"@);
}

} // verus!
