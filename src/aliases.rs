//! The alias map: user-chosen display labels by owner id, and the overlay
//! that applies them to scanned entries.
use vstd::prelude::*;
use crate::entries::{ProfileData, SettingsEntry};
use crate::text::{same_text, trim, trimmed};

verus! {

/// No two pairs share a key.
pub open spec fn keys_unique(s: Seq<(String, String)>) -> bool {
    forall|i: int, j: int| 0 <= i < j < s.len() ==> s[i].0@ != s[j].0@
}

/// The map that a sequence of pairs spells out.
pub open spec fn pairs_map(s: Seq<(String, String)>) -> Map<Seq<char>, Seq<char>>
    decreases s.len(),
{
    if s.len() == 0 {
        Map::empty()
    } else {
        pairs_map(s.drop_last()).insert(s.last().0@, s.last().1@)
    }
}

/// With unique keys, a key is in the map exactly when some pair has it, and
/// then maps to that pair's value.
proof fn lemma_pairs_map(s: Seq<(String, String)>, q: Seq<char>)
    requires
        keys_unique(s),
    ensures
        pairs_map(s).contains_key(q) <==> exists|i: int| 0 <= i < s.len() && #[trigger] s[i].0@ == q,
        forall|i: int| 0 <= i < s.len() && #[trigger] s[i].0@ == q ==> pairs_map(s)[q] == s[i].1@,
    decreases s.len(),
{
    if s.len() > 0 {
        let t = s.drop_last();
        assert(keys_unique(t));
        lemma_pairs_map(t, q);
        if pairs_map(s).contains_key(q) && q != s.last().0@ {
            let i = choose|i: int| 0 <= i < t.len() && #[trigger] t[i].0@ == q;
            assert(s[i].0@ == q);
        }
        if exists|i: int| 0 <= i < s.len() && #[trigger] s[i].0@ == q {
            let i = choose|i: int| 0 <= i < s.len() && #[trigger] s[i].0@ == q;
            if i < s.len() - 1 {
                assert(t[i].0@ == q);
            }
        }
    }
}

/// Labels by owner id.
pub struct AliasMap {
    entries: Vec<(String, String)>,
}

impl View for AliasMap {
    type V = Map<Seq<char>, Seq<char>>;

    closed spec fn view(&self) -> Map<Seq<char>, Seq<char>> {
        pairs_map(self.entries@)
    }
}

impl AliasMap {
    /// The map's internal invariant: one pair per owner id.
    pub closed spec fn wf(&self) -> bool {
        keys_unique(self.entries@)
    }

    /// An empty map.
    pub fn new() -> (r: AliasMap)
        ensures
            r.wf(),
            r@ == Map::<Seq<char>, Seq<char>>::empty(),
    {
        AliasMap { entries: Vec::new() }
    }

    fn position(&self, id: &str) -> (r: Option<usize>)
        ensures
            match r {
                Some(i) => i < self.entries@.len() && self.entries@[i as int].0@ == id@,
                None => forall|i: int| 0 <= i < self.entries@.len() ==> #[trigger] self.entries@[i].0@ != id@,
            },
    {
        let mut i: usize = 0;
        while i < self.entries.len()
            invariant
                i <= self.entries@.len(),
                forall|j: int| 0 <= j < i ==> #[trigger] self.entries@[j].0@ != id@,
            decreases self.entries@.len() - i,
        {
            if same_text(self.entries[i].0.as_str(), id) {
                return Some(i);
            }
            i = i + 1;
        }
        None
    }

    /// The label of an owner id.
    pub fn get(&self, id: &str) -> (r: Option<String>)
        requires
            self.wf(),
        ensures
            match r {
                Some(label) => self@.contains_key(id@) && self@[id@] == label@,
                None => !self@.contains_key(id@),
            },
    {
        proof {
            lemma_pairs_map(self.entries@, id@);
        }
        match self.position(id) {
            Some(i) => Some(self.entries[i].1.clone()),
            None => None,
        }
    }

    /// Forgets the label of an owner id.
    pub fn remove(&mut self, id: &str)
        requires
            old(self).wf(),
        ensures
            final(self).wf(),
            final(self)@ == old(self)@.remove(id@),
    {
        proof {
            lemma_pairs_map(self.entries@, id@);
        }
        match self.position(id) {
            Some(i) => {
                let ghost before = self.entries@;
                self.entries.remove(i);
                proof {
                    let after = self.entries@;
                    assert(after == before.remove(i as int));
                    assert(keys_unique(after)) by {
                        assert forall|a: int, b: int| 0 <= a < b < after.len() implies after[a].0@
                            != after[b].0@ by {
                            let aa = if a < i { a } else { a + 1 };
                            let bb = if b < i { b } else { b + 1 };
                            assert(after[a] == before[aa]);
                            assert(after[b] == before[bb]);
                        }
                    }
                    let m1 = pairs_map(after);
                    let m2 = pairs_map(before).remove(id@);
                    assert forall|q: Seq<char>| #[trigger] m1.dom().contains(q) == m2.dom().contains(q)
                        && (m1.dom().contains(q) ==> m1[q] == m2[q]) by {
                        lemma_pairs_map(after, q);
                        lemma_pairs_map(before, q);
                        if exists|j: int| 0 <= j < after.len() && #[trigger] after[j].0@ == q {
                            let j = choose|j: int| 0 <= j < after.len() && #[trigger] after[j].0@ == q;
                            let jj = if j < i { j } else { j + 1 };
                            assert(after[j] == before[jj]);
                        }
                        if q != id@ && exists|j: int| 0 <= j < before.len() && #[trigger] before[j].0@ == q {
                            let j = choose|j: int| 0 <= j < before.len() && #[trigger] before[j].0@ == q;
                            assert(j != i);
                            let jj = if j < i { j } else { j - 1 };
                            assert(after[jj] == before[j]);
                        }
                    }
                    assert(pairs_map(after) =~= pairs_map(before).remove(id@));
                }
            },
            None => {
                assert(pairs_map(self.entries@) =~= pairs_map(self.entries@).remove(id@));
            },
        }
    }

    /// Sets the label of an owner id, replacing any earlier one.
    pub fn insert(&mut self, id: String, label: String)
        requires
            old(self).wf(),
        ensures
            final(self).wf(),
            final(self)@ == old(self)@.insert(id@, label@),
    {
        self.remove(id.as_str());
        let ghost before = self.entries@;
        proof {
            lemma_pairs_map(before, id@);
        }
        self.entries.push((id, label));
        assert(self.entries@.drop_last() =~= before);
    }
}

/// `e` with the alias of its owner id applied, where `aliases` has a
/// non-empty one: the alias becomes its display name and is recorded; nothing
/// else changes. An empty alias is no alias.
pub open spec fn aliased(e: SettingsEntry, aliases: Map<Seq<char>, Seq<char>>, r: SettingsEntry) -> bool {
    if aliases.contains_key(e.id@) && aliases[e.id@].len() > 0 {
        &&& r.display_name@ == aliases[e.id@]
        &&& r.alias matches Some(a) && a@ == aliases[e.id@]
        &&& r == SettingsEntry { display_name: r.display_name, alias: r.alias, ..e }
    } else {
        r == e
    }
}

/// Applies the alias of its owner id to an entry.
pub fn apply_alias(e: SettingsEntry, aliases: &AliasMap) -> (r: SettingsEntry)
    requires
        aliases.wf(),
    ensures
        aliased(e, aliases@, r),
{
    match aliases.get(e.id.as_str()) {
        Some(label) => {
            if label.unicode_len() == 0 {
                return e;
            }
            let shown = label.clone();
            SettingsEntry { display_name: shown, alias: Some(label), ..e }
        },
        None => e,
    }
}

/// Applies aliases to every entry of a list, keeping its order.
pub fn apply_aliases(entries: Vec<SettingsEntry>, aliases: &AliasMap) -> (r: Vec<SettingsEntry>)
    requires
        aliases.wf(),
    ensures
        r@.len() == entries@.len(),
        forall|k: int| 0 <= k < r@.len() ==> aliased(entries@[k], aliases@, #[trigger] r@[k]),
{
    let ghost original = entries@;
    let n = entries.len();
    let mut rest = entries;
    let mut r: Vec<SettingsEntry> = Vec::new();
    let mut i: usize = 0;
    while rest.len() > 0
        invariant
            i + rest@.len() == original.len(),
            n == original.len(),
            i <= n,
            r@.len() == i,
            rest@ == original.subrange(i as int, original.len() as int),
            aliases.wf(),
            forall|k: int| 0 <= k < r@.len() ==> aliased(original[k], aliases@, #[trigger] r@[k]),
        decreases rest@.len(),
    {
        let e = rest.remove(0);
        assert(e == original[i as int]);
        r.push(apply_alias(e, aliases));
        assert(rest@ =~= original.subrange(i + 1, original.len() as int));
        i = i + 1;
    }
    r
}

/// Applies aliases to the account and character entries of a profile.
pub fn apply_profile_aliases(p: ProfileData, aliases: &AliasMap) -> (r: ProfileData)
    requires
        aliases.wf(),
    ensures
        r.name == p.name,
        r.path == p.path,
        r.accounts@.len() == p.accounts@.len(),
        r.characters@.len() == p.characters@.len(),
        forall|k: int| 0 <= k < r.accounts@.len() ==> aliased(p.accounts@[k], aliases@, #[trigger] r.accounts@[k]),
        forall|k: int| 0 <= k < r.characters@.len() ==> aliased(p.characters@[k], aliases@, #[trigger] r.characters@[k]),
{
    let ProfileData { name, path, accounts, characters } = p;
    ProfileData {
        name,
        path,
        accounts: apply_aliases(accounts, aliases),
        characters: apply_aliases(characters, aliases),
    }
}

/// Records an already trimmed alias input: an empty one clears the owner's
/// alias, any other becomes it.
fn record_alias(aliases: &mut AliasMap, account_id: String, trimmed: &str)
    requires
        old(aliases).wf(),
    ensures
        final(aliases).wf(),
        trimmed@.len() == 0 ==> final(aliases)@ == old(aliases)@.remove(account_id@),
        trimmed@.len() > 0 ==> final(aliases)@ == old(aliases)@.insert(account_id@, trimmed@),
{
    if trimmed.unicode_len() == 0 {
        aliases.remove(account_id.as_str());
    } else {
        aliases.insert(account_id, String::from_str(trimmed));
    }
}

/// Sets or clears the alias of an owner: an input that is absent, empty or
/// only whitespace clears it; any other is stored trimmed.
pub fn set_alias(aliases: &mut AliasMap, account_id: String, alias: Option<String>)
    requires
        old(aliases).wf(),
    ensures
        final(aliases).wf(),
        match alias {
            Some(a) => if trimmed(a@).len() > 0 {
                final(aliases)@ == old(aliases)@.insert(account_id@, trimmed(a@))
            } else {
                final(aliases)@ == old(aliases)@.remove(account_id@)
            },
            None => final(aliases)@ == old(aliases)@.remove(account_id@),
        },
{
    match alias {
        Some(a) => record_alias(aliases, account_id, trim(a.as_str())),
        None => aliases.remove(account_id.as_str()),
    }
}

/// The pairs of a sequence, as text.
pub open spec fn pair_views(s: Seq<(String, String)>) -> Seq<(Seq<char>, Seq<char>)> {
    s.map_values(|p: (String, String)| (p.0@, p.1@))
}

/// The map that a sequence of text pairs spells out.
pub open spec fn views_map(s: Seq<(Seq<char>, Seq<char>)>) -> Map<Seq<char>, Seq<char>>
    decreases s.len(),
{
    if s.len() == 0 {
        Map::empty()
    } else {
        views_map(s.drop_last()).insert(s.last().0, s.last().1)
    }
}

proof fn lemma_pairs_map_views(s: Seq<(String, String)>)
    ensures
        pairs_map(s) == views_map(pair_views(s)),
    decreases s.len(),
{
    if s.len() > 0 {
        lemma_pairs_map_views(s.drop_last());
        assert(pair_views(s).drop_last() =~= pair_views(s.drop_last()));
    }
}

/// What `serde_json::from_str` reads from a text as a JSON object of string
/// values: its members in order of key, or `None` when the text is not such
/// an object.
pub uninterp spec fn aliases_in_json(text: Seq<char>) -> Option<Seq<(Seq<char>, Seq<char>)>>;

/// What `serde_json::to_string_pretty` writes for the JSON object with these
/// members.
pub uninterp spec fn json_of_aliases(pairs: Seq<(Seq<char>, Seq<char>)>) -> Seq<char>;

/// Relies on `serde_json::from_str` into a `BTreeMap<String, String>`: the
/// object's members, one per key.
#[verifier::external_body]
fn parse_alias_json(text: &str) -> (r: Option<Vec<(String, String)>>)
    ensures
        match r {
            Some(v) => aliases_in_json(text@) == Some(pair_views(v@)) && keys_unique(v@),
            None => aliases_in_json(text@) is None,
        },
{
    serde_json::from_str::<std::collections::BTreeMap<String, String>>(text).ok().map(
        |m| m.into_iter().collect(),
    )
}

/// Relies on `serde_json::to_string_pretty` of a `serde_json::Map` of
/// string values: the object text of those members. It fails only where a
/// `Serialize` impl fails or a key is not a string, neither of which can
/// happen here.
#[verifier::external_body]
fn write_alias_json(pairs: &Vec<(String, String)>) -> (r: Option<String>)
    ensures
        r is Some,
        r matches Some(t) ==> t@ == json_of_aliases(pair_views(pairs@)),
{
    let m: serde_json::Map<String, serde_json::Value> = pairs.iter().map(
        |p| (p.0.clone(), serde_json::Value::String(p.1.clone())),
    ).collect();
    serde_json::to_string_pretty(&m).ok()
}

impl AliasMap {
    /// The pairs of the map, as text, in the order they are stored.
    pub closed spec fn pairs(&self) -> Seq<(Seq<char>, Seq<char>)> {
        pair_views(self.entries@)
    }

    /// The map stored in a JSON text; a text that is not a JSON object of
    /// strings gives an empty map.
    pub fn from_json(text: &str) -> (r: AliasMap)
        ensures
            r.wf(),
            match aliases_in_json(text@) {
                Some(members) => r@ == views_map(members),
                None => r@ == Map::<Seq<char>, Seq<char>>::empty(),
            },
    {
        match parse_alias_json(text) {
            Some(v) => {
                proof {
                    lemma_pairs_map_views(v@);
                }
                AliasMap { entries: v }
            },
            None => AliasMap::new(),
        }
    }

    /// The JSON text of the map.
    pub fn to_json(&self) -> (r: String)
        ensures
            r@ == json_of_aliases(self.pairs()),
    {
        match write_alias_json(&self.entries) {
            Some(t) => t,
            None => String::new(),
        }
    }
}

} // verus!
