//! Filenames of configuration files (`core_<kind>_<id>.dat`) and of their
//! backups (`<label>_<kind>_<id>_<timestamp>.bak`).
use vstd::prelude::*;
use crate::text::{
    decimal, decimal_string, digits_only, ends_with, same_text, is_digit, is_digit_string, lemma_decimal,
    lemma_parse_decimal, parse_u64, parsed_u64, starts_with, has_prefix, has_suffix,
};

verus! {

/// Whose configuration a file holds.
#[derive(Clone, Copy, Debug, PartialEq, Eq, Hash, Structural)]
pub enum SettingsKind {
    /// An account (`user` in filenames).
    User,
    /// A character (`char` in filenames).
    Char,
}

pub open spec fn kind_token(k: SettingsKind) -> Seq<char> {
    match k {
        SettingsKind::User => "user"@,
        SettingsKind::Char => "char"@,
    }
}

pub open spec fn kind_of_token(t: Seq<char>) -> Option<SettingsKind> {
    if t == "user"@ {
        Some(SettingsKind::User)
    } else if t == "char"@ {
        Some(SettingsKind::Char)
    } else {
        None
    }
}

impl SettingsKind {
    /// The token that stands for this kind in filenames.
    pub fn token(&self) -> (r: &'static str)
        ensures
            r@ == kind_token(*self),
    {
        match self {
            SettingsKind::User => "user",
            SettingsKind::Char => "char",
        }
    }

    /// The kind a filename token stands for.
    pub fn from_token(t: &str) -> (r: Option<SettingsKind>)
        ensures
            r == kind_of_token(t@),
    {
        if same_text(t, "user") {
            Some(SettingsKind::User)
        } else if same_text(t, "char") {
            Some(SettingsKind::Char)
        } else {
            None
        }
    }
}

/// The name of the configuration file of an owner.
pub open spec fn config_name(k: SettingsKind, id: Seq<char>) -> Seq<char> {
    "core_"@ + kind_token(k) + "_"@ + id + ".dat"@
}

/// The owner a configuration filename belongs to: `core_`, a kind token, `_`,
/// a non-empty run of digits and `.dat`, and nothing else.
pub open spec fn decoded_config(f: Seq<char>) -> Option<(SettingsKind, Seq<char>)> {
    if f.len() >= 15 && has_prefix(f, "core_"@) && has_suffix(f, ".dat"@) && f[9] == '_' {
        let id = f.subrange(10, f.len() - 4);
        match kind_of_token(f.subrange(5, 9)) {
            Some(k) => if is_digit_string(id) {
                Some((k, id))
            } else {
                None
            },
            None => None,
        }
    } else {
        None
    }
}

proof fn lemma_token_texts()
    ensures
        "core_"@ == seq!['c', 'o', 'r', 'e', '_'],
        ".dat"@ == seq!['.', 'd', 'a', 't'],
        ".bak"@ == seq!['.', 'b', 'a', 'k'],
        "user"@ == seq!['u', 's', 'e', 'r'],
        "char"@ == seq!['c', 'h', 'a', 'r'],
        "_"@ == seq!['_'],
{
    reveal_strlit("core_");
    reveal_strlit(".dat");
    reveal_strlit(".bak");
    reveal_strlit("user");
    reveal_strlit("char");
    reveal_strlit("_");
    assert("core_"@ =~= seq!['c', 'o', 'r', 'e', '_']);
    assert(".dat"@ =~= seq!['.', 'd', 'a', 't']);
    assert(".bak"@ =~= seq!['.', 'b', 'a', 'k']);
    assert("user"@ =~= seq!['u', 's', 'e', 'r']);
    assert("char"@ =~= seq!['c', 'h', 'a', 'r']);
    assert("_"@ =~= seq!['_']);
}

/// A configuration filename that decodes is the encoding of what it decodes
/// to, and the encoding of every owner with a numeric id decodes back to
/// that owner: the codec is a bijection between those filenames and owners.
pub proof fn lemma_config_round_trip(f: Seq<char>, k: SettingsKind, id: Seq<char>)
    ensures
        decoded_config(f) == Some((k, id)) ==> is_digit_string(id) && config_name(k, id) == f,
        is_digit_string(id) ==> decoded_config(config_name(k, id)) == Some((k, id)),
{
    lemma_token_texts();
    if decoded_config(f) == Some((k, id)) {
        assert(f.subrange(0, 5) == "core_"@);
        assert(f.subrange(f.len() - 4, f.len() as int) == ".dat"@);
        assert(config_name(k, id) =~= f);
    }
    if is_digit_string(id) {
        let g = config_name(k, id);
        assert(g.subrange(0, 5) =~= "core_"@);
        assert(g.subrange(g.len() - 4, g.len() as int) =~= ".dat"@);
        assert(g.subrange(5, 9) =~= kind_token(k));
        assert(g.subrange(10, g.len() - 4) =~= id);
        assert(g[9] == '_');
    }
}

/// The owner kind and id of a configuration filename, or `None` for any
/// other name.
pub fn decode_config(filename: &str) -> (r: Option<(SettingsKind, String)>)
    ensures
        match r {
            Some((k, id)) => decoded_config(filename@) == Some((k, id@)),
            None => decoded_config(filename@) is None,
        },
{
    proof {
        lemma_token_texts();
    }
    let n = filename.unicode_len();
    if n < 15 || !starts_with(filename, "core_") || !ends_with(filename, ".dat") {
        return None;
    }
    if filename.get_char(9) != '_' {
        return None;
    }
    let token = filename.substring_char(5, 9);
    let id = filename.substring_char(10, n - 4);
    match SettingsKind::from_token(token) {
        Some(k) => {
            if digits_only(id) {
                Some((k, String::from_str(id)))
            } else {
                None
            }
        },
        None => None,
    }
}

/// The configuration filename of an owner.
pub fn encode_config(kind: SettingsKind, id: &str) -> (r: String)
    ensures
        r@ == config_name(kind, id@),
{
    let r = String::from_str("core_").concat(kind.token()).concat("_").concat(id).concat(".dat");
    assert(r@ =~= config_name(kind, id@));
    r
}

/// `s` holds no underscore.
pub open spec fn no_underscore(s: Seq<char>) -> bool {
    forall|i: int| 0 <= i < s.len() ==> s[i] != '_'
}

/// The position of the last underscore of `s`, or -1.
pub open spec fn last_underscore(s: Seq<char>) -> int
    decreases s.len(),
{
    if s.len() == 0 {
        -1
    } else if s.last() == '_' {
        s.len() - 1
    } else {
        last_underscore(s.drop_last())
    }
}

/// `s` split around its last underscore.
pub open spec fn split_last_underscore(s: Seq<char>) -> Option<(Seq<char>, Seq<char>)> {
    let i = last_underscore(s);
    if i >= 0 {
        Some((s.subrange(0, i), s.subrange(i + 1, s.len() as int)))
    } else {
        None
    }
}

/// The timestamp field of a backup filename; one that is not a 64-bit
/// number reads as zero.
pub open spec fn timestamp_of(t: Seq<char>) -> u64 {
    match parsed_u64(t) {
        Some(v) => v,
        None => 0,
    }
}

/// The name of a backup file.
pub open spec fn backup_name(label: Seq<char>, k: SettingsKind, id: Seq<char>, ts: u64) -> Seq<
    char,
> {
    label + "_"@ + kind_token(k) + "_"@ + id + "_"@ + decimal(ts as nat) + ".bak"@
}

/// A backup filename read as label, kind, owner id and timestamp: the name
/// without `.bak` is cut at its last three underscores, so that the label
/// keeps any underscores of its own.
pub open spec fn decoded_backup(f: Seq<char>) -> Option<(Seq<char>, SettingsKind, Seq<char>, u64)> {
    if has_suffix(f, ".bak"@) {
        match split_last_underscore(f.subrange(0, f.len() - 4)) {
            Some((r1, ts)) => match split_last_underscore(r1) {
                Some((r2, id)) => match split_last_underscore(r2) {
                    Some((label, tok)) => match kind_of_token(tok) {
                        Some(k) => Some((label, k, id, timestamp_of(ts))),
                        None => None,
                    },
                    None => None,
                },
                None => None,
            },
            None => None,
        }
    } else {
        None
    }
}

proof fn lemma_last_underscore_at(s: Seq<char>, k: int)
    requires
        0 <= k < s.len(),
        s[k] == '_',
        forall|j: int| k < j < s.len() ==> s[j] != '_',
    ensures
        last_underscore(s) == k,
    decreases s.len(),
{
    if k < s.len() - 1 {
        lemma_last_underscore_at(s.drop_last(), k);
    }
}

proof fn lemma_last_underscore_none(s: Seq<char>)
    requires
        no_underscore(s),
    ensures
        last_underscore(s) == -1,
    decreases s.len(),
{
    if s.len() > 0 {
        lemma_last_underscore_none(s.drop_last());
    }
}

/// Cuts `s` at its last underscore.
fn split_at_last_underscore<'a>(s: &'a str) -> (r: Option<(&'a str, &'a str)>)
    ensures
        match r {
            Some((a, b)) => split_last_underscore(s@) == Some((a@, b@)),
            None => split_last_underscore(s@) is None,
        },
{
    let n = s.unicode_len();
    let mut i: usize = n;
    while i > 0
        invariant
            n == s@.len(),
            i <= n,
            forall|j: int| i <= j < n ==> s@[j] != '_',
        decreases i,
    {
        if s.get_char(i - 1) == '_' {
            proof {
                lemma_last_underscore_at(s@, i - 1);
            }
            let a = s.substring_char(0, i - 1);
            let b = s.substring_char(i, n);
            return Some((a, b));
        }
        i = i - 1;
    }
    proof {
        lemma_last_underscore_none(s@);
    }
    None
}

/// The name of the backup of an owner's file under a label, taken at a time.
pub fn encode_backup(label: &str, kind: SettingsKind, id: &str, timestamp: u64) -> (r: String)
    ensures
        r@ == backup_name(label@, kind, id@, timestamp),
{
    let ts = decimal_string(timestamp);
    let r = String::from_str(label).concat("_").concat(kind.token()).concat("_").concat(id).concat(
        "_",
    ).concat(ts.as_str()).concat(".bak");
    assert(r@ =~= backup_name(label@, kind, id@, timestamp));
    r
}

/// Label, kind, owner id and timestamp of a backup filename, or `None` when
/// the name does not have that shape.
pub fn decode_backup(filename: &str) -> (r: Option<(String, SettingsKind, String, u64)>)
    ensures
        match r {
            Some((label, k, id, ts)) => decoded_backup(filename@) == Some((label@, k, id@, ts)),
            None => decoded_backup(filename@) is None,
        },
{
    proof {
        lemma_token_texts();
    }
    if !ends_with(filename, ".bak") {
        return None;
    }
    let n = filename.unicode_len();
    let stem = filename.substring_char(0, n - 4);
    let (rest, ts) = match split_at_last_underscore(stem) {
        Some(p) => p,
        None => return None,
    };
    let (rest, id) = match split_at_last_underscore(rest) {
        Some(p) => p,
        None => return None,
    };
    let (label, token) = match split_at_last_underscore(rest) {
        Some(p) => p,
        None => return None,
    };
    let kind = match SettingsKind::from_token(token) {
        Some(k) => k,
        None => return None,
    };
    let timestamp = match parse_u64(ts) {
        Some(v) => v,
        None => 0,
    };
    Some((String::from_str(label), kind, String::from_str(id), timestamp))
}

/// Cutting `x_y` at its last underscore gives back `x` and `y` when `y`
/// holds no underscore.
proof fn lemma_split_joined(x: Seq<char>, y: Seq<char>)
    requires
        no_underscore(y),
    ensures
        split_last_underscore(x + seq!['_'] + y) == Some((x, y)),
{
    let s = x + seq!['_'] + y;
    assert forall|j: int| x.len() < j < s.len() implies s[j] != '_' by {
        assert(s[j] == y[j - x.len() - 1]);
    }
    lemma_last_underscore_at(s, x.len() as int);
    assert(s.subrange(0, x.len() as int) =~= x);
    assert(s.subrange(x.len() as int + 1, s.len() as int) =~= y);
}

/// Decoding the name that `encode_backup` gives recovers the label, kind,
/// owner id and timestamp exactly, underscores in the label included. (An
/// owner id with an underscore would be read as part of the label.)
pub proof fn lemma_backup_round_trip(label: Seq<char>, k: SettingsKind, id: Seq<char>, ts: u64)
    requires
        no_underscore(id),
    ensures
        decoded_backup(backup_name(label, k, id, ts)) == Some((label, k, id, ts)),
{
    lemma_token_texts();
    lemma_decimal(ts as nat);
    lemma_parse_decimal(ts);
    let d = decimal(ts as nat);
    let tok = kind_token(k);
    let r2 = label + seq!['_'] + tok;
    let r1 = r2 + seq!['_'] + id;
    let stem = r1 + seq!['_'] + d;
    let f = backup_name(label, k, id, ts);
    assert(f =~= stem + ".bak"@);
    assert(f.subrange(f.len() - 4, f.len() as int) =~= ".bak"@);
    assert(f.subrange(0, f.len() - 4) =~= stem);
    assert forall|j: int| 0 <= j < d.len() implies d[j] != '_' by {
        assert(is_digit(d[j]));
    }
    lemma_split_joined(r1, d);
    lemma_split_joined(r2, id);
    lemma_split_joined(label, tok);
}

} // verus!
