//! The tree scanner: from the listing of a settings root (server folders,
//! their profile folders and the files in those) to typed, ordered profiles.
//! Reading the directories is the caller's work; this module decides what the
//! listing means.
use vstd::prelude::*;
use crate::codec::{decode_config, decoded_config, SettingsKind};
use crate::entries::{format_relative_time, relative_time_text, ProfileData, SettingsEntry};
use crate::order::{
    lemma_text_less_connected, lemma_text_less_irreflexive, lemma_text_less_transitive, sort_stable, sorted_by_key,
    stable_arrangement, text_before, text_less, SortKey,
};
use crate::server::{lower_of, server_for, spec_all_servers, Server};
use crate::text::{has_prefix, starts_with};

verus! {

broadcast use vstd::seq_lib::group_to_multiset_ensures;

/// A file directly inside a profile folder.
#[derive(Clone, Debug)]
pub struct FileListing {
    pub name: String,
    pub path: String,
    /// Seconds since the epoch; zero where the time could not be read.
    pub modified_time: u64,
}

/// A folder directly inside a server folder, with the files directly in it.
#[derive(Clone, Debug)]
pub struct ProfileListing {
    pub dir_name: String,
    pub path: String,
    pub files: Vec<FileListing>,
}

/// A folder directly inside the settings root, with the folders directly in
/// it.
#[derive(Clone, Debug)]
pub struct ServerListing {
    pub dir_name: String,
    pub path: String,
    pub profiles: Vec<ProfileListing>,
}

impl SortKey for SettingsEntry {
    open spec fn key_less(&self, other: &Self) -> bool {
        text_less(self.id@, other.id@)
    }

    fn less(&self, other: &Self) -> (r: bool) {
        text_before(self.id.as_str(), other.id.as_str())
    }

    proof fn lemma_key_less_transitive(a: &Self, b: &Self, c: &Self) {
        lemma_text_less_transitive(a.id@, b.id@, c.id@);
    }

    proof fn lemma_key_less_irreflexive(a: &Self) {
        lemma_text_less_irreflexive(a.id@);
    }

    proof fn lemma_key_less_connected(a: &Self, b: &Self, c: &Self) {
        lemma_text_less_connected(a.id@, b.id@, c.id@);
    }
}

impl SortKey for ProfileData {
    open spec fn key_less(&self, other: &Self) -> bool {
        text_less(self.name@, other.name@)
    }

    fn less(&self, other: &Self) -> (r: bool) {
        text_before(self.name.as_str(), other.name.as_str())
    }

    proof fn lemma_key_less_transitive(a: &Self, b: &Self, c: &Self) {
        lemma_text_less_transitive(a.name@, b.name@, c.name@);
    }

    proof fn lemma_key_less_irreflexive(a: &Self) {
        lemma_text_less_irreflexive(a.name@);
    }

    proof fn lemma_key_less_connected(a: &Self, b: &Self, c: &Self) {
        lemma_text_less_connected(a.name@, b.name@, c.name@);
    }
}

/// `idx` pairs each record of `es` with a different item of `fs` to which
/// it stands in `rel`.
pub open spec fn matched_by<T, U>(es: Seq<T>, fs: Seq<U>, rel: spec_fn(T, U) -> bool, idx: Seq<int>) -> bool {
    &&& idx.len() == es.len()
    &&& forall|k: int| 0 <= k < es.len() ==> 0 <= #[trigger] idx[k] < fs.len() && rel(es[k], fs[idx[k]])
    &&& forall|a: int, b: int| 0 <= a < b < es.len() ==> idx[a] != idx[b]
}

/// The records of `es` stand one for one in `rel` to the items of `fs`.
pub open spec fn one_for_one<T, U>(es: Seq<T>, fs: Seq<U>, rel: spec_fn(T, U) -> bool) -> bool {
    es.len() == fs.len() && exists|idx: Seq<int>| matched_by(es, fs, rel, idx)
}

/// Rearranging records that match items one for one, in order, keeps them
/// matching one for one.
pub(crate) proof fn lemma_arrangement_matches<T: SortKey, U>(
    acc: Seq<T>,
    out: Seq<T>,
    fs: Seq<U>,
    rel: spec_fn(T, U) -> bool,
)
    requires
        acc.len() == fs.len(),
        forall|k: int| 0 <= k < acc.len() ==> rel(#[trigger] acc[k], fs[k]),
        exists|idx: Seq<int>| stable_arrangement(out, acc, idx),
    ensures
        one_for_one(out, fs, rel),
{
    let idx = choose|idx: Seq<int>| stable_arrangement(out, acc, idx);
    assert forall|k: int| 0 <= k < out.len() implies 0 <= #[trigger] idx[k] < fs.len() && rel(
        out[k],
        fs[idx[k]],
    ) by {
        assert(rel(acc[idx[k]], fs[idx[k]]));
    }
    assert(matched_by(out, fs, rel, idx));
}

/// `e` is the entry of configuration file `f` of a profile, before aliases
/// or identity details are applied: owner from the filename, display name
/// equal to the owner id.
pub open spec fn describes_file(
    e: SettingsEntry,
    f: FileListing,
    server: Server,
    profile: Seq<char>,
    now: u64,
) -> bool {
    &&& decoded_config(f.name@) == Some((e.kind, e.id@))
    &&& e.path == f.path
    &&& e.server == server
    &&& e.profile@ == profile
    &&& e.display_name@ == e.id@
    &&& e.character is None
    &&& e.alias is None
    &&& e.modified_time == f.modified_time
    &&& e.relative_time@ == relative_time_text(f.modified_time, now)
}

/// The files of a listing that are configuration files of owners of `kind`,
/// in listing order.
pub open spec fn files_of_kind(files: Seq<FileListing>, kind: SettingsKind) -> Seq<FileListing>
    decreases files.len(),
{
    if files.len() == 0 {
        Seq::empty()
    } else {
        let prev = files_of_kind(files.drop_last(), kind);
        let d = decoded_config(files.last().name@);
        if d is Some && d.unwrap().0 == kind {
            prev.push(files.last())
        } else {
            prev
        }
    }
}

/// The entry of a file of a profile, or `None` where the file is not a
/// configuration file.
pub fn parse_settings_file(file: &FileListing, server: Server, profile: &str, now: u64) -> (r:
    Option<SettingsEntry>)
    ensures
        r is Some <==> decoded_config(file.name@) is Some,
        r matches Some(e) ==> describes_file(e, *file, server, profile@, now),
{
    match decode_config(file.name.as_str()) {
        Some((kind, id)) => Some(
            SettingsEntry {
                path: file.path.clone(),
                display_name: id.clone(),
                id,
                kind,
                server,
                profile: String::from_str(profile),
                character: None,
                alias: None,
                modified_time: file.modified_time,
                relative_time: format_relative_time(file.modified_time, now),
            },
        ),
        None => None,
    }
}

/// The entries of the files of one kind, in listing order.
fn entries_of_kind(
    files: &Vec<FileListing>,
    kind: SettingsKind,
    server: Server,
    profile: &str,
    now: u64,
) -> (r: Vec<SettingsEntry>)
    ensures
        r@.len() == files_of_kind(files@, kind).len(),
        forall|k: int|
            0 <= k < r@.len() ==> describes_file(
                #[trigger] r@[k],
                files_of_kind(files@, kind)[k],
                server,
                profile@,
                now,
            ),
{
    let mut r: Vec<SettingsEntry> = Vec::new();
    let mut i: usize = 0;
    while i < files.len()
        invariant
            i <= files@.len(),
            r@.len() == files_of_kind(files@.subrange(0, i as int), kind).len(),
            forall|k: int|
                0 <= k < r@.len() ==> describes_file(
                    #[trigger] r@[k],
                    files_of_kind(files@.subrange(0, i as int), kind)[k],
                    server,
                    profile@,
                    now,
                ),
        decreases files@.len() - i,
    {
        let ghost prefix = files@.subrange(0, i + 1);
        assert(prefix.drop_last() =~= files@.subrange(0, i as int));
        assert(prefix.last() == files@[i as int]);
        match parse_settings_file(&files[i], server, profile, now) {
            Some(e) => {
                if e.kind == kind {
                    r.push(e);
                }
            },
            None => {},
        }
        i = i + 1;
    }
    assert(files@.subrange(0, files@.len() as int) =~= files@);
    r
}

/// The entries of the files of one kind, in order of owner id.
pub fn sorted_entries(
    files: &Vec<FileListing>,
    kind: SettingsKind,
    server: Server,
    profile: &str,
    now: u64,
) -> (r: Vec<SettingsEntry>)
    ensures
        sorted_by_key(r@),
        one_for_one(
            r@,
            files_of_kind(files@, kind),
            |e: SettingsEntry, f: FileListing| describes_file(e, f, server, profile@, now),
        ),
{
    let acc = entries_of_kind(files, kind, server, profile, now);
    let ghost acc_seq = acc@;
    let r = sort_stable(acc);
    proof {
        let rel = |e: SettingsEntry, f: FileListing| describes_file(e, f, server, profile@, now);
        assert forall|k: int| 0 <= k < acc_seq.len() implies rel(
            #[trigger] acc_seq[k],
            files_of_kind(files@, kind)[k],
        ) by {}
        lemma_arrangement_matches(acc_seq, r@, files_of_kind(files@, kind), rel);
    }
    r
}

/// A folder name without its leading `settings_` markers.
pub open spec fn strip_markers(s: Seq<char>) -> Seq<char>
    decreases s.len(),
{
    if s.len() >= 9 && has_prefix(s, "settings_"@) {
        strip_markers(s.skip(9))
    } else {
        s
    }
}

/// The display name of a profile folder, or `None` for a folder that is not
/// a profile (its name does not begin with `settings_`).
pub open spec fn profile_name_of(dir_name: Seq<char>) -> Option<Seq<char>> {
    if has_prefix(dir_name, "settings_"@) {
        Some(strip_markers(dir_name))
    } else {
        None
    }
}

fn strip_profile_markers(s: &str) -> (r: &str)
    ensures
        r@ == strip_markers(s@),
    decreases s@.len(),
{
    let n = s.unicode_len();
    if n >= 9 && starts_with(s, "settings_") {
        let rest = s.substring_char(9, n);
        assert(rest@ =~= s@.skip(9));
        strip_profile_markers(rest)
    } else {
        s
    }
}

/// The display name of a profile folder.
pub fn profile_name(dir_name: &str) -> (r: Option<String>)
    ensures
        match r {
            Some(name) => profile_name_of(dir_name@) == Some(name@),
            None => profile_name_of(dir_name@) is None,
        },
{
    if starts_with(dir_name, "settings_") {
        Some(String::from_str(strip_profile_markers(dir_name)))
    } else {
        None
    }
}

/// `p` is the profile of folder `l` of a server: its display name and path,
/// and the entries of its account and character files, each in order of
/// owner id.
pub open spec fn describes_profile(p: ProfileData, l: ProfileListing, server: Server, now: u64) -> bool {
    &&& profile_name_of(l.dir_name@) == Some(p.name@)
    &&& p.path == l.path
    &&& sorted_by_key(p.accounts@)
    &&& sorted_by_key(p.characters@)
    &&& one_for_one(
        p.accounts@,
        files_of_kind(l.files@, SettingsKind::User),
        |e: SettingsEntry, f: FileListing| describes_file(e, f, server, p.name@, now),
    )
    &&& one_for_one(
        p.characters@,
        files_of_kind(l.files@, SettingsKind::Char),
        |e: SettingsEntry, f: FileListing| describes_file(e, f, server, p.name@, now),
    )
}

/// The profile of a folder of a server, or `None` for a folder that is not a
/// profile.
pub fn scan_profile(server: Server, listing: &ProfileListing, now: u64) -> (r: Option<ProfileData>)
    ensures
        r is Some <==> profile_name_of(listing.dir_name@) is Some,
        r matches Some(p) ==> describes_profile(p, *listing, server, now),
{
    match profile_name(listing.dir_name.as_str()) {
        Some(name) => {
            let accounts = sorted_entries(
                &listing.files,
                SettingsKind::User,
                server,
                name.as_str(),
                now,
            );
            let characters = sorted_entries(
                &listing.files,
                SettingsKind::Char,
                server,
                name.as_str(),
                now,
            );
            Some(ProfileData { name, path: listing.path.clone(), accounts, characters })
        },
        None => None,
    }
}

/// The folders of a listing that are profiles, in listing order.
pub open spec fn marked_profiles(ps: Seq<ProfileListing>) -> Seq<ProfileListing>
    decreases ps.len(),
{
    if ps.len() == 0 {
        Seq::empty()
    } else if profile_name_of(ps.last().dir_name@) is Some {
        marked_profiles(ps.drop_last()).push(ps.last())
    } else {
        marked_profiles(ps.drop_last())
    }
}

/// The server a folder of the settings root belongs to, by its name.
pub open spec fn listing_server(d: ServerListing) -> Option<Server> {
    server_for(lower_of(d.dir_name@))
}

/// The profile folders of every folder of the root that belongs to `server`,
/// in listing order.
pub open spec fn profile_listings(dirs: Seq<ServerListing>, server: Server) -> Seq<ProfileListing>
    decreases dirs.len(),
{
    if dirs.len() == 0 {
        Seq::empty()
    } else if listing_server(dirs.last()) == Some(server) {
        profile_listings(dirs.drop_last(), server) + marked_profiles(dirs.last().profiles@)
    } else {
        profile_listings(dirs.drop_last(), server)
    }
}

/// The path of the last folder of the root that belongs to `server`.
pub open spec fn server_path(dirs: Seq<ServerListing>, server: Server) -> Option<String>
    decreases dirs.len(),
{
    if dirs.len() == 0 {
        None
    } else if listing_server(dirs.last()) == Some(server) {
        Some(dirs.last().path)
    } else {
        server_path(dirs.drop_last(), server)
    }
}

/// A server found under the settings root, with its profiles in order of
/// name.
#[derive(Clone, Debug)]
pub struct ServerScan {
    pub server: Server,
    pub path: String,
    pub profiles: Vec<ProfileData>,
}

/// `s` is what the listing `dirs` holds for `server`.
pub open spec fn scanned_server(s: ServerScan, dirs: Seq<ServerListing>, server: Server, now: u64) -> bool {
    &&& s.server == server
    &&& server_path(dirs, server) == Some(s.path)
    &&& s.profiles@.len() > 0
    &&& sorted_by_key(s.profiles@)
    &&& one_for_one(
        s.profiles@,
        profile_listings(dirs, server),
        |p: ProfileData, l: ProfileListing| describes_profile(p, l, server, now),
    )
}

/// The profiles of `server` under the settings root, or `None` when it has
/// none.
pub fn scan_server(server: Server, dirs: &Vec<ServerListing>, now: u64) -> (r: Option<ServerScan>)
    ensures
        r is Some <==> profile_listings(dirs@, server).len() > 0,
        r matches Some(s) ==> scanned_server(s, dirs@, server, now),
{
    let mut acc: Vec<ProfileData> = Vec::new();
    let mut path: Option<String> = None;
    let mut i: usize = 0;
    while i < dirs.len()
        invariant
            i <= dirs@.len(),
            acc@.len() == profile_listings(dirs@.subrange(0, i as int), server).len(),
            forall|k: int|
                0 <= k < acc@.len() ==> describes_profile(
                    #[trigger] acc@[k],
                    profile_listings(dirs@.subrange(0, i as int), server)[k],
                    server,
                    now,
                ),
            path == server_path(dirs@.subrange(0, i as int), server),
            path is None ==> profile_listings(dirs@.subrange(0, i as int), server).len() == 0,
        decreases dirs@.len() - i,
    {
        let ghost prefix = dirs@.subrange(0, i + 1);
        assert(prefix.drop_last() =~= dirs@.subrange(0, i as int));
        let d = &dirs[i];
        let matches = match Server::from_folder_name(d.dir_name.as_str()) {
            Some(s) => s == server,
            None => false,
        };
        if matches {
            path = Some(d.path.clone());
            let ghost base = profile_listings(dirs@.subrange(0, i as int), server);
            let mut j: usize = 0;
            while j < d.profiles.len()
                invariant
                    j <= d.profiles@.len(),
                    acc@.len() == base.len() + marked_profiles(
                        d.profiles@.subrange(0, j as int),
                    ).len(),
                    forall|k: int|
                        0 <= k < acc@.len() ==> describes_profile(
                            #[trigger] acc@[k],
                            (base + marked_profiles(d.profiles@.subrange(0, j as int)))[k],
                            server,
                            now,
                        ),
                decreases d.profiles@.len() - j,
            {
                let ghost pre = d.profiles@.subrange(0, j + 1);
                assert(pre.drop_last() =~= d.profiles@.subrange(0, j as int));
                assert(pre.last() == d.profiles@[j as int]);
                let ghost old_seq = base + marked_profiles(d.profiles@.subrange(0, j as int));
                match scan_profile(server, &d.profiles[j], now) {
                    Some(p) => {
                        acc.push(p);
                        assert(base + marked_profiles(pre) =~= old_seq.push(d.profiles@[j as int]));
                    },
                    None => {
                        assert(base + marked_profiles(pre) =~= old_seq);
                    },
                }
                j = j + 1;
            }
            assert(d.profiles@.subrange(0, d.profiles@.len() as int) =~= d.profiles@);
        }
        i = i + 1;
    }
    assert(dirs@.subrange(0, dirs@.len() as int) =~= dirs@);
    if acc.len() == 0 {
        return None;
    }
    let ghost acc_seq = acc@;
    let profiles = sort_stable(acc);
    proof {
        let rel = |p: ProfileData, l: ProfileListing| describes_profile(p, l, server, now);
        let pl = profile_listings(dirs@, server);
        assert forall|k: int| 0 <= k < acc_seq.len() implies rel(#[trigger] acc_seq[k], pl[k]) by {}
        lemma_arrangement_matches(acc_seq, profiles@, pl, rel);
    }
    match path {
        Some(path) => Some(ServerScan { server, path, profiles }),
        None => None,
    }
}

/// The first `n` servers, in declaration order, that have profiles under
/// the settings root.
pub open spec fn present_servers(dirs: Seq<ServerListing>, n: int) -> Seq<Server>
    decreases n,
{
    if n <= 0 {
        Seq::empty()
    } else {
        let prev = present_servers(dirs, n - 1);
        let s = spec_all_servers()[n - 1];
        if profile_listings(dirs, s).len() > 0 {
            prev.push(s)
        } else {
            prev
        }
    }
}

/// The servers of a settings root that have profiles, in declaration order.
pub fn scan_installations(dirs: &Vec<ServerListing>, now: u64) -> (r: Vec<ServerScan>)
    ensures
        r@.map_values(|s: ServerScan| s.server) == present_servers(dirs@, 4),
        forall|k: int| 0 <= k < r@.len() ==> scanned_server(#[trigger] r@[k], dirs@, r@[k].server, now),
{
    let all = Server::all();
    let mut r: Vec<ServerScan> = Vec::new();
    let mut i: usize = 0;
    while i < all.len()
        invariant
            all@ == spec_all_servers(),
            i <= 4,
            r@.map_values(|s: ServerScan| s.server) == present_servers(dirs@, i as int),
            forall|k: int| 0 <= k < r@.len() ==> scanned_server(#[trigger] r@[k], dirs@, r@[k].server, now),
        decreases 4 - i,
    {
        let ghost before = r@;
        match scan_server(all[i], dirs, now) {
            Some(found) => {
                r.push(found);
                assert(r@.map_values(|s: ServerScan| s.server) =~= before.map_values(
                    |s: ServerScan| s.server,
                ).push(all@[i as int]));
            },
            None => {},
        }
        i = i + 1;
    }
    r
}

/// A settings root with no folders (an empty or absent root) holds no
/// server.
pub proof fn lemma_empty_root_has_no_servers()
    ensures
        present_servers(Seq::<ServerListing>::empty(), 4) == Seq::<Server>::empty(),
{
    assert(present_servers(Seq::<ServerListing>::empty(), 0) == Seq::<Server>::empty());
    assert(present_servers(Seq::<ServerListing>::empty(), 1) == Seq::<Server>::empty());
    assert(present_servers(Seq::<ServerListing>::empty(), 2) == Seq::<Server>::empty());
    assert(present_servers(Seq::<ServerListing>::empty(), 3) == Seq::<Server>::empty());
}

} // verus!
