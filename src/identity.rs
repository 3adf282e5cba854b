//! The remote identity cache: characters and corporations fetched from the
//! identity service, kept for the life of the cache and never refreshed.
//!
//! Fetching is the caller's work. The cache decides whether a lookup is
//! answered from memory or needs a request, names that request, and composes
//! and records what came back.
use vstd::prelude::*;
use std::collections::HashMap;
use crate::text::{signed_decimal, signed_decimal_string};

verus! {

/// A character as the identity service describes it, with the name of its
/// corporation when that could be resolved.
#[derive(Debug)]
pub struct CharacterInfo {
    pub character_id: i64,
    pub name: String,
    pub corporation_id: i32,
    pub corporation_name: Option<String>,
    pub alliance_id: Option<i32>,
    pub birthday: String,
    /// The IEEE-754 bit pattern of the security status, carried unchanged.
    pub security_status_bits: Option<u64>,
}

/// A corporation as the identity service describes it.
#[derive(Debug)]
pub struct CorporationInfo {
    pub corporation_id: i32,
    pub name: String,
    pub ticker: String,
    pub member_count: i32,
    pub alliance_id: Option<i32>,
}

pub(crate) fn copy_text(s: &Option<String>) -> (r: Option<String>)
    ensures
        r == *s,
{
    match s {
        Some(t) => Some(t.clone()),
        None => None,
    }
}

impl CharacterInfo {
    /// A copy of this record.
    pub fn duplicate(&self) -> (r: CharacterInfo)
        ensures
            r == *self,
    {
        CharacterInfo {
            character_id: self.character_id,
            name: self.name.clone(),
            corporation_id: self.corporation_id,
            corporation_name: copy_text(&self.corporation_name),
            alliance_id: self.alliance_id,
            birthday: self.birthday.clone(),
            security_status_bits: self.security_status_bits,
        }
    }
}

impl CorporationInfo {
    /// A copy of this record.
    pub fn duplicate(&self) -> (r: CorporationInfo)
        ensures
            r == *self,
    {
        CorporationInfo {
            corporation_id: self.corporation_id,
            name: self.name.clone(),
            ticker: self.ticker.clone(),
            member_count: self.member_count,
            alliance_id: self.alliance_id,
        }
    }
}

/// The base address of the identity service.
pub open spec fn service_base() -> Seq<char> {
    "https://esi.evetech.net/latest"@
}

/// Where the identity service describes a character.
pub fn character_url(character_id: i64) -> (r: String)
    ensures
        r@ == service_base() + "/characters/"@ + signed_decimal(character_id as int) + "/"@,
{
    let r = String::from_str("https://esi.evetech.net/latest").concat("/characters/").concat(
        signed_decimal_string(character_id).as_str(),
    ).concat("/");
    assert(r@ =~= service_base() + "/characters/"@ + signed_decimal(character_id as int) + "/"@);
    r
}

/// Where the identity service describes a corporation.
pub fn corporation_url(corporation_id: i32) -> (r: String)
    ensures
        r@ == service_base() + "/corporations/"@ + signed_decimal(corporation_id as int) + "/"@,
{
    let r = String::from_str("https://esi.evetech.net/latest").concat("/corporations/").concat(
        signed_decimal_string(corporation_id as i64).as_str(),
    ).concat("/");
    assert(r@ =~= service_base() + "/corporations/"@ + signed_decimal(corporation_id as int)
        + "/"@);
    r
}

/// What a character lookup does next.
#[derive(Debug)]
pub enum CharacterStep {
    /// The record is cached: it is the answer.
    Cached(CharacterInfo),
    /// Nothing is cached: the character must be fetched.
    Fetch(i64),
}

/// What a corporation lookup does next.
#[derive(Debug)]
pub enum CorporationStep {
    /// The record is cached: it is the answer.
    Cached(CorporationInfo),
    /// Nothing is cached: the corporation must be fetched.
    Fetch(i32),
}

/// The character record composed from a fetched character and the outcome
/// of the lookup of its corporation: a failed corporation lookup leaves the
/// corporation name absent and fails nothing.
pub open spec fn composed_character(base: CharacterInfo, corporation: Result<CorporationInfo, String>) -> CharacterInfo {
    CharacterInfo {
        corporation_name: match corporation {
            Ok(c) => Some(c.name),
            Err(_) => None,
        },
        ..base
    }
}

/// Characters and corporations fetched so far, by id.
pub struct IdentityCache {
    characters: HashMap<i64, CharacterInfo>,
    corporations: HashMap<i32, CorporationInfo>,
}

impl IdentityCache {
    /// The cached characters.
    pub closed spec fn characters(&self) -> Map<i64, CharacterInfo> {
        self.characters@
    }

    /// The cached corporations.
    pub closed spec fn corporations(&self) -> Map<i32, CorporationInfo> {
        self.corporations@
    }

    /// An empty cache.
    pub fn new() -> (r: IdentityCache)
        ensures
            r.characters() == Map::<i64, CharacterInfo>::empty(),
            r.corporations() == Map::<i32, CorporationInfo>::empty(),
    {
        IdentityCache { characters: HashMap::new(), corporations: HashMap::new() }
    }

    /// The first step of a character lookup: the cached record, or the
    /// request to make.
    pub fn begin_character(&self, character_id: i64) -> (r: CharacterStep)
        ensures
            match r {
                CharacterStep::Cached(info) => self.characters().contains_key(character_id)
                    && info == self.characters()[character_id],
                CharacterStep::Fetch(id) => !self.characters().contains_key(character_id) && id
                    == character_id,
            },
    {
        match self.characters.get(&character_id) {
            Some(info) => CharacterStep::Cached(info.duplicate()),
            None => CharacterStep::Fetch(character_id),
        }
    }

    /// The first step of a corporation lookup: the cached record, or the
    /// request to make.
    pub fn begin_corporation(&self, corporation_id: i32) -> (r: CorporationStep)
        ensures
            match r {
                CorporationStep::Cached(info) => self.corporations().contains_key(corporation_id)
                    && info == self.corporations()[corporation_id],
                CorporationStep::Fetch(id) => !self.corporations().contains_key(corporation_id)
                    && id == corporation_id,
            },
    {
        match self.corporations.get(&corporation_id) {
            Some(info) => CorporationStep::Cached(info.duplicate()),
            None => CorporationStep::Fetch(corporation_id),
        }
    }

    /// Records the corporation fetched for a `Fetch(corporation_id)` step and
    /// returns it.
    pub fn finish_corporation(&mut self, corporation_id: i32, fetched: CorporationInfo) -> (r:
        CorporationInfo)
        requires
            fetched.corporation_id == corporation_id,
        ensures
            r == fetched,
            final(self).corporations() == old(self).corporations().insert(corporation_id, fetched),
            final(self).characters() == old(self).characters(),
    {
        let r = fetched.duplicate();
        self.corporations.insert(corporation_id, fetched);
        r
    }

    /// Composes the character fetched for a `Fetch(character_id)` step with
    /// the outcome of its corporation lookup, records it and returns it.
    pub fn finish_character(
        &mut self,
        character_id: i64,
        base: CharacterInfo,
        corporation: Result<CorporationInfo, String>,
    ) -> (r: CharacterInfo)
        requires
            base.character_id == character_id,
        ensures
            r == composed_character(base, corporation),
            final(self).characters() == old(self).characters().insert(character_id, r),
            final(self).corporations() == old(self).corporations(),
    {
        let corporation_name = match corporation {
            Ok(c) => Some(c.name),
            Err(_) => None,
        };
        let info = CharacterInfo { corporation_name, ..base };
        let r = info.duplicate();
        self.characters.insert(character_id, info);
        r
    }
}

/// Once a character is recorded, the next lookup of its id is answered from
/// the cache with the same record, so a sequential caller fetches each
/// character at most once.
pub proof fn lemma_recorded_character_is_cached(
    before: IdentityCache,
    after: IdentityCache,
    character_id: i64,
    recorded: CharacterInfo,
)
    requires
        after.characters() == before.characters().insert(character_id, recorded),
    ensures
        after.characters().contains_key(character_id),
        after.characters()[character_id] == recorded,
{
}

/// A character whose corporation could not be looked up is still a
/// complete answer: the character as fetched, with no corporation name.
pub proof fn lemma_failed_corporation_lookup_degrades(base: CharacterInfo, error: String)
    ensures
        (composed_character(base, Err(error)).corporation_name is None),
        composed_character(base, Err(error)) == (CharacterInfo { corporation_name: None, ..base }),
{
}

} // verus!
