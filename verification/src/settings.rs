//! Provider profiles and the settings that hold them: defaults, which profile is active,
//! how profiles are added, replaced and deleted, and which base URLs a profile may use.
//! Storage (SQLite) and secrets (the OS keychain) belong to the application.

use vstd::prelude::*;

use crate::text::{copy_str, push_str, str_eq, str_to_chars, string_from_chars, trim_seq, trim_str};

verus! {

pub fn default_chunk_size() -> (r: u32)
    ensures
        r == 40,
{
    40
}

pub fn default_concurrency() -> (r: u32)
    ensures
        r == 3,
{
    3
}

pub fn default_max_len() -> (r: u32)
    ensures
        r == 300,
{
    300
}

pub fn default_timeout_secs() -> (r: u32)
    ensures
        r == 60,
{
    60
}

pub fn default_mock_latency_ms() -> (r: u32)
    ensures
        r == 500,
{
    500
}

/// One configured OpenAI-compatible provider.
pub struct ProviderProfile {
    pub id: String,
    pub label: String,
    pub base_url: String,
    pub model: String,
    pub chunk_size: u32,
    pub concurrency: u32,
    pub max_len: u32,
    pub timeout_secs: u32,
    /// Whether a key is stored for this profile; recomputed before it is shown, never the
    /// key itself.
    pub has_key: bool,
}

/// A profile as values.
pub struct ProfileView {
    pub id: Seq<char>,
    pub label: Seq<char>,
    pub base_url: Seq<char>,
    pub model: Seq<char>,
    pub chunk_size: u32,
    pub concurrency: u32,
    pub max_len: u32,
    pub timeout_secs: u32,
    pub has_key: bool,
}

impl View for ProviderProfile {
    type V = ProfileView;

    open spec fn view(&self) -> ProfileView {
        ProfileView {
            id: self.id@,
            label: self.label@,
            base_url: self.base_url@,
            model: self.model@,
            chunk_size: self.chunk_size,
            concurrency: self.concurrency,
            max_len: self.max_len,
            timeout_secs: self.timeout_secs,
            has_key: self.has_key,
        }
    }
}

impl ProviderProfile {
    /// A copy of this profile.
    pub fn duplicate(&self) -> (r: ProviderProfile)
        ensures
            r@ == self@,
    {
        ProviderProfile {
            id: copy_str(self.id.as_str()),
            label: copy_str(self.label.as_str()),
            base_url: copy_str(self.base_url.as_str()),
            model: copy_str(self.model.as_str()),
            chunk_size: self.chunk_size,
            concurrency: self.concurrency,
            max_len: self.max_len,
            timeout_secs: self.timeout_secs,
            has_key: self.has_key,
        }
    }
}

/// The profiles, which one is active, and whether debug logging is on.
pub struct SettingsState {
    pub profiles: Vec<ProviderProfile>,
    pub active_profile_id: Option<String>,
    pub debug_logging: bool,
}

pub struct SettingsView {
    pub profiles: Seq<ProfileView>,
    pub active: Option<Seq<char>>,
    pub debug_logging: bool,
}

pub open spec fn profiles_view(ps: Seq<ProviderProfile>) -> Seq<ProfileView> {
    ps.map_values(|p: ProviderProfile| p@)
}

impl View for SettingsState {
    type V = SettingsView;

    open spec fn view(&self) -> SettingsView {
        SettingsView {
            profiles: profiles_view(self.profiles@),
            active: match self.active_profile_id {
                Some(a) => Some(a@),
                None => None,
            },
            debug_logging: self.debug_logging,
        }
    }
}

impl SettingsState {
    /// No profiles, none active, debug logging off.
    pub fn new() -> (r: SettingsState)
        ensures
            r@.profiles.len() == 0,
            r@.active is None,
            !r@.debug_logging,
    {
        SettingsState { profiles: Vec::new(), active_profile_id: None, debug_logging: false }
    }
}

// ---------------------------------------------------------------------------------------
// The model of the profile operations
// ---------------------------------------------------------------------------------------

/// Index of the first profile with this id.
pub open spec fn find_index(ps: Seq<ProfileView>, id: Seq<char>) -> Option<int>
    decreases ps.len(),
{
    if ps.len() == 0 {
        None
    } else if ps[0].id == id {
        Some(0)
    } else {
        match find_index(ps.drop_first(), id) {
            Some(k) => Some(k + 1),
            None => None,
        }
    }
}

/// The first profile with this id.
pub open spec fn lookup(ps: Seq<ProfileView>, id: Seq<char>) -> Option<ProfileView> {
    match find_index(ps, id) {
        Some(k) => Some(ps[k]),
        None => None,
    }
}

/// `p` replaces the first profile with its id, or is added at the end.
pub open spec fn upsert_spec(ps: Seq<ProfileView>, p: ProfileView) -> Seq<ProfileView> {
    match find_index(ps, p.id) {
        Some(k) => ps.update(k, p),
        None => ps.push(p),
    }
}

/// The profiles without those with this id.
pub open spec fn without_id(ps: Seq<ProfileView>, id: Seq<char>) -> Seq<ProfileView>
    decreases ps.len(),
{
    if ps.len() == 0 {
        seq![]
    } else {
        let rest = without_id(ps.drop_last(), id);
        if ps.last().id == id {
            rest
        } else {
            rest.push(ps.last())
        }
    }
}

/// The message when no usable profile is active.
pub open spec fn no_active_message() -> Seq<char> {
    "No active provider / no key — open Settings"@
}

/// The message when a profile id is unknown.
pub open spec fn no_such_profile_message(id: Seq<char>) -> Seq<char> {
    "No such profile: "@ + id
}

/// The active profile: the first with the active id, when there is an active id and such
/// a profile.
pub open spec fn active_spec(s: SettingsView) -> Result<ProfileView, Seq<char>> {
    match s.active {
        None => Err(no_active_message()),
        Some(a) => match lookup(s.profiles, a) {
            Some(p) => Ok(p),
            None => Err(no_active_message()),
        },
    }
}

proof fn lemma_find_index_bounds(ps: Seq<ProfileView>, id: Seq<char>)
    ensures
        match find_index(ps, id) {
            Some(k) => 0 <= k < ps.len() && ps[k].id == id && forall|j: int|
                0 <= j < k ==> #[trigger] ps[j].id != id,
            None => forall|j: int| 0 <= j < ps.len() ==> #[trigger] ps[j].id != id,
        },
    decreases ps.len(),
{
    if ps.len() > 0 {
        lemma_find_index_bounds(ps.drop_first(), id);
        match find_index(ps.drop_first(), id) {
            Some(k) => {
                assert forall|j: int| 0 <= j < k + 1 implies #[trigger] ps[j].id != id || ps[0].id
                    == id by {
                    if j > 0 {
                        assert(ps[j] == ps.drop_first()[j - 1]);
                    }
                }
            },
            None => {
                assert forall|j: int| 0 <= j < ps.len() implies #[trigger] ps[j].id != id
                    || ps[0].id == id by {
                    if j > 0 {
                        assert(ps[j] == ps.drop_first()[j - 1]);
                    }
                }
            },
        }
    }
}

/// `find_index` is the first index whose id matches.
proof fn lemma_find_index_first(ps: Seq<ProfileView>, id: Seq<char>, k: int)
    requires
        0 <= k < ps.len(),
        ps[k].id == id,
        forall|j: int| 0 <= j < k ==> #[trigger] ps[j].id != id,
    ensures
        find_index(ps, id) == Some(k),
{
    lemma_find_index_bounds(ps, id);
    match find_index(ps, id) {
        Some(m) => {
            if m < k {
                assert(ps[m].id != id);
            } else if m > k {
                assert(ps[k].id != id);
            }
        },
        None => {
            assert(ps[k].id != id);
        },
    }
}

// ---------------------------------------------------------------------------------------
// The profile operations
// ---------------------------------------------------------------------------------------

fn first_with_id(profiles: &Vec<ProviderProfile>, id: &str) -> (r: Option<usize>)
    ensures
        match r {
            Some(k) => k < profiles.len() && find_index(profiles_view(profiles@), id@) == Some(
                k as int,
            ),
            None => find_index(profiles_view(profiles@), id@) is None,
        },
{
    let ghost pv = profiles_view(profiles@);
    let mut i: usize = 0;
    while i < profiles.len()
        invariant
            i <= profiles.len(),
            pv == profiles_view(profiles@),
            forall|j: int| 0 <= j < i ==> #[trigger] pv[j].id != id@,
        decreases profiles.len() - i,
    {
        if str_eq(profiles[i].id.as_str(), id) {
            proof {
                lemma_find_index_first(pv, id@, i as int);
            }
            return Some(i);
        }
        i = i + 1;
    }
    proof {
        lemma_find_index_bounds(pv, id@);
        match find_index(pv, id@) {
            Some(k) => {
                assert(pv[k].id != id@);
            },
            None => {},
        }
    }
    None
}

fn message_no_active() -> (r: String)
    ensures
        r@ == no_active_message(),
{
    copy_str("No active provider / no key — open Settings")
}

fn message_no_such_profile(id: &str) -> (r: String)
    ensures
        r@ == no_such_profile_message(id@),
{
    let mut m = str_to_chars("No such profile: ");
    push_str(&mut m, id);
    string_from_chars(m.as_slice())
}

/// `p` with its `has_key` flag set to `flag`.
pub open spec fn with_key_flag(p: ProfileView, flag: bool) -> ProfileView {
    ProfileView { has_key: flag, ..p }
}

impl SettingsState {
    /// The active profile; an error pointing at Settings when no profile is active or the
    /// active id names none. A profile without a stored key is still usable.
    pub fn active_profile(&self) -> (r: Result<ProviderProfile, String>)
        ensures
            match active_spec(self@) {
                Ok(p) => r matches Ok(x) && x@ == p,
                Err(m) => r matches Err(e) && e@ == m,
            },
    {
        match &self.active_profile_id {
            None => Err(message_no_active()),
            Some(a) => match first_with_id(&self.profiles, a.as_str()) {
                Some(k) => Ok(self.profiles[k].duplicate()),
                None => Err(message_no_active()),
            },
        }
    }

    /// The profile with this id, or an error naming the id.
    pub fn find_profile(&self, id: &str) -> (r: Result<ProviderProfile, String>)
        ensures
            match lookup(self@.profiles, id@) {
                Some(p) => r matches Ok(x) && x@ == p,
                None => r matches Err(e) && e@ == no_such_profile_message(id@),
            },
    {
        match first_with_id(&self.profiles, id) {
            Some(k) => Ok(self.profiles[k].duplicate()),
            None => Err(message_no_such_profile(id)),
        }
    }

    /// Replaces the profile with the same id, or adds it at the end.
    pub fn upsert_profile(&mut self, profile: ProviderProfile)
        ensures
            final(self)@.profiles == upsert_spec(old(self)@.profiles, profile@),
            final(self)@.active == old(self)@.active,
            final(self)@.debug_logging == old(self)@.debug_logging,
    {
        let ghost pv = profile@;
        match first_with_id(&self.profiles, profile.id.as_str()) {
            Some(k) => {
                let ghost before = self.profiles@;
                self.profiles.set(k, profile);
                assert(profiles_view(self.profiles@) =~= profiles_view(before).update(k as int, pv));
            },
            None => {
                let ghost before = self.profiles@;
                self.profiles.push(profile);
                assert(profiles_view(self.profiles@) =~= profiles_view(before).push(pv));
            },
        }
    }

    /// Removes every profile with this id; the active id is cleared when it was this one.
    pub fn delete_profile(&mut self, id: &str)
        ensures
            final(self)@.profiles == without_id(old(self)@.profiles, id@),
            final(self)@.active == if old(self)@.active == Some(id@) {
                None
            } else {
                old(self)@.active
            },
            final(self)@.debug_logging == old(self)@.debug_logging,
    {
        let ghost pv = self@.profiles;
        let mut kept: Vec<ProviderProfile> = Vec::new();
        let mut rest: Vec<ProviderProfile> = Vec::new();
        std::mem::swap(&mut rest, &mut self.profiles);
        let ghost all = rest@;
        assert(profiles_view(all) == pv);
        assert(all.len() == rest.len());
        let mut i: usize = 0;
        while rest.len() > 0
            invariant
                rest@ == all.skip(i as int),
                i + rest.len() == all.len(),
                all.len() <= usize::MAX,
                pv == profiles_view(all),
                profiles_view(kept@) == without_id(pv.take(i as int), id@),
            decreases rest.len(),
        {
            let p = rest.remove(0);
            proof {
                assert(p == all[i as int]);
                assert(rest@ =~= all.skip(i + 1));
                assert(pv.take(i + 1).drop_last() =~= pv.take(i as int));
                assert(pv.take(i + 1).last() == p@);
            }
            if !str_eq(p.id.as_str(), id) {
                let ghost k0 = kept@;
                kept.push(p);
                assert(profiles_view(kept@) =~= profiles_view(k0).push(p@));
            }
            i = i + 1;
        }
        proof {
            assert(all.skip(i as int).len() == 0);
            assert(pv.take(i as int) =~= pv);
        }
        self.profiles = kept;
        let clear = match &self.active_profile_id {
            Some(a) => str_eq(a.as_str(), id),
            None => false,
        };
        if clear {
            self.active_profile_id = None;
        }
    }

    /// Makes the profile with this id the active one; an error naming the id, and nothing
    /// changed, when there is none.
    pub fn set_active_profile(&mut self, id: &str) -> (r: Result<(), String>)
        ensures
            match lookup(old(self)@.profiles, id@) {
                Some(_) => r is Ok && final(self)@.active == Some(id@),
                None => r matches Err(e) && e@ == no_such_profile_message(id@) && final(self)@.active
                    == old(self)@.active,
            },
            final(self)@.profiles == old(self)@.profiles,
            final(self)@.debug_logging == old(self)@.debug_logging,
    {
        match first_with_id(&self.profiles, id) {
            Some(_) => {
                self.active_profile_id = Some(copy_str(id));
                Ok(())
            },
            None => Err(message_no_such_profile(id)),
        }
    }

    /// Sets each profile's `has_key` flag: `flags[k]` says whether a key is stored for
    /// profile `k`.
    pub fn set_key_flags(&mut self, flags: &Vec<bool>)
        requires
            flags.len() == old(self).profiles.len(),
        ensures
            final(self)@.profiles.len() == old(self)@.profiles.len(),
            forall|k: int|
                0 <= k < flags.len() ==> (#[trigger] final(self)@.profiles[k]) == with_key_flag(
                    old(self)@.profiles[k],
                    flags@[k],
                ),
            final(self)@.active == old(self)@.active,
            final(self)@.debug_logging == old(self)@.debug_logging,
    {
        let ghost before = self@.profiles;
        let mut i: usize = 0;
        while i < flags.len()
            invariant
                i <= flags.len(),
                flags.len() == self.profiles.len(),
                before.len() == flags.len(),
                self@.active == old(self)@.active,
                self@.debug_logging == old(self)@.debug_logging,
                before == old(self)@.profiles,
                forall|k: int|
                    0 <= k < i ==> (#[trigger] profiles_view(self.profiles@)[k]) == with_key_flag(
                        before[k],
                        flags@[k],
                    ),
                forall|k: int|
                    i <= k < flags.len() ==> (#[trigger] profiles_view(self.profiles@)[k])
                        == before[k],
            decreases flags.len() - i,
        {
            let mut p = self.profiles[i].duplicate();
            assert(profiles_view(self.profiles@)[i as int] == self.profiles@[i as int]@);
            assert(p@ == before[i as int]);
            p.has_key = flags[i];
            assert(p@ == with_key_flag(before[i as int], flags@[i as int]));
            let ghost v0 = self.profiles@;
            self.profiles.set(i, p);
            proof {
                assert(self.profiles@ == v0.update(i as int, p));
                assert forall|k: int| 0 <= k < flags.len() && k != i implies #[trigger] profiles_view(
                    self.profiles@,
                )[k] == profiles_view(v0)[k] by {}
                assert(profiles_view(self.profiles@)[i as int] == with_key_flag(before[i as int], flags@[i as int]));
            }
            i = i + 1;
        }
    }
}

// ---------------------------------------------------------------------------------------
// Laws of the profile operations
// ---------------------------------------------------------------------------------------

proof fn lemma_find_index_none(ps: Seq<ProfileView>, id: Seq<char>)
    requires
        forall|j: int| 0 <= j < ps.len() ==> #[trigger] ps[j].id != id,
    ensures
        find_index(ps, id) is None,
{
    lemma_find_index_bounds(ps, id);
    match find_index(ps, id) {
        Some(k) => {
            assert(ps[k].id != id);
        },
        None => {},
    }
}

proof fn lemma_find_index_push(ps: Seq<ProfileView>, x: ProfileView, id: Seq<char>)
    ensures
        find_index(ps.push(x), id) == match find_index(ps, id) {
            Some(k) => Some(k),
            None => if x.id == id {
                Some(ps.len() as int)
            } else {
                None
            },
        },
{
    let q = ps.push(x);
    lemma_find_index_bounds(ps, id);
    match find_index(ps, id) {
        Some(k) => {
            assert forall|j: int| 0 <= j < k implies #[trigger] q[j].id != id by {
                assert(q[j] == ps[j]);
            }
            lemma_find_index_first(q, id, k);
        },
        None => {
            if x.id == id {
                assert forall|j: int| 0 <= j < ps.len() implies #[trigger] q[j].id != id by {
                    assert(q[j] == ps[j]);
                }
                lemma_find_index_first(q, id, ps.len() as int);
            } else {
                assert forall|j: int| 0 <= j < q.len() implies #[trigger] q[j].id != id by {
                    if j < ps.len() {
                        assert(q[j] == ps[j]);
                    }
                }
                lemma_find_index_none(q, id);
            }
        },
    }
}

/// After a profile is added or replaced, looking up its id finds exactly it.
pub proof fn lemma_upsert_then_lookup(ps: Seq<ProfileView>, p: ProfileView)
    ensures
        lookup(upsert_spec(ps, p), p.id) == Some(p),
{
    lemma_find_index_bounds(ps, p.id);
    match find_index(ps, p.id) {
        Some(k) => {
            let q = ps.update(k, p);
            assert forall|j: int| 0 <= j < k implies #[trigger] q[j].id != p.id by {
                assert(q[j] == ps[j]);
            }
            lemma_find_index_first(q, p.id, k);
        },
        None => {
            lemma_find_index_push(ps, p, p.id);
        },
    }
}

/// Adding or replacing a profile leaves what every other id looks up unchanged.
pub proof fn lemma_upsert_keeps_others(ps: Seq<ProfileView>, p: ProfileView, id: Seq<char>)
    requires
        id != p.id,
    ensures
        lookup(upsert_spec(ps, p), id) == lookup(ps, id),
{
    lemma_find_index_bounds(ps, p.id);
    lemma_find_index_bounds(ps, id);
    match find_index(ps, p.id) {
        Some(k) => {
            let q = ps.update(k, p);
            match find_index(ps, id) {
                Some(m) => {
                    assert forall|j: int| 0 <= j < m implies #[trigger] q[j].id != id by {
                        if j != k {
                            assert(q[j] == ps[j]);
                        }
                    }
                    assert(m != k);
                    assert(q[m] == ps[m]);
                    lemma_find_index_first(q, id, m);
                },
                None => {
                    assert forall|j: int| 0 <= j < q.len() implies #[trigger] q[j].id != id by {
                        if j != k {
                            assert(q[j] == ps[j]);
                        }
                    }
                    lemma_find_index_none(q, id);
                },
            }
        },
        None => {
            lemma_find_index_push(ps, p, id);
            match find_index(ps, id) {
                Some(m) => {
                    assert(ps.push(p)[m] == ps[m]);
                },
                None => {},
            }
        },
    }
}

/// Once a profile id is deleted, no profile has it any more.
pub proof fn lemma_delete_removes(ps: Seq<ProfileView>, id: Seq<char>)
    ensures
        lookup(without_id(ps, id), id) is None,
    decreases ps.len(),
{
    if ps.len() > 0 {
        lemma_delete_removes(ps.drop_last(), id);
        if ps.last().id != id {
            lemma_find_index_push(without_id(ps.drop_last(), id), ps.last(), id);
        }
    }
}

/// Deleting a profile id leaves what every other id looks up unchanged.
pub proof fn lemma_delete_keeps_others(ps: Seq<ProfileView>, id: Seq<char>, other: Seq<char>)
    requires
        other != id,
    ensures
        lookup(without_id(ps, id), other) == lookup(ps, other),
    decreases ps.len(),
{
    if ps.len() > 0 {
        let init = ps.drop_last();
        let x = ps.last();
        lemma_delete_keeps_others(init, id, other);
        assert(init.push(x) =~= ps);
        lemma_find_index_push(init, x, other);
        let w = without_id(init, id);
        if x.id != id {
            lemma_find_index_push(w, x, other);
            lemma_find_index_bounds(w, other);
            lemma_find_index_bounds(init, other);
            match find_index(init, other) {
                Some(k) => {
                    assert(ps[k] == init[k]);
                    match find_index(w, other) {
                        Some(m) => {
                            assert(w.push(x)[m] == w[m]);
                        },
                        None => {},
                    }
                },
                None => {},
            }
        } else {
            lemma_find_index_bounds(init, other);
            match find_index(init, other) {
                Some(k) => {
                    assert(ps[k] == init[k]);
                },
                None => {},
            }
        }
    }
}

/// Making a profile active and then asking for the active profile gives that profile.
pub proof fn lemma_set_active_then_active(s: SettingsView, id: Seq<char>)
    requires
        lookup(s.profiles, id) is Some,
    ensures
        active_spec(SettingsView { active: Some(id), ..s }) == Ok::<ProfileView, Seq<char>>(
            lookup(s.profiles, id)->0,
        ),
{
}

// ---------------------------------------------------------------------------------------
// Keys and base URLs
// ---------------------------------------------------------------------------------------

/// Whether a usable key is stored: there is one and it is not empty.
pub fn has_api_key(stored: &Option<String>) -> (r: bool)
    ensures
        r == match stored {
            Some(k) => k@.len() > 0,
            None => false,
        },
{
    match stored {
        Some(k) => str_to_chars(k.as_str()).len() > 0,
        None => false,
    }
}

/// A usable key is stored: one that is not empty.
pub open spec fn key_present(stored: Option<Seq<char>>) -> bool {
    match stored {
        Some(k) => k.len() > 0,
        None => false,
    }
}

pub open spec fn stored_view(stored: Seq<Option<String>>) -> Seq<Option<Seq<char>>> {
    stored.map_values(
        |o: Option<String>|
            match o {
                Some(k) => Some(k@),
                None => None,
            },
    )
}

/// The settings as shown: each profile's `has_key` says whether a usable key is stored for
/// it (`stored[k]` for profile `k`), and nothing else changes.
pub open spec fn keyed_view(s: SettingsView, stored: Seq<Option<Seq<char>>>) -> SettingsView {
    SettingsView {
        profiles: Seq::new(
            s.profiles.len(),
            |k: int| with_key_flag(s.profiles[k], key_present(stored[k])),
        ),
        ..s
    }
}

/// No key reaches the settings as shown: key stores that agree on which profiles have a
/// usable key give the same settings.
pub proof fn lemma_keys_do_not_leak(
    s: SettingsView,
    a: Seq<Option<Seq<char>>>,
    b: Seq<Option<Seq<char>>>,
)
    requires
        a.len() == s.profiles.len(),
        b.len() == s.profiles.len(),
        forall|k: int| 0 <= k < a.len() ==> key_present(#[trigger] a[k]) == key_present(b[k]),
    ensures
        keyed_view(s, a) == keyed_view(s, b),
{
    assert(keyed_view(s, a).profiles =~= keyed_view(s, b).profiles);
}

impl SettingsState {
    /// Shows which profiles have a usable key: `stored[k]` is what is stored for profile
    /// `k`. Only the flags reach the settings, never the keys.
    pub fn refresh_key_flags(&mut self, stored: &Vec<Option<String>>)
        requires
            stored.len() == old(self).profiles.len(),
        ensures
            final(self)@ == keyed_view(old(self)@, stored_view(stored@)),
    {
        let ghost sv = stored_view(stored@);
        let mut flags: Vec<bool> = Vec::new();
        let mut i: usize = 0;
        while i < stored.len()
            invariant
                i <= stored.len(),
                flags.len() == i,
                sv == stored_view(stored@),
                forall|k: int| 0 <= k < i ==> flags@[k] == key_present(#[trigger] sv[k]),
            decreases stored.len() - i,
        {
            flags.push(has_api_key(&stored[i]));
            i = i + 1;
        }
        let ghost before = self@;
        self.set_key_flags(&flags);
        assert(self@.profiles =~= keyed_view(before, sv).profiles);
    }
}

/// The key to use for a profile: the one in the OS keychain, or else the one from the
/// environment (headless setups without a keychain).
pub fn resolve_api_key(keychain: Option<String>, environment: Option<String>) -> (r: Option<String>)
    ensures
        r == match keychain {
            Some(k) => Some(k),
            None => environment,
        },
{
    match keychain {
        Some(k) => Some(k),
        None => environment,
    }
}

/// The message when the OS keychain cannot be used; `reason` is the keychain's own error.
pub fn keychain_unavailable_message(reason: &str) -> (r: String)
    ensures
        r@ == "No OS keychain available ("@ + reason@
            + ") — install gnome-keyring/KWallet, or set LOTF_API_KEY"@,
{
    let mut m = str_to_chars("No OS keychain available (");
    push_str(&mut m, reason);
    push_str(&mut m, ") — install gnome-keyring/KWallet, or set LOTF_API_KEY");
    string_from_chars(m.as_slice())
}

/// What `url::Url::parse` makes of a string: the scheme of the parsed URL, or the parse
/// error as displayed.
pub uninterp spec fn url_parse_scheme(s: Seq<char>) -> Result<Seq<char>, Seq<char>>;

/// Calls `url::Url::parse(s)` and reads the parsed URL's scheme (`Url::scheme`), or
/// displays the parse error (`ParseError`'s `Display`). The contract names that outcome;
/// what the parser accepts is not restated here.
#[verifier::external_body]
fn parse_url_scheme(s: &str) -> (r: Result<String, String>)
    ensures
        match r {
            Ok(x) => url_parse_scheme(s@) == Ok::<Seq<char>, Seq<char>>(x@),
            Err(e) => url_parse_scheme(s@) == Err::<Seq<char>, Seq<char>>(e@),
        },
{
    match url::Url::parse(s) {
        Ok(u) => Ok(u.scheme().to_string()),
        Err(e) => Err(e.to_string()),
    }
}

/// The verdict on a base URL given what parsing it came to: only `http` and `https`
/// pass.
pub open spec fn base_url_verdict_spec(parsed: Result<Seq<char>, Seq<char>>) -> Result<
    (),
    Seq<char>,
> {
    match parsed {
        Err(e) => Err("Invalid provider URL: "@ + e),
        Ok(scheme) => if scheme == "http"@ || scheme == "https"@ {
            Ok(())
        } else {
            Err("Provider URL must use http:// or https:// (got \""@ + scheme + ":\")"@)
        },
    }
}

pub open spec fn verdict_view(r: Result<(), String>) -> Result<(), Seq<char>> {
    match r {
        Ok(()) => Ok(()),
        Err(e) => Err(e@),
    }
}

pub open spec fn parsed_view(r: Result<String, String>) -> Result<Seq<char>, Seq<char>> {
    match r {
        Ok(x) => Ok(x@),
        Err(e) => Err(e@),
    }
}

/// The verdict on a base URL whose parse came to `parsed` (its scheme, or the parse
/// error).
pub fn base_url_verdict(parsed: Result<String, String>) -> (r: Result<(), String>)
    ensures
        verdict_view(r) == base_url_verdict_spec(parsed_view(parsed)),
{
    match parsed {
        Err(e) => {
            let mut m = str_to_chars("Invalid provider URL: ");
            push_str(&mut m, e.as_str());
            Err(string_from_chars(m.as_slice()))
        },
        Ok(scheme) => {
            if str_eq(scheme.as_str(), "http") || str_eq(scheme.as_str(), "https") {
                proof {
                    reveal_strlit("http");
                    reveal_strlit("https");
                }
                Ok(())
            } else {
                let mut m = str_to_chars("Provider URL must use http:// or https:// (got \"");
                push_str(&mut m, scheme.as_str());
                push_str(&mut m, ":\")");
                Err(string_from_chars(m.as_slice()))
            }
        },
    }
}

/// Rejects any base URL whose scheme is not http or https, so a profile can only point
/// its requests (and the key they carry) at a network endpoint. Hosts are not restricted:
/// local servers are legitimate.
pub fn validate_base_url(base_url: &str) -> (r: Result<(), String>)
    ensures
        verdict_view(r) == base_url_verdict_spec(url_parse_scheme(trim_seq(base_url@))),
{
    let t = trim_str(base_url);
    let ts = string_from_chars(t.as_slice());
    let parsed = parse_url_scheme(ts.as_str());
    proof {
        assert(parsed_view(parsed) == url_parse_scheme(trim_seq(base_url@)));
    }
    base_url_verdict(parsed)
}

} // verus!
