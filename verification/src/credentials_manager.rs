//! The credential cache: at most one exchange in flight for each token, one
//! result for everyone who waits for it, and nothing served past its expiry.

use vstd::prelude::*;
use vstd::utf8::encode_utf8;
use crate::clock::Timestamp;
use crate::credentials::{Credentials, CredentialsError, CredentialsView};
use crate::text::result_view;

verus! {

/// The BLAKE3 digest of a sequence of bytes.
pub uninterp spec fn blake3_digest(input: Seq<u8>) -> Seq<u8>;

/// Calls `blake3::hash`: the result is the BLAKE3 digest of the input,
/// which has 32 bytes.
#[verifier::external_body]
fn blake3_hash(input: &[u8]) -> (digest: Vec<u8>)
    ensures
        digest@ == blake3_digest(input@),
        digest@.len() == 32,
{
    blake3::hash(input).as_bytes().to_vec()
}

/// The key under which the cache files a token: the digest of its UTF-8
/// bytes. The token itself is not kept.
pub open spec fn token_key(token: Seq<char>) -> Seq<u8> {
    blake3_digest(encode_utf8(token))
}

/// The key under which the cache files a token.
pub fn token_key_of(token: &str) -> (key: Vec<u8>)
    ensures
        key@ == token_key(token@),
        key@.len() == 32,
{
    blake3_hash(token.as_bytes())
}

/// What the cache holds for one token.
enum Slot {
    /// An exchange is in flight.
    Pending,
    /// The exchange gave these credentials.
    Ready(Credentials),
    /// The exchange failed.
    Failed(CredentialsError),
}

/// `Slot` with its credentials as a view.
pub enum SlotView {
    Pending,
    Ready(CredentialsView),
    Failed(CredentialsError),
}

impl View for Slot {
    type V = SlotView;

    closed spec fn view(&self) -> SlotView {
        match self {
            Slot::Pending => SlotView::Pending,
            Slot::Ready(c) => SlotView::Ready(c@),
            Slot::Failed(e) => SlotView::Failed(*e),
        }
    }
}

/// The answer of the cache to a caller who wants credentials.
#[derive(Debug, PartialEq, Eq)]
pub enum Lookup {
    /// Make the exchange, then hand the outcome to `resolve`.
    Fetch,
    /// Someone else is making the exchange: wait until it is resolved, then
    /// ask again.
    Wait,
    /// These credentials are valid.
    Ready(Credentials),
    /// The exchange for this token failed.
    Failed(CredentialsError),
}

/// `Lookup` with its credentials as a view.
pub enum LookupView {
    Fetch,
    Wait,
    Ready(CredentialsView),
    Failed(CredentialsError),
}

impl View for Lookup {
    type V = LookupView;

    open spec fn view(&self) -> LookupView {
        match self {
            Lookup::Fetch => LookupView::Fetch,
            Lookup::Wait => LookupView::Wait,
            Lookup::Ready(c) => LookupView::Ready(c@),
            Lookup::Failed(e) => LookupView::Failed(*e),
        }
    }
}

/// The cache after a caller has asked for the credentials of `key` at
/// `now`, and the answer that the caller gets. A key that the cache does
/// not hold, or holds with credentials that have expired, gets a fresh
/// pending slot, and the caller is to make the exchange. A key whose
/// exchange has failed gives every caller that failure, until the slot is
/// cleared away with `discard_step`.
pub open spec fn lookup_step(cache: Map<Seq<u8>, SlotView>, key: Seq<u8>, now: Timestamp) -> (
    Map<Seq<u8>, SlotView>,
    LookupView,
) {
    if !cache.contains_key(key) {
        (cache.insert(key, SlotView::Pending), LookupView::Fetch)
    } else {
        match cache[key] {
            SlotView::Pending => (cache, LookupView::Wait),
            SlotView::Failed(e) => (cache, LookupView::Failed(e)),
            SlotView::Ready(c) => if c.valid_at(now) {
                (cache, LookupView::Ready(c))
            } else {
                (cache.insert(key, SlotView::Pending), LookupView::Fetch)
            },
        }
    }
}

/// Whether the cache holds a pending slot for `key`.
pub open spec fn is_pending(cache: Map<Seq<u8>, SlotView>, key: Seq<u8>) -> bool {
    cache.contains_key(key) && cache[key] is Pending
}

/// The cache after the exchange for `key` has come to an end. Only a
/// pending slot is resolved, and so each slot is resolved once.
pub open spec fn resolve_step(
    cache: Map<Seq<u8>, SlotView>,
    key: Seq<u8>,
    outcome: Result<CredentialsView, CredentialsError>,
) -> Map<Seq<u8>, SlotView> {
    if is_pending(cache, key) {
        match outcome {
            Ok(c) => cache.insert(key, SlotView::Ready(c)),
            Err(e) => cache.insert(key, SlotView::Failed(e)),
        }
    } else {
        cache
    }
}

/// The cache after a failed slot for `key` has been cleared away. Nothing
/// else is ever removed this way.
pub open spec fn discard_step(cache: Map<Seq<u8>, SlotView>, key: Seq<u8>) -> Map<
    Seq<u8>,
    SlotView,
> {
    if cache.contains_key(key) && cache[key] is Failed {
        cache.remove(key)
    } else {
        cache
    }
}

/// One call on the cache, by any caller.
pub enum CacheCall {
    /// `get_credentials` for the token with this key, at this time.
    Lookup { key: Seq<u8>, now: Timestamp },
    /// `resolve` for the token with this key, with this outcome.
    Resolve { key: Seq<u8>, outcome: Result<CredentialsView, CredentialsError> },
    /// `discard_failed` for the token with this key.
    Discard { key: Seq<u8> },
}

impl CacheCall {
    /// Whether the call brings the exchange for `key` to an end or clears
    /// its slot away.
    pub open spec fn settles(self, key: Seq<u8>) -> bool {
        match self {
            CacheCall::Lookup { .. } => false,
            CacheCall::Resolve { key: k, .. } => k == key,
            CacheCall::Discard { key: k } => k == key,
        }
    }

    /// Whether the call asks for the credentials of `key`.
    pub open spec fn asks_for(self, key: Seq<u8>) -> bool {
        self matches CacheCall::Lookup { key: k, .. } && k == key
    }
}

/// The cache after one call, and the answer if the call was a lookup.
pub open spec fn call_step(cache: Map<Seq<u8>, SlotView>, call: CacheCall) -> (
    Map<Seq<u8>, SlotView>,
    Option<LookupView>,
) {
    match call {
        CacheCall::Lookup { key, now } => {
            let (after, answer) = lookup_step(cache, key, now);
            (after, Some(answer))
        },
        CacheCall::Resolve { key, outcome } => (resolve_step(cache, key, outcome), None),
        CacheCall::Discard { key } => (discard_step(cache, key), None),
    }
}

/// The cache after a run of calls, in the order in which the cache took
/// them, and the answer to each.
pub open spec fn cache_run(cache: Map<Seq<u8>, SlotView>, calls: Seq<CacheCall>) -> (
    Map<Seq<u8>, SlotView>,
    Seq<Option<LookupView>>,
)
    decreases calls.len(),
{
    if calls.len() == 0 {
        (cache, Seq::empty())
    } else {
        let (before, answers) = cache_run(cache, calls.drop_last());
        let (after, answer) = call_step(before, calls.last());
        (after, answers.push(answer))
    }
}

/// Single flight. When a caller asks for a token that the cache does not
/// hold, that caller is told to fetch, and whatever calls follow before the
/// exchange is settled, from however many callers and for whatever tokens,
/// every other caller who asks for the same token is told to wait: one
/// exchange is made for the token, not more.
pub proof fn lemma_single_flight(
    cache: Map<Seq<u8>, SlotView>,
    key: Seq<u8>,
    now: Timestamp,
    calls: Seq<CacheCall>,
)
    requires
        !cache.contains_key(key),
        forall|i: int| 0 <= i < calls.len() ==> !(#[trigger] calls[i]).settles(key),
    ensures
        ({
            let (started, answer) = lookup_step(cache, key, now);
            let (after, answers) = cache_run(started, calls);
            &&& answer == LookupView::Fetch
            &&& is_pending(after, key)
            &&& answers.len() == calls.len()
            &&& forall|i: int|
                0 <= i < calls.len() && (#[trigger] calls[i]).asks_for(key) ==> answers[i] == Some(
                    LookupView::Wait,
                )
        }),
{
    lemma_pending_stays_pending(lookup_step(cache, key, now).0, key, calls);
}

/// While the exchange for a token is in flight and not settled, everyone
/// who asks for the token is told to wait.
pub proof fn lemma_pending_stays_pending(
    cache: Map<Seq<u8>, SlotView>,
    key: Seq<u8>,
    calls: Seq<CacheCall>,
)
    requires
        is_pending(cache, key),
        forall|i: int| 0 <= i < calls.len() ==> !(#[trigger] calls[i]).settles(key),
    ensures
        ({
            let (after, answers) = cache_run(cache, calls);
            &&& is_pending(after, key)
            &&& answers.len() == calls.len()
            &&& forall|i: int|
                0 <= i < calls.len() && (#[trigger] calls[i]).asks_for(key) ==> answers[i] == Some(
                    LookupView::Wait,
                )
        }),
    decreases calls.len(),
{
    if calls.len() > 0 {
        let front = calls.drop_last();
        assert forall|i: int| 0 <= i < front.len() implies !(#[trigger] front[i]).settles(key) by {
            assert(front[i] == calls[i]);
        }
        lemma_pending_stays_pending(cache, key, front);
        let (before, answers) = cache_run(cache, front);
        let last = calls[calls.len() - 1];
        assert(!last.settles(key));
        let (after, all) = cache_run(cache, calls);
        assert forall|i: int| 0 <= i < calls.len() && (#[trigger] calls[i]).asks_for(key) implies all[i]
            == Some(LookupView::Wait) by {
            if i < calls.len() - 1 {
                assert(front[i] == calls[i]);
                assert(all[i] == answers[i]);
            }
        }
    }
}

/// One result for all. Once the exchange for a token is resolved, everyone
/// who asks for the token gets the outcome of that one exchange: the same
/// credentials, as long as they are valid, or the same failure. Asking
/// changes nothing, so the order of the callers does not matter.
pub proof fn lemma_callers_share_the_outcome(
    cache: Map<Seq<u8>, SlotView>,
    key: Seq<u8>,
    outcome: Result<CredentialsView, CredentialsError>,
    now: Timestamp,
)
    requires
        is_pending(cache, key),
    ensures
        ({
            let resolved = resolve_step(cache, key, outcome);
            match outcome {
                Ok(c) => c.valid_at(now) ==> lookup_step(resolved, key, now) == (
                    resolved,
                    LookupView::Ready(c),
                ),
                Err(e) => lookup_step(resolved, key, now) == (resolved, LookupView::Failed(e)),
            }
        }),
{
}

/// Credentials that have expired are never handed out.
pub proof fn lemma_expired_is_never_served(
    cache: Map<Seq<u8>, SlotView>,
    key: Seq<u8>,
    now: Timestamp,
)
    ensures
        lookup_step(cache, key, now).1 matches LookupView::Ready(c) ==> c.valid_at(now),
{
}

/// The first caller to ask after the credentials of a token have expired
/// is told to fetch, and until that exchange is settled every other caller
/// is told to wait: expiry starts one fresh exchange, not more.
pub proof fn lemma_expiry_starts_one_exchange(
    cache: Map<Seq<u8>, SlotView>,
    key: Seq<u8>,
    now: Timestamp,
    calls: Seq<CacheCall>,
)
    requires
        cache.contains_key(key),
        cache[key] matches SlotView::Ready(c) && !c.valid_at(now),
        forall|i: int| 0 <= i < calls.len() ==> !(#[trigger] calls[i]).settles(key),
    ensures
        ({
            let (started, answer) = lookup_step(cache, key, now);
            let (after, answers) = cache_run(started, calls);
            &&& answer == LookupView::Fetch
            &&& is_pending(after, key)
            &&& answers.len() == calls.len()
            &&& forall|i: int|
                0 <= i < calls.len() && (#[trigger] calls[i]).asks_for(key) ==> answers[i] == Some(
                    LookupView::Wait,
                )
        }),
{
    lemma_pending_stays_pending(lookup_step(cache, key, now).0, key, calls);
}

/// One entry of the cache.
struct CacheEntry {
    key: Vec<u8>,
    slot: Slot,
}

/// The map that a list of entries stands for.
spec fn map_of(entries: Seq<CacheEntry>) -> Map<Seq<u8>, SlotView>
    decreases entries.len(),
{
    if entries.len() == 0 {
        Map::empty()
    } else {
        map_of(entries.drop_last()).insert(entries.last().key@, entries.last().slot@)
    }
}

/// Whether no two entries have the same key.
spec fn keys_differ(entries: Seq<CacheEntry>) -> bool {
    forall|i: int, j: int|
        0 <= i < j < entries.len() ==> (#[trigger] entries[i]).key@ != (#[trigger] entries[j]).key@
}

/// A list without double keys has none in its front either.
proof fn lemma_front_keys_differ(entries: Seq<CacheEntry>)
    requires
        keys_differ(entries),
        entries.len() > 0,
    ensures
        keys_differ(entries.drop_last()),
{
    let front = entries.drop_last();
    assert forall|i: int, j: int| 0 <= i < j < front.len() implies (#[trigger] front[i]).key@
        != (#[trigger] front[j]).key@ by {
        assert(front[i] == entries[i]);
        assert(front[j] == entries[j]);
    }
}

/// The map of a list without double keys holds each entry under its
/// key, and nothing else.
proof fn lemma_map_of(entries: Seq<CacheEntry>)
    requires
        keys_differ(entries),
    ensures
        forall|i: int|
            0 <= i < entries.len() ==> map_of(entries).contains_key((#[trigger] entries[i]).key@)
                && map_of(entries)[entries[i].key@] == entries[i].slot@,
        forall|k: Seq<u8>| #[trigger]
            map_of(entries).contains_key(k) ==> exists|i: int|
                0 <= i < entries.len() && (#[trigger] entries[i]).key@ == k,
    decreases entries.len(),
{
    if entries.len() > 0 {
        let front = entries.drop_last();
        lemma_front_keys_differ(entries);
        lemma_map_of(front);
        assert forall|i: int| 0 <= i < entries.len() implies map_of(entries).contains_key(
            (#[trigger] entries[i]).key@,
        ) && map_of(entries)[entries[i].key@] == entries[i].slot@ by {
            if i < entries.len() - 1 {
                assert(front[i] == entries[i]);
                assert(entries[i].key@ != entries[entries.len() - 1].key@);
            }
        }
        assert forall|k: Seq<u8>| #[trigger] map_of(entries).contains_key(k) implies exists|i: int|
            0 <= i < entries.len() && (#[trigger] entries[i]).key@ == k by {
            if k == entries.last().key@ {
                assert(entries[entries.len() - 1].key@ == k);
            } else {
                assert(map_of(front).contains_key(k));
                let i = choose|i: int| 0 <= i < front.len() && (#[trigger] front[i]).key@ == k;
                assert(entries[i] == front[i]);
            }
        }
    }
}

/// Putting another slot in the place of an entry sets the slot of its key
/// in the map.
proof fn lemma_map_of_update(entries: Seq<CacheEntry>, i: int, entry: CacheEntry)
    requires
        keys_differ(entries),
        0 <= i < entries.len(),
        entry.key@ == entries[i].key@,
    ensures
        keys_differ(entries.update(i, entry)),
        map_of(entries.update(i, entry)) == map_of(entries).insert(entry.key@, entry.slot@),
    decreases entries.len(),
{
    let updated = entries.update(i, entry);
    assert forall|a: int, b: int| 0 <= a < b < updated.len() implies (#[trigger] updated[a]).key@
        != (#[trigger] updated[b]).key@ by {
        assert(updated[a].key@ == entries[a].key@);
        assert(updated[b].key@ == entries[b].key@);
    }
    let front = entries.drop_last();
    if i == entries.len() - 1 {
        assert(updated.drop_last() == front);
        assert(map_of(updated) == map_of(entries).insert(entry.key@, entry.slot@));
    } else {
        lemma_front_keys_differ(entries);
        assert(front[i] == entries[i]);
        lemma_map_of_update(front, i, entry);
        assert(updated.drop_last() == front.update(i, entry));
        assert(updated.last() == entries.last());
        assert(entries[i].key@ != entries[entries.len() - 1].key@);
        assert(map_of(updated) == map_of(entries).insert(entry.key@, entry.slot@));
    }
}

/// Taking an entry out of the list removes its key from the map.
proof fn lemma_map_of_remove(entries: Seq<CacheEntry>, i: int)
    requires
        keys_differ(entries),
        0 <= i < entries.len(),
    ensures
        keys_differ(entries.remove(i)),
        map_of(entries.remove(i)) == map_of(entries).remove(entries[i].key@),
    decreases entries.len(),
{
    let removed = entries.remove(i);
    assert forall|a: int, b: int| 0 <= a < b < removed.len() implies (#[trigger] removed[a]).key@
        != (#[trigger] removed[b]).key@ by {
        assert(removed[a] == entries[if a < i { a } else { a + 1 }]);
        assert(removed[b] == entries[if b < i { b } else { b + 1 }]);
    }
    let front = entries.drop_last();
    lemma_front_keys_differ(entries);
    if i == entries.len() - 1 {
        assert(removed == front);
        lemma_map_of(front);
        assert(!map_of(front).contains_key(entries[i].key@)) by {
            if map_of(front).contains_key(entries[i].key@) {
                let j = choose|j: int|
                    0 <= j < front.len() && (#[trigger] front[j]).key@ == entries[i].key@;
                assert(front[j] == entries[j]);
            }
        }
        assert(map_of(removed) == map_of(entries).remove(entries[i].key@));
    } else {
        assert(front[i] == entries[i]);
        lemma_map_of_remove(front, i);
        assert(removed.drop_last() == front.remove(i));
        assert(removed.last() == entries.last());
        assert(entries[i].key@ != entries[entries.len() - 1].key@);
        assert(map_of(removed) == map_of(entries).remove(entries[i].key@));
    }
}

/// How many seconds the program around the cache leaves a failed slot on
/// file before it clears it away with `discard_failed`: long enough for
/// those who waited for the exchange to see its failure.
pub const FAILURE_HOLD_SECONDS: u64 = 1;

/// The credential cache of the gateway, and the endpoint of the identity
/// service that it exchanges tokens with. The slots are kept in a list
/// that is searched in order and holds no key twice.
pub struct CredentialsManager {
    endpoint: String,
    entries: Vec<CacheEntry>,
}

/// What a `CredentialsManager` holds: the endpoint of the identity service,
/// and the slots of the cache by the key of their token.
pub struct CredentialsManagerView {
    pub endpoint: Seq<char>,
    pub slots: Map<Seq<u8>, SlotView>,
}

impl View for CredentialsManager {
    type V = CredentialsManagerView;

    closed spec fn view(&self) -> CredentialsManagerView {
        CredentialsManagerView { endpoint: self.endpoint@, slots: map_of(self.entries@) }
    }
}

/// Whether two keys hold the same bytes.
fn same_key(a: &Vec<u8>, b: &Vec<u8>) -> (r: bool)
    ensures
        r == (a@ == b@),
{
    if a.len() != b.len() {
        return false;
    }
    let mut i: usize = 0;
    while i < a.len()
        invariant
            i <= a.len(),
            a.len() == b.len(),
            forall|j: int| 0 <= j < i ==> a@[j] == b@[j],
        decreases a.len() - i,
    {
        if a[i] != b[i] {
            return false;
        }
        i += 1;
    }
    assert(a@ =~= b@);
    true
}

/// The place of the entry with the given key, if there is one.
fn find_entry(entries: &Vec<CacheEntry>, key: &Vec<u8>) -> (r: Option<usize>)
    ensures
        match r {
            Some(i) => i < entries.len() && entries@[i as int].key@ == key@,
            None => forall|j: int| 0 <= j < entries.len() ==> (#[trigger] entries@[j]).key@ != key@,
        },
{
    let mut i: usize = 0;
    while i < entries.len()
        invariant
            i <= entries.len(),
            forall|j: int| 0 <= j < i ==> (#[trigger] entries@[j]).key@ != key@,
        decreases entries.len() - i,
    {
        if same_key(&entries[i].key, key) {
            return Some(i);
        }
        i += 1;
    }
    None
}

impl CredentialsManager {
    /// No two entries have the same key.
    #[verifier::type_invariant]
    spec fn well_formed(self) -> bool {
        keys_differ(self.entries@)
    }

    /// An empty cache for the identity service at `endpoint`.
    pub fn new(endpoint: &str) -> (manager: CredentialsManager)
        ensures
            manager@.slots == Map::<Seq<u8>, SlotView>::empty(),
            manager@.endpoint == endpoint@,
    {
        CredentialsManager { endpoint: String::from_str(endpoint), entries: Vec::new() }
    }

    /// The endpoint of the identity service.
    pub fn endpoint(&self) -> (e: &str)
        ensures
            e@ == self@.endpoint,
    {
        self.endpoint.as_str()
    }

    /// Answers a caller who wants the credentials of `token` at `now`: one
    /// pass through the cache. A caller told to fetch makes the exchange and
    /// hands its outcome to `resolve`; a caller told to wait asks again once
    /// the slot is resolved.
    pub fn get_credentials(&mut self, token: &str, now: Timestamp) -> (answer: Lookup)
        ensures
            (final(self)@.slots, answer@) == lookup_step(old(self)@.slots, token_key(token@), now),
            final(self)@.endpoint == old(self)@.endpoint,
    {
        proof {
            use_type_invariant(&*self);
            lemma_map_of(self.entries@);
        }
        let key = token_key_of(token);
        match find_entry(&self.entries, &key) {
            None => {
                let mut entries: Vec<CacheEntry> = Vec::new();
                std::mem::swap(&mut entries, &mut self.entries);
                let ghost before = entries@;
                entries.push(CacheEntry { key, slot: Slot::Pending });
                proof {
                    assert(entries@.drop_last() == before);
                }
                self.entries = entries;
                Lookup::Fetch
            },
            Some(i) => {
                let expired = match &self.entries[i].slot {
                    Slot::Pending => {
                        return Lookup::Wait;
                    },
                    Slot::Failed(e) => {
                        return Lookup::Failed(*e);
                    },
                    Slot::Ready(c) => {
                        if !c.is_expired(now) {
                            return Lookup::Ready(c.clone());
                        }
                        true
                    },
                };
                let mut entries: Vec<CacheEntry> = Vec::new();
                std::mem::swap(&mut entries, &mut self.entries);
                proof {
                    lemma_map_of_update(
                        entries@,
                        i as int,
                        CacheEntry { key, slot: Slot::Pending },
                    );
                }
                entries.set(i, CacheEntry { key, slot: Slot::Pending });
                self.entries = entries;
                Lookup::Fetch
            },
        }
    }

    /// Takes in the outcome of the exchange for `token`. Says whether a
    /// pending slot was there to resolve; if none was, nothing changes.
    pub fn resolve(&mut self, token: &str, outcome: Result<Credentials, CredentialsError>) -> (applied:
        bool)
        ensures
            final(self)@.slots == resolve_step(
                old(self)@.slots,
                token_key(token@),
                result_view(outcome),
            ),
            applied == is_pending(old(self)@.slots, token_key(token@)),
            final(self)@.endpoint == old(self)@.endpoint,
    {
        proof {
            use_type_invariant(&*self);
            lemma_map_of(self.entries@);
        }
        let key = token_key_of(token);
        match find_entry(&self.entries, &key) {
            None => false,
            Some(i) => {
                let pending = match &self.entries[i].slot {
                    Slot::Pending => true,
                    _ => false,
                };
                if !pending {
                    return false;
                }
                let slot = match outcome {
                    Ok(c) => Slot::Ready(c),
                    Err(e) => Slot::Failed(e),
                };
                let mut entries: Vec<CacheEntry> = Vec::new();
                std::mem::swap(&mut entries, &mut self.entries);
                proof {
                    lemma_map_of_update(entries@, i as int, CacheEntry { key, slot });
                }
                entries.set(i, CacheEntry { key, slot });
                self.entries = entries;
                true
            },
        }
    }

    /// Clears away the slot of `token` if its exchange has failed, so that
    /// the next caller makes a fresh exchange. Says whether it did.
    pub fn discard_failed(&mut self, token: &str) -> (removed: bool)
        ensures
            final(self)@.slots == discard_step(old(self)@.slots, token_key(token@)),
            removed == (old(self)@.slots.contains_key(token_key(token@)) && old(self)@.slots[token_key(
                token@,
            )] is Failed),
            final(self)@.endpoint == old(self)@.endpoint,
    {
        proof {
            use_type_invariant(&*self);
            lemma_map_of(self.entries@);
        }
        let key = token_key_of(token);
        match find_entry(&self.entries, &key) {
            None => false,
            Some(i) => {
                let failed = match &self.entries[i].slot {
                    Slot::Failed(_) => true,
                    _ => false,
                };
                if !failed {
                    return false;
                }
                let mut entries: Vec<CacheEntry> = Vec::new();
                std::mem::swap(&mut entries, &mut self.entries);
                proof {
                    lemma_map_of_remove(entries@, i as int);
                }
                entries.remove(i);
                self.entries = entries;
                true
            },
        }
    }

    /// How many tokens the cache holds a slot for.
    pub fn len(&self) -> (n: usize)
        ensures
            n == self@.slots.len(),
            self@.slots.dom().finite(),
    {
        proof {
            use_type_invariant(&*self);
            lemma_map_of_len(self.entries@);
        }
        self.entries.len()
    }
}

/// The map of a list without double keys has as many keys as the list
/// has entries.
proof fn lemma_map_of_len(entries: Seq<CacheEntry>)
    requires
        keys_differ(entries),
    ensures
        map_of(entries).dom().finite(),
        map_of(entries).len() == entries.len(),
    decreases entries.len(),
{
    if entries.len() > 0 {
        let front = entries.drop_last();
        lemma_front_keys_differ(entries);
        lemma_map_of_len(front);
        lemma_map_of(front);
        assert(!map_of(front).contains_key(entries.last().key@)) by {
            if map_of(front).contains_key(entries.last().key@) {
                let j = choose|j: int|
                    0 <= j < front.len() && (#[trigger] front[j]).key@ == entries.last().key@;
                assert(front[j] == entries[j]);
                assert(entries[entries.len() - 1].key@ == entries.last().key@);
            }
        }
    }
}

} // verus!
