//! Replay protection: a keyed store that accepts a given `(identity, token)`
//! pair at most once per window.
//!
//! Each identity owns an entry holding the instant its current window began
//! (`last_reset`) and the tokens presented since. A check first rolls the
//! entry over if its window has elapsed, then records the presented token and
//! reports whether it was new. Entries are created lazily and never removed.

use crate::WINDOW_SECONDS;
use vstd::prelude::*;

verus! {

/// Per-identity record: the instant its current window began and the tokens
/// presented for it since then.
pub struct CacheEntry {
    /// The identity this entry belongs to.
    pub identity: String,
    /// The instant (seconds since epoch) this entry's token set was last
    /// cleared.
    pub last_reset: u64,
    /// Tokens presented for this identity since `last_reset`, without
    /// duplicates.
    pub seen_tokens: Vec<String>,
}

/// Mathematical content of one entry: when its window began and the set of
/// tokens presented since.
pub struct EntryView {
    pub last_reset: u64,
    pub seen: Set<Seq<char>>,
}

/// The set of token values held in a list of token strings.
pub open spec fn tokens_set(ts: Seq<String>) -> Set<Seq<char>> {
    Set::new(|t: Seq<char>| exists|k: int| 0 <= k < ts.len() && ts[k]@ == t)
}

impl View for CacheEntry {
    type V = EntryView;

    open spec fn view(&self) -> EntryView {
        EntryView { last_reset: self.last_reset, seen: tokens_set(self.seen_tokens@) }
    }
}

/// Whether some entry in `s` belongs to `id`.
pub open spec fn has_id(s: Seq<CacheEntry>, id: Seq<char>) -> bool {
    exists|k: int| 0 <= k < s.len() && s[k].identity@ == id
}

/// Whether the entries of `s` belong to pairwise distinct identities.
pub open spec fn ids_distinct(s: Seq<CacheEntry>) -> bool {
    forall|i: int, j: int|
        0 <= i < j < s.len() ==> s[i].identity@ != s[j].identity@
}

/// Whether an entry's token list holds no duplicates.
pub open spec fn entry_wf(e: CacheEntry) -> bool {
    forall|k1: int, k2: int|
        0 <= k1 < k2 < e.seen_tokens@.len() ==> e.seen_tokens@[k1]@ != e.seen_tokens@[k2]@
}

/// The finite map described by an entry list.
pub open spec fn as_map(s: Seq<CacheEntry>) -> Map<Seq<char>, EntryView>
    decreases s.len(),
{
    if s.len() == 0 {
        Map::empty()
    } else {
        as_map(s.drop_last()).insert(s.last().identity@, s.last()@)
    }
}

/// The map of an entry list has exactly the listed identities as its domain.
pub proof fn lemma_as_map_dom(s: Seq<CacheEntry>)
    ensures
        forall|id: Seq<char>| #[trigger] as_map(s).dom().contains(id) <==> has_id(s, id),
    decreases s.len(),
{
    if s.len() > 0 {
        let dl = s.drop_last();
        lemma_as_map_dom(dl);
        assert forall|id: Seq<char>| #[trigger] as_map(s).dom().contains(id) implies has_id(
            s,
            id,
        ) by {
            if id == s.last().identity@ {
                assert(s[s.len() - 1].identity@ == id);
            } else {
                assert(as_map(dl).dom().contains(id));
                assert(has_id(dl, id));
                let k = choose|k: int| 0 <= k < dl.len() && dl[k].identity@ == id;
                assert(dl[k] == s[k]);
                assert(s[k].identity@ == id);
            }
        }
        assert forall|id: Seq<char>| has_id(s, id) implies #[trigger] as_map(s).dom().contains(
            id,
        ) by {
            let k = choose|k: int| 0 <= k < s.len() && s[k].identity@ == id;
            if k < s.len() - 1 {
                assert(dl[k] == s[k]);
                assert(dl[k].identity@ == id);
                assert(has_id(dl, id));
                assert(as_map(dl).dom().contains(id));
            }
        }
    }
}

/// With distinct identities, the map sends each listed identity to the view
/// of its entry.
pub proof fn lemma_as_map_index(s: Seq<CacheEntry>, i: int)
    requires
        ids_distinct(s),
        0 <= i < s.len(),
    ensures
        as_map(s).dom().contains(s[i].identity@),
        as_map(s)[s[i].identity@] == s[i]@,
    decreases s.len(),
{
    let dl = s.drop_last();
    if i == s.len() - 1 {
    } else {
        assert(ids_distinct(dl));
        lemma_as_map_index(dl, i);
        assert(s[i].identity@ != s[s.len() - 1].identity@);
    }
}

/// Replacing the entry at `i` by one for the same identity updates the map at
/// that identity and nothing else.
pub proof fn lemma_as_map_update(s: Seq<CacheEntry>, i: int, e: CacheEntry)
    requires
        ids_distinct(s),
        0 <= i < s.len(),
        e.identity@ == s[i].identity@,
    ensures
        as_map(s.update(i, e)) == as_map(s).insert(e.identity@, e@),
    decreases s.len(),
{
    let dl = s.drop_last();
    let t = s.update(i, e);
    if i == s.len() - 1 {
        assert(t.drop_last() =~= dl);
        assert(t.last() == e);
        assert(as_map(t) =~= as_map(s).insert(e.identity@, e@));
    } else {
        assert(t.drop_last() =~= dl.update(i, e));
        assert(t.last() == s.last());
        assert(ids_distinct(dl));
        lemma_as_map_update(dl, i, e);
        assert(e.identity@ != s.last().identity@);
        assert(as_map(t) =~= as_map(s).insert(e.identity@, e@));
    }
}

/// Appending an entry for a new identity extends the map by that identity.
pub proof fn lemma_as_map_push(s: Seq<CacheEntry>, e: CacheEntry)
    ensures
        as_map(s.push(e)) == as_map(s).insert(e.identity@, e@),
{
    assert(s.push(e).drop_last() =~= s);
    assert(s.push(e).last() == e);
}

/// Appending a token to a list adds its value to the token set.
pub proof fn lemma_tokens_set_push(ts: Seq<String>, tok: String)
    ensures
        tokens_set(ts.push(tok)) == tokens_set(ts).insert(tok@),
{
    let l = tokens_set(ts.push(tok));
    let r = tokens_set(ts).insert(tok@);
    assert forall|t: Seq<char>| l.contains(t) implies r.contains(t) by {
        let k = choose|k: int| 0 <= k < ts.push(tok).len() && ts.push(tok)[k]@ == t;
        if k < ts.len() {
            assert(ts[k]@ == t);
        }
    }
    assert forall|t: Seq<char>| r.contains(t) implies l.contains(t) by {
        if t == tok@ {
            assert(ts.push(tok)[ts.len() as int]@ == t);
        } else {
            let k = choose|k: int| 0 <= k < ts.len() && ts[k]@ == t;
            assert(ts.push(tok)[k]@ == t);
        }
    }
    assert(l =~= r);
}

/// An empty token list holds the empty token set.
pub proof fn lemma_tokens_set_empty(ts: Seq<String>)
    requires
        ts.len() == 0,
    ensures
        tokens_set(ts) == Set::<Seq<char>>::empty(),
{
    assert(tokens_set(ts) =~= Set::<Seq<char>>::empty());
}

/// Whether an entry's window has elapsed at clock reading `now`.
pub open spec fn entry_expired(e: EntryView, now: u64) -> bool {
    now > e.last_reset + WINDOW_SECONDS
}

/// The entry as the check sees it at `now`: rolled over to a fresh window if
/// the old one has elapsed, untouched otherwise.
pub open spec fn entry_rolled(e: EntryView, now: u64) -> EntryView {
    if entry_expired(e, now) {
        EntryView { last_reset: now, seen: Set::empty() }
    } else {
        e
    }
}

/// Whether a check of `(id, tok)` at `now` against the cache state `m`
/// accepts: the identity is unknown, or the token is not among those
/// presented in the identity's current window.
pub open spec fn cache_accepts(
    m: Map<Seq<char>, EntryView>,
    id: Seq<char>,
    tok: Seq<char>,
    now: u64,
) -> bool {
    !m.dom().contains(id) || !entry_rolled(m[id], now).seen.contains(tok)
}

/// The cache state after a check of `(id, tok)` at `now` against `m`: the
/// identity's entry is created or rolled over as needed, and the presented
/// token is recorded whenever it was not already present.
pub open spec fn cache_after(
    m: Map<Seq<char>, EntryView>,
    id: Seq<char>,
    tok: Seq<char>,
    now: u64,
) -> Map<Seq<char>, EntryView> {
    if !m.dom().contains(id) {
        m.insert(id, EntryView { last_reset: now, seen: Set::empty().insert(tok) })
    } else {
        let e = entry_rolled(m[id], now);
        if e.seen.contains(tok) {
            m.insert(id, e)
        } else {
            m.insert(id, EntryView { last_reset: e.last_reset, seen: e.seen.insert(tok) })
        }
    }
}

/// Keyed store recording, per identity, the instant of its last reset and the
/// tokens accepted since. Owns accept-once-per-window bookkeeping and nothing
/// else.
pub struct ReplayCache {
    entries: Vec<CacheEntry>,
}

impl View for ReplayCache {
    type V = Map<Seq<char>, EntryView>;

    closed spec fn view(&self) -> Map<Seq<char>, EntryView> {
        as_map(self.entries@)
    }
}

/// Decides whether `token` occurs in `ts`.
fn contains_token(ts: &Vec<String>, token: &str) -> (r: bool)
    ensures
        r == tokens_set(ts@).contains(token@),
{
    let owned: String = token.to_owned();
    let n = ts.len();
    let mut j: usize = 0;
    while j < n
        invariant
            n == ts@.len(),
            0 <= j <= n,
            owned@ == token@,
            forall|k: int| 0 <= k < j ==> ts@[k]@ != token@,
        decreases n - j,
    {
        if ts[j] == owned {
            assert(ts@[j as int]@ == token@);
            return true;
        }
        j = j + 1;
    }
    false
}

impl ReplayCache {
    /// Identities are pairwise distinct and no entry lists a token twice.
    pub closed spec fn wf(&self) -> bool {
        &&& ids_distinct(self.entries@)
        &&& forall|i: int| 0 <= i < self.entries@.len() ==> entry_wf(#[trigger] self.entries@[i])
    }

    /// Creates an empty cache: no identity has been seen.
    pub fn new() -> (c: ReplayCache)
        ensures
            c.wf(),
            c@ == Map::<Seq<char>, EntryView>::empty(),
    {
        ReplayCache { entries: Vec::new() }
    }

    /// Looks up the position of the entry for `identity`, if any.
    fn find_entry(&self, identity: &str) -> (r: Option<usize>)
        ensures
            match r {
                Some(i) => i < self.entries@.len() && self.entries@[i as int].identity@
                    == identity@,
                None => !has_id(self.entries@, identity@),
            },
    {
        let owned: String = identity.to_owned();
        let n = self.entries.len();
        let mut j: usize = 0;
        while j < n
            invariant
                n == self.entries@.len(),
                0 <= j <= n,
                owned@ == identity@,
                forall|k: int| 0 <= k < j ==> self.entries@[k].identity@ != identity@,
            decreases n - j,
        {
            if self.entries[j].identity == owned {
                return Some(j);
            }
            j = j + 1;
        }
        None
    }

    /// Atomically checks and records one presentation of `(identity, token)`
    /// at clock reading `now`: rolls the identity's window over if it has
    /// elapsed, then accepts exactly when this token has not yet been
    /// presented in the current window, recording it either way.
    pub fn check_and_record(&mut self, identity: &str, token: &str, now: u64) -> (accepted: bool)
        requires
            old(self).wf(),
        ensures
            final(self).wf(),
            accepted == cache_accepts(old(self)@, identity@, token@, now),
            final(self)@ == cache_after(old(self)@, identity@, token@, now),
    {
        let ghost m = self@;
        let ghost id = identity@;
        proof {
            lemma_as_map_dom(self.entries@);
        }
        match self.find_entry(identity) {
            None => {
                let mut seen: Vec<String> = Vec::new();
                seen.push(token.to_owned());
                let entry = CacheEntry {
                    identity: identity.to_owned(),
                    last_reset: now,
                    seen_tokens: seen,
                };
                proof {
                    lemma_as_map_push(self.entries@, entry);
                    lemma_tokens_set_empty(Seq::<String>::empty());
                    lemma_tokens_set_push(Seq::<String>::empty(), entry.seen_tokens@[0]);
                    assert(entry.seen_tokens@ =~= Seq::<String>::empty().push(
                        entry.seen_tokens@[0],
                    ));
                    assert(entry@ == (EntryView {
                        last_reset: now,
                        seen: Set::empty().insert(token@),
                    }));
                }
                self.entries.push(entry);
                proof {
                    assert(self@ == cache_after(m, id, token@, now));
                    assert forall|i: int, j: int|
                        0 <= i < j < self.entries@.len() implies self.entries@[i].identity@
                        != self.entries@[j].identity@ by {
                        if j == self.entries@.len() - 1 {
                            assert(!has_id(old(self).entries@, id));
                            assert(old(self).entries@[i].identity@ != id);
                        }
                    }
                }
                true
            },
            Some(i) => {
                let ghost entries0 = self.entries@;
                proof {
                    lemma_as_map_index(entries0, i as int);
                    assert(m.dom().contains(id));
                    assert(m[id] == entries0[i as int]@);
                }
                let ghost e0 = m[id];
                let expired = now >= WINDOW_SECONDS && self.entries[i].last_reset < now
                    - WINDOW_SECONDS;
                proof {
                    assert(expired == entry_expired(e0, now));
                }
                if expired {
                    let entry = &mut self.entries[i];
                    entry.last_reset = now;
                    entry.seen_tokens = Vec::new();
                }
                let ghost entries1 = self.entries@;
                let ghost e1 = entry_rolled(e0, now);
                proof {
                    if expired {
                        lemma_tokens_set_empty(entries1[i as int].seen_tokens@);
                        assert(entries1[i as int]@ == e1);
                        assert(entries1 == entries0.update(i as int, entries1[i as int]));
                        lemma_as_map_update(entries0, i as int, entries1[i as int]);
                    } else {
                        assert(entries1[i as int]@ == e1);
                    }
                    assert(ids_distinct(entries1));
                    assert(forall|k: int|
                        0 <= k < entries1.len() ==> entry_wf(#[trigger] entries1[k]));
                    assert(as_map(entries1) == m.insert(id, e1)) by {
                        if !expired {
                            lemma_as_map_index(entries1, i as int);
                            assert(m.insert(id, e1) =~= m);
                        }
                    }
                }
                let is_replay = contains_token(&self.entries[i].seen_tokens, token);
                proof {
                    assert(is_replay == e1.seen.contains(token@));
                }
                if is_replay {
                    proof {
                        assert(!cache_accepts(m, id, token@, now));
                        assert(cache_after(m, id, token@, now) == m.insert(id, e1));
                    }
                    false
                } else {
                    let entry = &mut self.entries[i];
                    entry.seen_tokens.push(token.to_owned());
                    proof {
                        let e2 = (EntryView {
                            last_reset: e1.last_reset,
                            seen: e1.seen.insert(token@),
                        });
                        lemma_tokens_set_push(
                            entries1[i as int].seen_tokens@,
                            self.entries@[i as int].seen_tokens@.last(),
                        );
                        assert(self.entries@[i as int].seen_tokens@ =~= entries1[
                            i as int
                        ].seen_tokens@.push(self.entries@[i as int].seen_tokens@.last()));
                        assert(self.entries@[i as int]@ == e2);
                        assert(self.entries@ == entries1.update(
                            i as int,
                            self.entries@[i as int],
                        ));
                        lemma_as_map_update(entries1, i as int, self.entries@[i as int]);
                        assert(as_map(self.entries@) =~= cache_after(m, id, token@, now));
                        assert(entry_wf(self.entries@[i as int])) by {
                            let ts1 = entries1[i as int].seen_tokens@;
                            assert(forall|k: int| 0 <= k < ts1.len() ==> ts1[k]@ != token@);
                        }
                        assert(ids_distinct(self.entries@));
                        assert(forall|k: int|
                            0 <= k < self.entries@.len() ==> entry_wf(
                                #[trigger] self.entries@[k],
                            ));
                    }
                    true
                }
            },
        }
    }
}

/// Checks for one identity leave every other identity's standing — and the
/// outcome of its checks — untouched, even for an identical token string.
pub proof fn lemma_per_identity_isolation(
    m: Map<Seq<char>, EntryView>,
    x: Seq<char>,
    y: Seq<char>,
    tokx: Seq<char>,
    toky: Seq<char>,
    nowx: u64,
    nowy: u64,
)
    requires
        x != y,
    ensures
        cache_accepts(cache_after(m, x, tokx, nowx), y, toky, nowy) == cache_accepts(
            m,
            y,
            toky,
            nowy,
        ),
        cache_after(m, x, tokx, nowx).dom().contains(y) == m.dom().contains(y),
        m.dom().contains(y) ==> cache_after(m, x, tokx, nowx)[y] == m[y],
{
}

/// Once a window has elapsed unvisited, the next check sees a freshly reset
/// entry: it is accepted, and the entry afterwards holds the new contact time
/// and that token alone.
pub proof fn lemma_reset_clears_history(
    m: Map<Seq<char>, EntryView>,
    x: Seq<char>,
    tok: Seq<char>,
    now: u64,
)
    requires
        m.dom().contains(x),
        now > m[x].last_reset + WINDOW_SECONDS,
    ensures
        cache_accepts(m, x, tok, now),
        cache_after(m, x, tok, now)[x] == (EntryView {
            last_reset: now,
            seen: Set::empty().insert(tok),
        }),
{
    assert(entry_rolled(m[x], now).seen =~= Set::<Seq<char>>::empty());
}

/// A check never removes an identity: the cache keeps every entry it had,
/// and gains at most the one presented identity.
pub proof fn lemma_cache_only_grows(
    m: Map<Seq<char>, EntryView>,
    x: Seq<char>,
    tok: Seq<char>,
    now: u64,
)
    ensures
        forall|y: Seq<char>|
            m.dom().contains(y) ==> #[trigger] cache_after(m, x, tok, now).dom().contains(y),
        forall|y: Seq<char>|
            #[trigger] cache_after(m, x, tok, now).dom().contains(y) ==> m.dom().contains(y) || y
                == x,
{
}

/// A check always leaves the presented token recorded for its identity.
pub proof fn lemma_presented_token_recorded(
    m: Map<Seq<char>, EntryView>,
    x: Seq<char>,
    tok: Seq<char>,
    now: u64,
)
    ensures
        cache_after(m, x, tok, now).dom().contains(x),
        cache_after(m, x, tok, now)[x].seen.contains(tok),
{
}

/// Re-presenting a pair at the same instant is always rejected: of two
/// serialized checks of the same `(identity, token)` pair at one clock
/// reading, the second never accepts.
pub proof fn lemma_replay_rejected_same_instant(
    m: Map<Seq<char>, EntryView>,
    x: Seq<char>,
    tok: Seq<char>,
    now: u64,
)
    ensures
        !cache_accepts(cache_after(m, x, tok, now), x, tok, now),
{
    lemma_presented_token_recorded(m, x, tok, now);
    let m1 = cache_after(m, x, tok, now);
    assert(now <= m1[x].last_reset + WINDOW_SECONDS);
    assert(entry_rolled(m1[x], now) == m1[x]);
}

/// Re-presenting a pair is rejected as long as the identity's window has not
/// rolled over in between.
pub proof fn lemma_replay_rejected_within_window(
    m: Map<Seq<char>, EntryView>,
    x: Seq<char>,
    tok: Seq<char>,
    now: u64,
    later: u64,
)
    requires
        later <= cache_after(m, x, tok, now)[x].last_reset + WINDOW_SECONDS,
    ensures
        !cache_accepts(cache_after(m, x, tok, now), x, tok, later),
{
    lemma_presented_token_recorded(m, x, tok, now);
    let m1 = cache_after(m, x, tok, now);
    assert(entry_rolled(m1[x], later) == m1[x]);
}

} // verus!
