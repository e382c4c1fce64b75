//! The registry of git proxy sessions: which upstream and token a capability
//! stands for, and until when.

use vstd::prelude::*;
use vstd::string::*;

use crate::text::same_text;

verus! {

/// How long a push capability is good for, in seconds.
pub const FORGE_PUSH_CAP_TTL: u64 = 3600;

/// What a capability stands for.
#[derive(Debug)]
pub struct GitSessionEntry {
    /// The clone URL, without a credential.
    pub upstream_url: String,
    /// The scoped token.
    pub token: String,
    /// The last instant at which the entry is good, in nanoseconds of a clock
    /// that does not go back.
    pub expires_at: u64,
}

/// The contents of [`GitSessionEntry`].
pub ghost struct EntryView {
    pub upstream_url: Seq<char>,
    pub token: Seq<char>,
    pub expires_at: u64,
}

impl View for GitSessionEntry {
    type V = EntryView;

    open spec fn view(&self) -> EntryView {
        EntryView {
            upstream_url: self.upstream_url@,
            token: self.token@,
            expires_at: self.expires_at,
        }
    }
}

struct Session {
    cap: String,
    entry: GitSessionEntry,
}

/// The registered sessions, by capability.
pub struct GitSessions(Vec<Session>);

spec fn distinct(v: Seq<Session>) -> bool {
    forall|i: int, j: int|
        0 <= i < j < v.len() ==> (#[trigger] v[i]).cap@ != (#[trigger] v[j]).cap@
}

spec fn holds(v: Seq<Session>, cap: Seq<char>) -> bool {
    exists|i: int| 0 <= i < v.len() && (#[trigger] v[i]).cap@ == cap
}

spec fn entry_of(v: Seq<Session>, cap: Seq<char>) -> EntryView {
    v[choose|i: int| 0 <= i < v.len() && (#[trigger] v[i]).cap@ == cap].entry@
}

impl GitSessions {
    #[verifier::type_invariant]
    spec fn inv(self) -> bool {
        distinct(self.0@)
    }
}

impl View for GitSessions {
    type V = Map<Seq<char>, EntryView>;

    closed spec fn view(&self) -> Map<Seq<char>, EntryView> {
        Map::new(|cap: Seq<char>| holds(self.0@, cap), |cap: Seq<char>| entry_of(self.0@, cap))
    }
}

/// In a list that holds each capability once, the entry of a capability is the
/// one that stands beside it.
proof fn lemma_entry(v: Seq<Session>, i: int)
    requires
        distinct(v),
        0 <= i < v.len(),
    ensures
        holds(v, v[i].cap@),
        entry_of(v, v[i].cap@) == v[i].entry@,
{
    let k = choose|k: int| 0 <= k < v.len() && (#[trigger] v[k]).cap@ == v[i].cap@;
    if k < i {
        assert(v[k].cap@ != v[i].cap@);
    } else if i < k {
        assert(v[i].cap@ != v[k].cap@);
    }
}

/// `after` is `before` with the session of `cap`, which stands at `i`, put in
/// place or at the end.
proof fn lemma_put(
    before: Seq<Session>,
    after: Seq<Session>,
    i: int,
    cap: Seq<char>,
    entry: EntryView,
)
    requires
        distinct(before),
        distinct(after),
        0 <= i < after.len(),
        before.len() <= after.len(),
        after[i].cap@ == cap && after[i].entry@ == entry,
        i < before.len() ==> before[i].cap@ == cap,
        forall|j: int|
            0 <= j < after.len() && j != i ==> j < before.len() && #[trigger] after[j] == before[j],
    ensures
        forall|c: Seq<char>| #[trigger] holds(after, c) <==> holds(before, c) || c == cap,
        entry_of(after, cap) == entry,
        forall|c: Seq<char>|
            holds(before, c) && c != cap ==> #[trigger] entry_of(after, c) == entry_of(before, c),
{
    lemma_entry(after, i);
    assert forall|c: Seq<char>| #[trigger]
        holds(after, c) <==> holds(before, c) || c == cap by {
        if holds(after, c) && c != cap {
            let k = choose|k: int| 0 <= k < after.len() && (#[trigger] after[k]).cap@ == c;
            assert(before[k].cap@ == c);
        }
        if holds(before, c) && c != cap {
            let k = choose|k: int| 0 <= k < before.len() && (#[trigger] before[k]).cap@ == c;
            assert(after[k].cap@ == c);
        }
    }
    assert forall|c: Seq<char>| holds(before, c) && c != cap implies #[trigger] entry_of(after, c)
        == entry_of(before, c) by {
        let k = choose|k: int| 0 <= k < before.len() && (#[trigger] before[k]).cap@ == c;
        assert(after[k] == before[k]);
        lemma_entry(after, k);
    }
}

/// Taking out the session at `i` takes out its capability alone.
proof fn lemma_taken(before: Seq<Session>, after: Seq<Session>, i: int)
    requires
        distinct(before),
        distinct(after),
        0 <= i < before.len(),
        after == before.remove(i),
    ensures
        forall|c: Seq<char>| #[trigger]
            holds(after, c) <==> holds(before, c) && c != before[i].cap@,
        forall|c: Seq<char>|
            holds(after, c) ==> #[trigger] entry_of(after, c) == entry_of(before, c),
{
    assert forall|c: Seq<char>| #[trigger]
        holds(after, c) <==> holds(before, c) && c != before[i].cap@ by {
        if holds(after, c) {
            let k = choose|k: int| 0 <= k < after.len() && (#[trigger] after[k]).cap@ == c;
            let m = if k < i {
                k
            } else {
                k + 1
            };
            assert(before[m] == after[k]);
            if m < i {
                assert(before[m].cap@ != before[i].cap@);
            } else {
                assert(before[i].cap@ != before[m].cap@);
            }
        }
        if holds(before, c) && c != before[i].cap@ {
            let k = choose|k: int| 0 <= k < before.len() && (#[trigger] before[k]).cap@ == c;
            let m = if k < i {
                k
            } else {
                k - 1
            };
            assert(after[m] == before[k]);
        }
    }
    assert forall|c: Seq<char>| holds(after, c) implies #[trigger] entry_of(after, c) == entry_of(
        before,
        c,
    ) by {
        let k = choose|k: int| 0 <= k < after.len() && (#[trigger] after[k]).cap@ == c;
        let m = if k < i {
            k
        } else {
            k + 1
        };
        assert(before[m] == after[k]);
        lemma_entry(before, m);
    }
}

/// The position of a capability.
fn position(v: &Vec<Session>, cap: &str) -> (r: Option<usize>)
    ensures
        match r {
            Some(i) => i < v.len() && v@[i as int].cap@ == cap@,
            None => !holds(v@, cap@),
        },
{
    let mut i: usize = 0;
    while i < v.len()
        invariant
            i <= v.len(),
            forall|j: int| 0 <= j < i ==> (#[trigger] v@[j]).cap@ != cap@,
        decreases v.len() - i,
    {
        if same_text(v[i].cap.as_str(), cap) {
            return Some(i);
        }
        i += 1;
    }
    None
}

impl Default for GitSessions {
    fn default() -> (r: Self)
        ensures
            r@ == Map::<Seq<char>, EntryView>::empty(),
    {
        let r = GitSessions(Vec::new());
        assert(r@ =~= Map::<Seq<char>, EntryView>::empty());
        r
    }
}

/// What `cap` stands for at `now`: nothing if it is not registered or its entry
/// has expired.
pub open spec fn resolved(
    sessions: Map<Seq<char>, EntryView>,
    cap: Seq<char>,
    now: u64,
) -> Option<(Seq<char>, Seq<char>)> {
    if sessions.contains_key(cap) && now <= sessions[cap].expires_at {
        Some((sessions[cap].upstream_url, sessions[cap].token))
    } else {
        None
    }
}

impl GitSessions {
    /// Registers `cap`, in place of an entry that it had before.
    pub fn register(&mut self, cap: String, entry: GitSessionEntry)
        ensures
            final(self)@ == old(self)@.insert(cap@, entry@),
    {
        proof {
            use_type_invariant(&*self);
        }
        let ghost before = self.0@;
        let mut v: Vec<Session> = Vec::new();
        std::mem::swap(&mut v, &mut self.0);
        let ghost c = cap@;
        let ghost e = entry@;
        match position(&v, cap.as_str()) {
            Some(i) => {
                v.set(i, Session { cap, entry });
                proof {
                    let after = v@;
                    assert forall|p: int, q: int| 0 <= p < q < after.len() implies (
                    #[trigger] after[p]).cap@ != (#[trigger] after[q]).cap@ by {
                        assert(after[p].cap@ == before[p].cap@);
                        assert(after[q].cap@ == before[q].cap@);
                    }
                    lemma_put(before, after, i as int, c, e);
                }
            },
            None => {
                v.push(Session { cap, entry });
                proof {
                    let after = v@;
                    let n = before.len() as int;
                    assert forall|p: int, q: int| 0 <= p < q < after.len() implies (
                    #[trigger] after[p]).cap@ != (#[trigger] after[q]).cap@ by {
                        assert(after[p] == before[p]);
                        if q < n {
                            assert(after[q] == before[q]);
                        }
                    }
                    lemma_put(before, after, n, c, e);
                }
            },
        }
        self.0 = v;
        assert(self@ =~= old(self)@.insert(c, e));
    }

    /// The upstream URL and the token that `cap` stands for at `now`.
    pub fn lookup(&self, cap: &str, now: u64) -> (r: Option<(String, String)>)
        ensures
            match r {
                Some((upstream_url, token)) => resolved(self@, cap@, now) == Some(
                    (upstream_url@, token@),
                ),
                None => resolved(self@, cap@, now) is None,
            },
    {
        proof {
            use_type_invariant(self);
        }
        match position(&self.0, cap) {
            Some(i) => {
                proof {
                    lemma_entry(self.0@, i as int);
                }
                if self.0[i].entry.expires_at < now {
                    return None;
                }
                Some((self.0[i].entry.upstream_url.clone(), self.0[i].entry.token.clone()))
            },
            None => None,
        }
    }

    /// Removes `cap`.
    pub fn revoke(&mut self, cap: &str)
        ensures
            final(self)@ == old(self)@.remove(cap@),
    {
        proof {
            use_type_invariant(&*self);
        }
        let ghost before = self.0@;
        let mut v: Vec<Session> = Vec::new();
        std::mem::swap(&mut v, &mut self.0);
        if let Some(i) = position(&v, cap) {
            v.remove(i);
            proof {
                let after = v@;
                assert forall|p: int, q: int| 0 <= p < q < after.len() implies (
                #[trigger] after[p]).cap@ != (#[trigger] after[q]).cap@ by {
                    let a = if p < i {
                        p
                    } else {
                        p + 1
                    };
                    let b = if q < i {
                        q
                    } else {
                        q + 1
                    };
                    assert(after[p] == before[a] && after[q] == before[b]);
                }
                lemma_taken(before, after, i as int);
            }
        }
        self.0 = v;
        assert(self@ =~= old(self)@.remove(cap@));
    }
}

/// A registered capability gives back what it was registered with until that
/// expires, in place of what it stood for before; every other capability keeps
/// its meaning.
pub proof fn law_registered_is_looked_up(
    sessions: Map<Seq<char>, EntryView>,
    cap: Seq<char>,
    entry: EntryView,
    other: Seq<char>,
    now: u64,
)
    ensures
        resolved(sessions.insert(cap, entry), cap, now) == (if now <= entry.expires_at {
            Some((entry.upstream_url, entry.token))
        } else {
            None
        }),
        other != cap ==> resolved(sessions.insert(cap, entry), other, now) == resolved(
            sessions,
            other,
            now,
        ),
{
}

/// A revoked capability stands for nothing at once, and every other one keeps
/// its meaning.
pub proof fn law_revoked_is_gone(
    sessions: Map<Seq<char>, EntryView>,
    cap: Seq<char>,
    other: Seq<char>,
    now: u64,
)
    ensures
        resolved(sessions.remove(cap), cap, now) is None,
        other != cap ==> resolved(sessions.remove(cap), other, now) == resolved(
            sessions,
            other,
            now,
        ),
{
}

/// What a capability has stopped standing for does not come back with time.
pub proof fn law_expiry_is_final(
    sessions: Map<Seq<char>, EntryView>,
    cap: Seq<char>,
    now: u64,
    later: u64,
)
    requires
        resolved(sessions, cap, now) is None,
        now <= later,
    ensures
        resolved(sessions, cap, later) is None,
{
}

} // verus!
