//! The scoreboard mirror: objectives (each with per-player scores), teams
//! (each with a player set), and the four display-slot bindings.
//!
//! Objectives, teams and scores are association lists with unique keys;
//! every mutation states exactly which lookups change.

use vstd::prelude::*;

use crate::packets::{FriendlyFire, ScoreboardKind, TeamInfo};

verus! {

// ---------------------------------------------------------------------------
// association lists keyed by strings
// ---------------------------------------------------------------------------
/// First value stored under the given key, if any.
pub open spec fn alist_lookup<V>(s: Seq<(String, V)>, k: Seq<char>) -> Option<V>
    decreases s.len(),
{
    if s.len() == 0 {
        None
    } else if s[0].0@ == k {
        Some(s[0].1)
    } else {
        alist_lookup(s.subrange(1, s.len() as int), k)
    }
}

/// No two entries share a key.
pub open spec fn alist_wf<V>(s: Seq<(String, V)>) -> bool {
    forall|i: int, j: int| 0 <= i < j < s.len() ==> s[i].0@ != s[j].0@
}

/// A lookup that finds nothing means no entry holds the key.
proof fn lemma_alist_none_absent<V>(s: Seq<(String, V)>, k: Seq<char>)
    requires
        alist_lookup(s, k) is None,
    ensures
        forall|j: int| 0 <= j < s.len() ==> s[j].0@ != k,
    decreases s.len(),
{
    if s.len() > 0 {
        let s1 = s.subrange(1, s.len() as int);
        lemma_alist_none_absent(s1, k);
        assert(forall|j: int| 1 <= j < s.len() ==> s[j] == s1[j - 1]);
    }
}

/// A sequence with no entry holding the key looks it up to nothing.
proof fn lemma_alist_absent<V>(s: Seq<(String, V)>, k: Seq<char>)
    requires
        forall|j: int| 0 <= j < s.len() ==> s[j].0@ != k,
    ensures
        alist_lookup(s, k) is None,
    decreases s.len(),
{
    if s.len() > 0 {
        let s1 = s.subrange(1, s.len() as int);
        assert(forall|j: int| 0 <= j < s1.len() ==> s1[j] == s[j + 1]);
        lemma_alist_absent(s1, k);
    }
}

/// Updating the first index holding a key with an entry of the same key
/// moves that key's lookup to the new value and leaves other keys alone.
proof fn lemma_alist_update<V>(s: Seq<(String, V)>, i: int, e: (String, V))
    requires
        0 <= i < s.len(),
        forall|j: int| 0 <= j < i ==> s[j].0@ != e.0@,
        s[i].0@ == e.0@,
    ensures
        alist_lookup(s.update(i, e), e.0@) == Some(e.1),
        forall|x: Seq<char>| x != e.0@ ==> alist_lookup(s.update(i, e), x) == alist_lookup(s, x),
    decreases i,
{
    let t = s.update(i, e);
    if i == 0 {
        assert(t[0] == e);
        assert(t.subrange(1, t.len() as int) =~= s.subrange(1, s.len() as int));
        assert forall|x: Seq<char>| x != e.0@ implies alist_lookup(t, x) == alist_lookup(
            s,
            x,
        ) by {
            assert(alist_lookup(t, x) == alist_lookup(t.subrange(1, t.len() as int), x));
            assert(alist_lookup(s, x) == alist_lookup(s.subrange(1, s.len() as int), x));
        }
    } else {
        let s1 = s.subrange(1, s.len() as int);
        assert(forall|j: int| 0 <= j < s1.len() ==> s1[j] == s[j + 1]);
        lemma_alist_update(s1, i - 1, e);
        assert(t.subrange(1, t.len() as int) =~= s1.update(i - 1, e));
        assert(t[0] == s[0]);
        assert(s[0].0@ != e.0@);
        assert(alist_lookup(t, e.0@) == alist_lookup(s1.update(i - 1, e), e.0@));
        assert forall|x: Seq<char>| x != e.0@ implies alist_lookup(t, x) == alist_lookup(
            s,
            x,
        ) by {
            if s[0].0@ == x {
            } else {
                assert(alist_lookup(t, x) == alist_lookup(s1.update(i - 1, e), x));
                assert(alist_lookup(s, x) == alist_lookup(s1, x));
            }
        }
    }
}

/// Pushing an entry whose key no entry holds adds exactly that lookup.
proof fn lemma_alist_push<V>(s: Seq<(String, V)>, e: (String, V))
    requires
        forall|j: int| 0 <= j < s.len() ==> s[j].0@ != e.0@,
    ensures
        alist_lookup(s.push(e), e.0@) == Some(e.1),
        forall|x: Seq<char>| x != e.0@ ==> alist_lookup(s.push(e), x) == alist_lookup(s, x),
    decreases s.len(),
{
    let t = s.push(e);
    if s.len() == 0 {
        assert(t[0] == e);
        assert(t.subrange(1, t.len() as int) =~= Seq::<(String, V)>::empty());
        assert forall|x: Seq<char>| x != e.0@ implies alist_lookup(t, x) == alist_lookup(
            s,
            x,
        ) by {
            assert(alist_lookup(t, x) == alist_lookup(t.subrange(1, t.len() as int), x));
        }
    } else {
        let s1 = s.subrange(1, s.len() as int);
        assert(forall|j: int| 0 <= j < s1.len() ==> s1[j] == s[j + 1]);
        lemma_alist_push(s1, e);
        assert(t.subrange(1, t.len() as int) =~= s1.push(e));
        assert(t[0] == s[0]);
        assert(alist_lookup(t, e.0@) == alist_lookup(s1.push(e), e.0@));
        assert forall|x: Seq<char>| x != e.0@ implies alist_lookup(t, x) == alist_lookup(
            s,
            x,
        ) by {
            if s[0].0@ == x {
            } else {
                assert(alist_lookup(t, x) == alist_lookup(s1.push(e), x));
                assert(alist_lookup(s, x) == alist_lookup(s1, x));
            }
        }
    }
}

/// Removing the first (and by uniqueness only) entry holding a key erases
/// that lookup and leaves other keys alone.
proof fn lemma_alist_remove<V>(s: Seq<(String, V)>, i: int, k: Seq<char>)
    requires
        0 <= i < s.len(),
        forall|j: int| 0 <= j < i ==> s[j].0@ != k,
        s[i].0@ == k,
        alist_wf(s),
    ensures
        alist_lookup(s.remove(i), k) is None,
        forall|x: Seq<char>| x != k ==> alist_lookup(s.remove(i), x) == alist_lookup(s, x),
    decreases i,
{
    let t = s.remove(i);
    if i == 0 {
        assert(t =~= s.subrange(1, s.len() as int));
        assert(forall|j: int| 0 <= j < t.len() ==> t[j] == s[j + 1]);
        assert(forall|j: int| 0 <= j < t.len() ==> t[j].0@ != k);
        lemma_alist_absent(t, k);
        assert forall|x: Seq<char>| x != k implies alist_lookup(t, x) == alist_lookup(s, x) by {
            assert(alist_lookup(s, x) == alist_lookup(s.subrange(1, s.len() as int), x));
        }
    } else {
        let s1 = s.subrange(1, s.len() as int);
        assert(forall|j: int| 0 <= j < s1.len() ==> s1[j] == s[j + 1]);
        assert(forall|a: int, b: int| 0 <= a < b < s1.len() ==> s1[a].0@ != s1[b].0@);
        lemma_alist_remove(s1, i - 1, k);
        assert(t.subrange(1, t.len() as int) =~= s1.remove(i - 1));
        assert(t[0] == s[0]);
        assert(s[0].0@ != k);
        assert(alist_lookup(t, k) == alist_lookup(s1.remove(i - 1), k));
        assert forall|x: Seq<char>| x != k implies alist_lookup(t, x) == alist_lookup(s, x) by {
            if s[0].0@ == x {
            } else {
                assert(alist_lookup(t, x) == alist_lookup(s1.remove(i - 1), x));
                assert(alist_lookup(s, x) == alist_lookup(s1, x));
            }
        }
    }
}

/// Index of the entry holding the key, if any.
fn alist_find<V>(v: &Vec<(String, V)>, k: &String) -> (r: Option<usize>)
    ensures
        r is Some <==> alist_lookup(v@, k@) is Some,
        r matches Some(i) ==> i < v@.len() && v@[i as int].0@ == k@ && alist_lookup(v@, k@)
            == Some(v@[i as int].1) && (forall|j: int| 0 <= j < i ==> v@[j].0@ != k@),
{
    proof {
        assert(v@.subrange(0, v@.len() as int) =~= v@);
    }
    let mut i: usize = 0;
    while i < v.len()
        invariant
            i <= v@.len(),
            forall|j: int| 0 <= j < i ==> v@[j].0@ != k@,
            alist_lookup(v@, k@) == alist_lookup(
                v@.subrange(i as int, v@.len() as int),
                k@,
            ),
        decreases v@.len() - i,
    {
        let ghost rest = v@.subrange(i as int, v@.len() as int);
        let hit = v[i].0 == *k;
        proof {
            assert(rest[0] == v@[i as int]);
            assert(rest.subrange(1, rest.len() as int) =~= v@.subrange(
                i + 1,
                v@.len() as int,
            ));
        }
        if hit {
            return Some(i);
        }
        i = i + 1;
    }
    proof {
        assert(v@.subrange(v@.len() as int, v@.len() as int) =~= Seq::<(String, V)>::empty());
    }
    None
}

// ---------------------------------------------------------------------------
// string lists as sets
// ---------------------------------------------------------------------------
/// Membership of a name in a string list, by view.
pub open spec fn strs_contains(s: Seq<String>, k: Seq<char>) -> bool {
    exists|i: int| 0 <= i < s.len() && s[i]@ == k
}

/// Membership in a string list agrees with membership of its view.
pub proof fn lemma_strs_view_contains(v: Seq<String>, q: Seq<char>)
    ensures
        strs_contains(v, q) <==> crate::packets::strs_view(v).contains(q),
{
    if strs_contains(v, q) {
        let w = choose|w: int| 0 <= w < v.len() && v[w]@ == q;
        assert(crate::packets::strs_view(v)[w] == q);
    }
    if crate::packets::strs_view(v).contains(q) {
        let w = choose|w: int|
            0 <= w < crate::packets::strs_view(v).len() && crate::packets::strs_view(v)[w] == q;
        assert(v[w]@ == q);
    }
}

/// No duplicate names.
pub open spec fn strs_unique(s: Seq<String>) -> bool {
    forall|i: int, j: int| 0 <= i < j < s.len() ==> s[i]@ != s[j]@
}

/// Membership after a push: the pushed name joins, nothing else changes.
proof fn lemma_strs_push(s: Seq<String>, x: String, q: Seq<char>)
    ensures
        strs_contains(s.push(x), q) <==> strs_contains(s, q) || x@ == q,
{
    if strs_contains(s.push(x), q) {
        let w = choose|w: int| 0 <= w < s.push(x).len() && s.push(x)[w]@ == q;
        if w < s.len() {
            assert(s[w]@ == q);
        }
    }
    if strs_contains(s, q) {
        let w = choose|w: int| 0 <= w < s.len() && s[w]@ == q;
        assert(s.push(x)[w]@ == q);
    }
    if x@ == q {
        assert(s.push(x)[s.len() as int]@ == q);
    }
}

/// Whether the list holds the name.
fn strs_has(v: &Vec<String>, k: &String) -> (r: bool)
    ensures
        r == strs_contains(v@, k@),
{
    let mut i: usize = 0;
    while i < v.len()
        invariant
            i <= v@.len(),
            forall|j: int| 0 <= j < i ==> v@[j]@ != k@,
        decreases v@.len() - i,
    {
        if v[i] == *k {
            proof {
                assert(v@[i as int]@ == k@);
            }
            return true;
        }
        i = i + 1;
    }
    false
}

// ---------------------------------------------------------------------------
// objectives, teams, the scoreboard
// ---------------------------------------------------------------------------
/// One scoreboard objective: display data plus per-player scores.
pub struct Objective {
    pub display_name: String,
    pub kind: ScoreboardKind,
    pub scores: Vec<(String, i32)>,
}

impl Objective {
    /// A fresh objective of the given kind, no display name, no scores.
    pub fn new(kind: ScoreboardKind) -> (o: Objective)
        ensures
            o.kind == kind,
            o.display_name@ == Seq::<char>::empty(),
            o.scores@ == Seq::<(String, i32)>::empty(),
            alist_wf(o.scores@),
    {
        Objective { display_name: String::new(), kind, scores: Vec::new() }
    }

    /// The score stored for a player, if any.
    pub open spec fn score_of(self, player: Seq<char>) -> Option<i32> {
        alist_lookup(self.scores@, player)
    }
}

/// One team: a set of member names plus display data.
pub struct Team {
    pub players: Vec<String>,
    pub display_name: String,
    pub prefix: String,
    pub suffix: String,
    pub friendly_fire: FriendlyFire,
    pub nametag_visibility: String,
    pub color: u8,
}

impl Team {
    pub open spec fn has_player(self, name: Seq<char>) -> bool {
        strs_contains(self.players@, name)
    }

    /// Add each listed player that is not yet a member.
    pub fn add_players(&mut self, players: &Vec<String>)
        requires
            strs_unique(old(self).players@),
        ensures
            strs_unique(final(self).players@),
            forall|q: Seq<char>|
                final(self).has_player(q) <==> old(self).has_player(q) || strs_contains(
                    players@,
                    q,
                ),
            final(self).display_name == old(self).display_name,
            final(self).prefix == old(self).prefix,
            final(self).suffix == old(self).suffix,
            final(self).friendly_fire == old(self).friendly_fire,
            final(self).nametag_visibility == old(self).nametag_visibility,
            final(self).color == old(self).color,
    {
        let mut i: usize = 0;
        while i < players.len()
            invariant
                i <= players@.len(),
                strs_unique(self.players@),
                self.display_name == old(self).display_name,
                self.prefix == old(self).prefix,
                self.suffix == old(self).suffix,
                self.friendly_fire == old(self).friendly_fire,
                self.nametag_visibility == old(self).nametag_visibility,
                self.color == old(self).color,
                forall|q: Seq<char>|
                    strs_contains(self.players@, q) <==> strs_contains(old(self).players@, q)
                        || strs_contains(players@.subrange(0, i as int), q),
            decreases players@.len() - i,
    {
            let ghost pre = self.players@;
            let p = &players[i];
            let member = strs_has(&self.players, p);
            if !member {
                let mut cp = String::new();
                cp.append(p.as_str());
                self.players.push(cp);
                proof {
                    assert(self.players@ =~= pre.push(self.players@.last()));
                    assert(self.players@.last()@ == p@);
                    assert forall|q: Seq<char>|
                        strs_contains(self.players@, q) <==> (strs_contains(pre, q)
                            || p@ == q) by {
                        lemma_strs_push(pre, self.players@.last(), q);
                    }
                    assert forall|a: int, b: int|
                        0 <= a < b < self.players@.len() implies self.players@[a]@
                            != self.players@[b]@ by {
                        if b == self.players@.len() - 1 {
                            assert(self.players@[a] == pre[a]);
                            assert(!strs_contains(pre, p@));
                        }
                    }
                }
            }
            proof {
                assert(players@.subrange(0, i + 1) =~= players@.subrange(0, i as int).push(
                    players@[i as int],
                ));
                assert forall|q: Seq<char>|
                    strs_contains(players@.subrange(0, i + 1), q) <==> (strs_contains(
                        players@.subrange(0, i as int),
                        q,
                    ) || players@[i as int]@ == q) by {
                    lemma_strs_push(players@.subrange(0, i as int), players@[i as int], q);
                }
                if member {
                    assert(strs_contains(self.players@, players@[i as int]@));
                }
                assert forall|q: Seq<char>|
                    strs_contains(self.players@, q) <==> (strs_contains(old(self).players@, q)
                        || strs_contains(players@.subrange(0, i + 1), q)) by {
                    lemma_strs_push(players@.subrange(0, i as int), players@[i as int], q);
                    assert(strs_contains(players@.subrange(0, i + 1), q) <==> (strs_contains(
                        players@.subrange(0, i as int),
                        q,
                    ) || players@[i as int]@ == q));
                    if !member {
                        assert(strs_contains(self.players@, q) <==> (strs_contains(pre, q)
                            || players@[i as int]@ == q));
                    }
                }
            }
            i = i + 1;
        }
        proof {
            assert(players@.subrange(0, players@.len() as int) =~= players@);
        }
    }

    /// Remove each listed player that is a member.
    pub fn remove_players(&mut self, players: &Vec<String>)
        requires
            strs_unique(old(self).players@),
        ensures
            strs_unique(final(self).players@),
            forall|q: Seq<char>|
                final(self).has_player(q) <==> old(self).has_player(q) && !strs_contains(
                    players@,
                    q,
                ),
            final(self).display_name == old(self).display_name,
            final(self).prefix == old(self).prefix,
            final(self).suffix == old(self).suffix,
            final(self).friendly_fire == old(self).friendly_fire,
            final(self).nametag_visibility == old(self).nametag_visibility,
            final(self).color == old(self).color,
    {
        let mut kept: Vec<String> = Vec::new();
        let mut i: usize = 0;
        while i < self.players.len()
            invariant
                i <= self.players@.len(),
                strs_unique(self.players@),
                forall|a: int, b: int| 0 <= a < b < kept@.len() ==> kept@[a]@ != kept@[b]@,
                forall|q: Seq<char>|
                    strs_contains(kept@, q) <==> strs_contains(
                        self.players@.subrange(0, i as int),
                        q,
                    ) && !strs_contains(players@, q),
            decreases self.players@.len() - i,
        {
            let ghost keptv = kept@;
            let keep = !strs_has(players, &self.players[i]);
            if keep {
                let mut cp = String::new();
                cp.append(self.players[i].as_str());
                kept.push(cp);
                proof {
                    assert(kept@[kept@.len() - 1]@ == self.players@[i as int]@);
                    assert(forall|j: int| 0 <= j < keptv.len() ==> kept@[j] == keptv[j]);
                    assert forall|a: int, b: int|
                        0 <= a < b < kept@.len() implies kept@[a]@ != kept@[b]@ by {
                        if b == kept@.len() - 1 {
                            assert(strs_contains(
                                self.players@.subrange(0, i as int),
                                keptv[a]@,
                            ) || !strs_contains(keptv, keptv[a]@));
                            if strs_contains(self.players@.subrange(0, i as int), keptv[a]@) {
                                let w = choose|w: int|
                                    0 <= w < i && self.players@.subrange(0, i as int)[w]@
                                        == keptv[a]@;
                                assert(self.players@[w]@ == keptv[a]@);
                            } else {
                                assert(strs_contains(keptv, keptv[a]@));
                            }
                        }
                    }
                }
            }
            proof {
                let sub1 = self.players@.subrange(0, i + 1);
                assert(sub1.drop_last() =~= self.players@.subrange(0, i as int));
                assert(sub1.last() == self.players@[i as int]);
                assert forall|q: Seq<char>|
                    strs_contains(kept@, q) <==> (strs_contains(sub1, q) && !strs_contains(
                        players@,
                        q,
                    )) by {
                    if strs_contains(sub1, q) {
                        let w = choose|w: int| 0 <= w < sub1.len() && sub1[w]@ == q;
                        if w < i {
                            assert(self.players@.subrange(0, i as int)[w]@ == q);
                        } else {
                            assert(q == self.players@[i as int]@);
                        }
                    }
                    if strs_contains(self.players@.subrange(0, i as int), q) {
                        let w = choose|w: int|
                            0 <= w < i && self.players@.subrange(0, i as int)[w]@ == q;
                        assert(sub1[w]@ == q);
                    }
                    if q == self.players@[i as int]@ {
                        assert(sub1[i as int]@ == q);
                    }
                    if strs_contains(keptv, q) {
                        let w = choose|w: int| 0 <= w < keptv.len() && keptv[w]@ == q;
                        assert(kept@[w]@ == q);
                    }
                }
            }
            i = i + 1;
        }
        proof {
            assert(self.players@.subrange(0, self.players@.len() as int) =~= self.players@);
        }
        self.players = kept;
    }
}

/// Looking the same key up in two alists with pointwise-equal keys lands
/// on the same index.
proof fn lemma_alist_pointwise<V>(s1: Seq<(String, V)>, s2: Seq<(String, V)>, k: Seq<char>)
    requires
        s1.len() == s2.len(),
        forall|j: int| 0 <= j < s1.len() ==> s1[j].0@ == s2[j].0@,
    ensures
        (match (alist_lookup(s1, k), alist_lookup(s2, k)) {
            (Some(v1), Some(v2)) => exists|j: int|
                0 <= j < s1.len() && s1[j].0@ == k && v1 == s1[j].1 && v2 == s2[j].1,
            (None, None) => true,
            _ => false,
        }),
    decreases s1.len(),
{
    if s1.len() > 0 {
        if s1[0].0@ == k {
            assert(s2[0].0@ == k);
        } else {
            let t1 = s1.subrange(1, s1.len() as int);
            let t2 = s2.subrange(1, s2.len() as int);
            assert(forall|j: int| 0 <= j < t1.len() ==> t1[j].0@ == t2[j].0@);
            lemma_alist_pointwise(t1, t2, k);
            match (alist_lookup(t1, k), alist_lookup(t2, k)) {
                (Some(v1), Some(v2)) => {
                    let j = choose|j: int|
                        0 <= j < t1.len() && t1[j].0@ == k && v1 == t1[j].1 && v2 == t2[j].1;
                    assert(s1[j + 1].0@ == k && v1 == s1[j + 1].1 && v2 == s2[j + 1].1);
                },
                _ => {},
            }
        }
    }
}

impl Objective {
    /// Remove this player's score, if stored.
    pub fn remove_score(&mut self, player: &String)
        requires
            alist_wf(old(self).scores@),
        ensures
            alist_wf(final(self).scores@),
            final(self).display_name == old(self).display_name,
            final(self).kind == old(self).kind,
            final(self).score_of(player@) is None,
            forall|q: Seq<char>|
                q != player@ ==> final(self).score_of(q) == old(self).score_of(q),
    {
        match alist_find(&self.scores, player) {
            Some(i) => {
                let ghost pre = self.scores@;
                self.scores.remove(i);
                proof {
                    lemma_alist_remove(pre, i as int, player@);
                    assert(forall|a: int, b: int|
                        0 <= a < b < self.scores@.len() ==> self.scores@[a].0@
                            != self.scores@[b].0@);
                }
            },
            None => {
            },
        }
    }

    /// Store (or replace) this player's score.
    pub fn set_score(&mut self, player: &String, value: i32)
        requires
            alist_wf(old(self).scores@),
        ensures
            alist_wf(final(self).scores@),
            final(self).display_name == old(self).display_name,
            final(self).kind == old(self).kind,
            final(self).score_of(player@) == Some(value),
            forall|q: Seq<char>|
                q != player@ ==> final(self).score_of(q) == old(self).score_of(q),
    {
        match alist_find(&self.scores, player) {
            Some(i) => {
                let ghost pre = self.scores@;
                let (k, _old) = self.scores.remove(i);
                self.scores.insert(i, (k, value));
                proof {
                    assert(self.scores@ =~= pre.update(i as int, self.scores@[i as int]));
                    lemma_alist_update(pre, i as int, self.scores@[i as int]);
                    assert(forall|a: int, b: int|
                        0 <= a < b < self.scores@.len() ==> self.scores@[a].0@
                            != self.scores@[b].0@);
                }
            },
            None => {
                let ghost pre = self.scores@;
                proof {
                    lemma_alist_none_absent(pre, player@);
                }
                let mut cp = String::new();
                cp.append(player.as_str());
                self.scores.push((cp, value));
                proof {
                    lemma_alist_push(pre, self.scores@.last());
                    assert(forall|a: int, b: int|
                        0 <= a < b < self.scores@.len() ==> self.scores@[a].0@
                            != self.scores@[b].0@);
                }
            },
        }
    }
}

/// The second objective keeps the first's display data, has no score for
/// `p`, and scores every other player as the first does.
pub open spec fn obj_cleared(o: Objective, o2: Objective, p: Seq<char>) -> bool {
    &&& o2.display_name == o.display_name
    &&& o2.kind == o.kind
    &&& alist_wf(o2.scores@)
    &&& o2.score_of(p) is None
    &&& forall|q: Seq<char>| q != p ==> o2.score_of(q) == o.score_of(q)
}

/// The scoreboard mirror: objectives, teams, and the display-slot
/// bindings (an empty binding shows nothing).
pub struct Scores {
    pub objectives: Vec<(String, Objective)>,
    pub teams: Vec<(String, Team)>,
    pub below_name: Option<String>,
    pub player_list: Option<String>,
    pub sidebar: Option<String>,
    pub team_sidebar: Option<String>,
}

impl Scores {
    /// Unique objective and team names, unique players per team, unique
    /// scored players per objective.
    pub open spec fn wf(self) -> bool {
        &&& alist_wf(self.objectives@)
        &&& alist_wf(self.teams@)
        &&& forall|j: int|
            0 <= j < self.objectives@.len() ==> alist_wf(#[trigger] self.objectives@[j].1.scores@)
        &&& forall|j: int|
            0 <= j < self.teams@.len() ==> strs_unique(#[trigger] self.teams@[j].1.players@)
    }

    pub open spec fn obj_lookup(self, name: Seq<char>) -> Option<Objective> {
        alist_lookup(self.objectives@, name)
    }

    pub open spec fn team_lookup(self, name: Seq<char>) -> Option<Team> {
        alist_lookup(self.teams@, name)
    }

    /// An empty scoreboard.
    pub fn new() -> (s: Scores)
        ensures
            s.wf(),
            forall|n: Seq<char>| s.obj_lookup(n) is None,
            forall|n: Seq<char>| s.team_lookup(n) is None,
            s.below_name is None && s.player_list is None && s.sidebar is None
                && s.team_sidebar is None,
    {
        let s = Scores {
            objectives: Vec::new(),
            teams: Vec::new(),
            below_name: None,
            player_list: None,
            sidebar: None,
            team_sidebar: None,
        };
        proof {
            assert forall|n: Seq<char>| s.obj_lookup(n) is None by {
                lemma_alist_absent(s.objectives@, n);
            }
            assert forall|n: Seq<char>| s.team_lookup(n) is None by {
                lemma_alist_absent(s.teams@, n);
            }
        }
        s
    }

    /// The objective stored under this name, if any.
    pub fn get_objective(&self, name: &String) -> (r: Option<&Objective>)
        ensures
            r is Some <==> self.obj_lookup(name@) is Some,
            r matches Some(o) ==> self.obj_lookup(name@) == Some(*o),
    {
        match alist_find(&self.objectives, name) {
            Some(i) => Some(&self.objectives[i].1),
            None => None,
        }
    }

    /// The team stored under this name, if any.
    pub fn get_team(&self, name: &String) -> (r: Option<&Team>)
        ensures
            r is Some <==> self.team_lookup(name@) is Some,
            r matches Some(t) ==> self.team_lookup(name@) == Some(*t),
    {
        match alist_find(&self.teams, name) {
            Some(i) => Some(&self.teams[i].1),
            None => None,
        }
    }

    /// Create or replace the objective under this name.
    pub fn create_objective(&mut self, name: String, o: Objective)
        requires
            old(self).wf(),
            alist_wf(o.scores@),
        ensures
            final(self).wf(),
            final(self).obj_lookup(name@) == Some(o),
            forall|n: Seq<char>|
                n != name@ ==> final(self).obj_lookup(n) == old(self).obj_lookup(n),
            final(self).teams@ == old(self).teams@,
            final(self).below_name == old(self).below_name,
            final(self).player_list == old(self).player_list,
            final(self).sidebar == old(self).sidebar,
            final(self).team_sidebar == old(self).team_sidebar,
    {
        let ghost nm = name@;
        match alist_find(&self.objectives, &name) {
            Some(i) => {
                let ghost pre = self.objectives@;
                self.objectives.remove(i);
                self.objectives.insert(i, (name, o));
                proof {
                    assert(self.objectives@ =~= pre.update(
                        i as int,
                        self.objectives@[i as int],
                    ));
                    lemma_alist_update(pre, i as int, self.objectives@[i as int]);
                    assert(forall|a: int, b: int|
                        0 <= a < b < self.objectives@.len() ==> self.objectives@[a].0@
                            != self.objectives@[b].0@);
                }
            },
            None => {
                let ghost pre = self.objectives@;
                proof {
                    lemma_alist_none_absent(pre, nm);
                }
                self.objectives.push((name, o));
                proof {
                    lemma_alist_push(pre, self.objectives@.last());
                    assert(forall|a: int, b: int|
                        0 <= a < b < self.objectives@.len() ==> self.objectives@[a].0@
                            != self.objectives@[b].0@);
                }
            },
        }
    }

    /// Remove the objective under this name, if present.
    pub fn remove_objective(&mut self, name: &String)
        requires
            old(self).wf(),
        ensures
            final(self).wf(),
            final(self).obj_lookup(name@) is None,
            forall|n: Seq<char>|
                n != name@ ==> final(self).obj_lookup(n) == old(self).obj_lookup(n),
            final(self).teams@ == old(self).teams@,
            final(self).below_name == old(self).below_name,
            final(self).player_list == old(self).player_list,
            final(self).sidebar == old(self).sidebar,
            final(self).team_sidebar == old(self).team_sidebar,
    {
        match alist_find(&self.objectives, name) {
            Some(i) => {
                let ghost pre = self.objectives@;
                self.objectives.remove(i);
                proof {
                    lemma_alist_remove(pre, i as int, name@);
                    assert(forall|a: int, b: int|
                        0 <= a < b < self.objectives@.len() ==> self.objectives@[a].0@
                            != self.objectives@[b].0@);
                }
            },
            None => {
            },
        }
    }

    /// Set the display text and kind of the objective under this name, if
    /// present; its scores stay.
    pub fn update_objective_display(&mut self, name: &String, display_name: String,
        kind: ScoreboardKind)
        requires
            old(self).wf(),
        ensures
            final(self).wf(),
            old(self).obj_lookup(name@) is None ==> final(self).obj_lookup(name@) is None,
            old(self).obj_lookup(name@) matches Some(o) ==> final(self).obj_lookup(name@)
                matches Some(o2) && o2.display_name == display_name && o2.kind == kind
                && o2.scores@ == o.scores@,
            forall|n: Seq<char>|
                n != name@ ==> final(self).obj_lookup(n) == old(self).obj_lookup(n),
            final(self).teams@ == old(self).teams@,
            final(self).below_name == old(self).below_name,
            final(self).player_list == old(self).player_list,
            final(self).sidebar == old(self).sidebar,
            final(self).team_sidebar == old(self).team_sidebar,
    {
        match alist_find(&self.objectives, name) {
            Some(i) => {
                let ghost pre = self.objectives@;
                let (k, mut o) = self.objectives.remove(i);
                o.display_name = display_name;
                o.kind = kind;
                self.objectives.insert(i, (k, o));
                proof {
                    assert(self.objectives@ =~= pre.update(
                        i as int,
                        self.objectives@[i as int],
                    ));
                    lemma_alist_update(pre, i as int, self.objectives@[i as int]);
                    assert(forall|a: int, b: int|
                        0 <= a < b < self.objectives@.len() ==> self.objectives@[a].0@
                            != self.objectives@[b].0@);
                }
            },
            None => {
            },
        }
    }

    /// Upsert or remove one player's score on the named objective; when
    /// the objective is unknown the update is dropped.
    pub fn update_score(&mut self, objective: &String, player: &String, value: Option<i32>)
        requires
            old(self).wf(),
        ensures
            final(self).wf(),
            old(self).obj_lookup(objective@) is None ==> final(self).obj_lookup(objective@)
                is None,
            old(self).obj_lookup(objective@) matches Some(o) ==> final(self).obj_lookup(
                objective@,
            ) matches Some(o2) && o2.display_name == o.display_name && o2.kind == o.kind
                && o2.score_of(player@) == value && (forall|q: Seq<char>|
                q != player@ ==> o2.score_of(q) == o.score_of(q)),
            forall|n: Seq<char>|
                n != objective@ ==> final(self).obj_lookup(n) == old(self).obj_lookup(n),
            final(self).teams@ == old(self).teams@,
            final(self).below_name == old(self).below_name,
            final(self).player_list == old(self).player_list,
            final(self).sidebar == old(self).sidebar,
            final(self).team_sidebar == old(self).team_sidebar,
    {
        match alist_find(&self.objectives, objective) {
            Some(i) => {
                let ghost pre = self.objectives@;
                let (k, mut o) = self.objectives.remove(i);
                match value {
                    Some(v) => o.set_score(player, v),
                    None => o.remove_score(player),
                }
                self.objectives.insert(i, (k, o));
                proof {
                    assert(self.objectives@ =~= pre.update(
                        i as int,
                        self.objectives@[i as int],
                    ));
                    lemma_alist_update(pre, i as int, self.objectives@[i as int]);
                    assert(forall|a: int, b: int|
                        0 <= a < b < self.objectives@.len() ==> self.objectives@[a].0@
                            != self.objectives@[b].0@);
                }
            },
            None => {
            },
        }
    }

    /// Remove one player's score from every objective: the empty-objective
    /// form of a score update. Every objective keeps its display data and
    /// all other players' scores.
    pub fn clear_player(&mut self, player: &String)
        requires
            old(self).wf(),
        ensures
            final(self).wf(),
            forall|n: Seq<char>|
                #[trigger] old(self).obj_lookup(n) is None ==> final(self).obj_lookup(n)
                    is None,
            forall|n: Seq<char>|
                #[trigger] old(self).obj_lookup(n) matches Some(o) ==> final(self).obj_lookup(
                    n,
                ) matches Some(o2) && obj_cleared(o, o2, player@),
            final(self).teams@ == old(self).teams@,
            final(self).below_name == old(self).below_name,
            final(self).player_list == old(self).player_list,
            final(self).sidebar == old(self).sidebar,
            final(self).team_sidebar == old(self).team_sidebar,
    {
        let ghost pre = self.objectives@;
        let mut i: usize = 0;
        while i < self.objectives.len()
            invariant
                i <= self.objectives@.len(),
                self.objectives@.len() == pre.len(),
                forall|j: int| 0 <= j < pre.len() ==> self.objectives@[j].0 == pre[j].0,
                forall|j: int| i <= j < pre.len() ==> self.objectives@[j] == pre[j],
                forall|j: int|
                    0 <= j < i ==> obj_cleared(
                        pre[j].1,
                        #[trigger] self.objectives@[j].1,
                        player@,
                    ),
                pre == old(self).objectives@,
                old(self).wf(),
                self.teams@ == old(self).teams@,
                self.below_name == old(self).below_name,
                self.player_list == old(self).player_list,
                self.sidebar == old(self).sidebar,
                self.team_sidebar == old(self).team_sidebar,
            decreases self.objectives@.len() - i,
        {
            let ghost snap = self.objectives@;
            let (k, mut o) = self.objectives.remove(i);
            proof {
                assert(snap[i as int].1 == pre[i as int].1);
                assert(alist_wf(o.scores@));
            }
            o.remove_score(player);
            self.objectives.insert(i, (k, o));
            proof {
                assert(self.objectives@ =~= snap.update(i as int, self.objectives@[i as int]));
            }
            i = i + 1;
        }
        proof {
            assert forall|a: int, b: int|
                0 <= a < b < self.objectives@.len() implies self.objectives@[a].0@
                    != self.objectives@[b].0@ by {
                assert(pre[a].0@ != pre[b].0@);
            }
            assert forall|n: Seq<char>|
                (old(self).obj_lookup(n) is None ==> #[trigger] alist_lookup(
                    self.objectives@,
                    n,
                ) is None) && (old(self).obj_lookup(n) matches Some(o) ==> alist_lookup(
                    self.objectives@,
                    n,
                ) matches Some(o2) && obj_cleared(o, o2, player@)) by {
                lemma_alist_pointwise(pre, self.objectives@, n);
            }
        }
    }

    /// Create or replace the team under this name, from its display info
    /// and initial member list (duplicates collapse).
    pub fn create_team(&mut self, name: String, info: &TeamInfo, players: &Vec<String>)
        requires
            old(self).wf(),
        ensures
            final(self).wf(),
            final(self).team_lookup(name@) matches Some(t) && t.display_name
                == info.display_name && t.prefix == info.prefix && t.suffix == info.suffix
                && t.friendly_fire == info.friendly_fire && t.nametag_visibility
                == info.nametag_visibility && t.color == info.color && (forall|q: Seq<char>|
                t.has_player(q) <==> strs_contains(players@, q)),
            forall|n: Seq<char>|
                n != name@ ==> final(self).team_lookup(n) == old(self).team_lookup(n),
            final(self).objectives@ == old(self).objectives@,
            final(self).below_name == old(self).below_name,
            final(self).player_list == old(self).player_list,
            final(self).sidebar == old(self).sidebar,
            final(self).team_sidebar == old(self).team_sidebar,
    {
        let mut t = Team {
            players: Vec::new(),
            display_name: info.display_name.clone(),
            prefix: info.prefix.clone(),
            suffix: info.suffix.clone(),
            friendly_fire: info.friendly_fire,
            nametag_visibility: info.nametag_visibility.clone(),
            color: info.color,
        };
        proof {
            assert(strs_unique(t.players@));
        }
        t.add_players(players);
        let ghost nm = name@;
        match alist_find(&self.teams, &name) {
            Some(i) => {
                let ghost pre = self.teams@;
                self.teams.remove(i);
                self.teams.insert(i, (name, t));
                proof {
                    assert(self.teams@ =~= pre.update(i as int, self.teams@[i as int]));
                    lemma_alist_update(pre, i as int, self.teams@[i as int]);
                    assert(forall|a: int, b: int|
                        0 <= a < b < self.teams@.len() ==> self.teams@[a].0@
                            != self.teams@[b].0@);
                }
            },
            None => {
                let ghost pre = self.teams@;
                proof {
                    lemma_alist_none_absent(pre, nm);
                }
                self.teams.push((name, t));
                proof {
                    lemma_alist_push(pre, self.teams@.last());
                    assert(forall|a: int, b: int|
                        0 <= a < b < self.teams@.len() ==> self.teams@[a].0@
                            != self.teams@[b].0@);
                }
            },
        }
    }

    /// Remove the team under this name, if present.
    pub fn remove_team(&mut self, name: &String)
        requires
            old(self).wf(),
        ensures
            final(self).wf(),
            final(self).team_lookup(name@) is None,
            forall|n: Seq<char>|
                n != name@ ==> final(self).team_lookup(n) == old(self).team_lookup(n),
            final(self).objectives@ == old(self).objectives@,
            final(self).below_name == old(self).below_name,
            final(self).player_list == old(self).player_list,
            final(self).sidebar == old(self).sidebar,
            final(self).team_sidebar == old(self).team_sidebar,
    {
        match alist_find(&self.teams, name) {
            Some(i) => {
                let ghost pre = self.teams@;
                self.teams.remove(i);
                proof {
                    lemma_alist_remove(pre, i as int, name@);
                    assert(forall|a: int, b: int|
                        0 <= a < b < self.teams@.len() ==> self.teams@[a].0@
                            != self.teams@[b].0@);
                }
            },
            None => {
            },
        }
    }

    /// Replace the display fields of the team under this name, if present;
    /// its player set stays.
    pub fn update_team(&mut self, name: &String, info: &TeamInfo)
        requires
            old(self).wf(),
        ensures
            final(self).wf(),
            old(self).team_lookup(name@) is None ==> final(self).team_lookup(name@) is None,
            old(self).team_lookup(name@) matches Some(t) ==> final(self).team_lookup(name@)
                matches Some(t2) && t2.players@ == t.players@ && t2.display_name
                == info.display_name && t2.prefix == info.prefix && t2.suffix == info.suffix
                && t2.friendly_fire == info.friendly_fire && t2.nametag_visibility
                == info.nametag_visibility && t2.color == info.color,
            forall|n: Seq<char>|
                n != name@ ==> final(self).team_lookup(n) == old(self).team_lookup(n),
            final(self).objectives@ == old(self).objectives@,
            final(self).below_name == old(self).below_name,
            final(self).player_list == old(self).player_list,
            final(self).sidebar == old(self).sidebar,
            final(self).team_sidebar == old(self).team_sidebar,
    {
        match alist_find(&self.teams, name) {
            Some(i) => {
                let ghost pre = self.teams@;
                let (k, mut t) = self.teams.remove(i);
                t.display_name = info.display_name.clone();
                t.prefix = info.prefix.clone();
                t.suffix = info.suffix.clone();
                t.friendly_fire = info.friendly_fire;
                t.nametag_visibility = info.nametag_visibility.clone();
                t.color = info.color;
                self.teams.insert(i, (k, t));
                proof {
                    assert(self.teams@ =~= pre.update(i as int, self.teams@[i as int]));
                    lemma_alist_update(pre, i as int, self.teams@[i as int]);
                    assert(forall|a: int, b: int|
                        0 <= a < b < self.teams@.len() ==> self.teams@[a].0@
                            != self.teams@[b].0@);
                }
            },
            None => {
            },
        }
    }

    /// Extend the member set of the team under this name, if present.
    pub fn team_add_players(&mut self, name: &String, players: &Vec<String>)
        requires
            old(self).wf(),
        ensures
            final(self).wf(),
            old(self).team_lookup(name@) is None ==> final(self).team_lookup(name@) is None,
            old(self).team_lookup(name@) matches Some(t) ==> final(self).team_lookup(name@)
                matches Some(t2) && t2.display_name == t.display_name && (forall|q: Seq<char>|
                t2.has_player(q) <==> t.has_player(q) || strs_contains(players@, q)),
            forall|n: Seq<char>|
                n != name@ ==> final(self).team_lookup(n) == old(self).team_lookup(n),
            final(self).objectives@ == old(self).objectives@,
            final(self).below_name == old(self).below_name,
            final(self).player_list == old(self).player_list,
            final(self).sidebar == old(self).sidebar,
            final(self).team_sidebar == old(self).team_sidebar,
    {
        match alist_find(&self.teams, name) {
            Some(i) => {
                let ghost pre = self.teams@;
                let (k, mut t) = self.teams.remove(i);
                t.add_players(players);
                self.teams.insert(i, (k, t));
                proof {
                    assert(self.teams@ =~= pre.update(i as int, self.teams@[i as int]));
                    lemma_alist_update(pre, i as int, self.teams@[i as int]);
                    assert(forall|a: int, b: int|
                        0 <= a < b < self.teams@.len() ==> self.teams@[a].0@
                            != self.teams@[b].0@);
                }
            },
            None => {
            },
        }
    }

    /// Shrink the member set of the team under this name, if present.
    pub fn team_remove_players(&mut self, name: &String, players: &Vec<String>)
        requires
            old(self).wf(),
        ensures
            final(self).wf(),
            old(self).team_lookup(name@) is None ==> final(self).team_lookup(name@) is None,
            old(self).team_lookup(name@) matches Some(t) ==> final(self).team_lookup(name@)
                matches Some(t2) && t2.display_name == t.display_name && (forall|q: Seq<char>|
                t2.has_player(q) <==> t.has_player(q) && !strs_contains(players@, q)),
            forall|n: Seq<char>|
                n != name@ ==> final(self).team_lookup(n) == old(self).team_lookup(n),
            final(self).objectives@ == old(self).objectives@,
            final(self).below_name == old(self).below_name,
            final(self).player_list == old(self).player_list,
            final(self).sidebar == old(self).sidebar,
            final(self).team_sidebar == old(self).team_sidebar,
    {
        match alist_find(&self.teams, name) {
            Some(i) => {
                let ghost pre = self.teams@;
                let (k, mut t) = self.teams.remove(i);
                t.remove_players(players);
                self.teams.insert(i, (k, t));
                proof {
                    assert(self.teams@ =~= pre.update(i as int, self.teams@[i as int]));
                    lemma_alist_update(pre, i as int, self.teams@[i as int]);
                    assert(forall|a: int, b: int|
                        0 <= a < b < self.teams@.len() ==> self.teams@[a].0@
                            != self.teams@[b].0@);
                }
            },
            None => {
            },
        }
    }

    /// Bind a display slot to an objective name, or clear it when the
    /// name is empty. Position 0 is the player list, 1 the sidebar, 2
    /// below names; anything else binds the team sidebar.
    pub fn set_display(&mut self, position: i8, name: String)
        requires
            old(self).wf(),
        ensures
            final(self).wf(),
            final(self).objectives@ == old(self).objectives@,
            final(self).teams@ == old(self).teams@,
            ({
                let v: Option<String> = if name@.len() == 0 {
                    None
                } else {
                    Some(name)
                };
                &&& position == 0 ==> final(self).player_list == v && final(self).sidebar
                    == old(self).sidebar && final(self).below_name == old(self).below_name
                    && final(self).team_sidebar == old(self).team_sidebar
                &&& position == 1 ==> final(self).sidebar == v && final(self).player_list
                    == old(self).player_list && final(self).below_name == old(self).below_name
                    && final(self).team_sidebar == old(self).team_sidebar
                &&& position == 2 ==> final(self).below_name == v && final(self).player_list
                    == old(self).player_list && final(self).sidebar == old(self).sidebar
                    && final(self).team_sidebar == old(self).team_sidebar
                &&& !(position == 0 || position == 1 || position == 2)
                    ==> final(self).team_sidebar == v
                    && final(self).player_list == old(self).player_list
                    && final(self).sidebar == old(self).sidebar
                    && final(self).below_name == old(self).below_name
            }),
    {
        let v: Option<String> = if name.as_str().is_empty() {
            None
        } else {
            Some(name)
        };
        if position == 0 {
            self.player_list = v;
        } else if position == 1 {
            self.sidebar = v;
        } else if position == 2 {
            self.below_name = v;
        } else {
            self.team_sidebar = v;
        }
    }
}

} // verus!
