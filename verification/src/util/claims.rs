//! Sets of claims on types, shared by the two validators.
//!
//! A claim names a type by its id and says how it is used. Joining two sets
//! joins the claims on each type that both name; a claim that has become a
//! violation stays one.

use vstd::prelude::*;
use vstd::string::StringExecFns;
use crate::util::unqualified::{unqualified, unqualify};

verus! {

/// How a type is claimed, and whether the claims on it conflict.
pub trait ClaimState: Copy {
    /// The state of a type that is claimed as `a` and as `b`.
    spec fn spec_join(a: Self, b: Self) -> Self;

    /// Whether the claims on the type conflict.
    spec fn spec_is_error(&self) -> bool;

    /// The state of a type that is claimed as `a` and as `b`.
    fn join(a: Self, b: Self) -> (joined: Self)
        ensures
            joined == Self::spec_join(a, b),
    ;

    /// Whether the claims on the type conflict.
    fn is_error(&self) -> (b: bool)
        ensures
            b == self.spec_is_error(),
    ;

    /// What a message says of a type that is claimed in conflict, up to the type's name.
    spec fn spec_error_line(&self) -> Seq<char>;

    /// What a message says of a type that is claimed in conflict, up to the type's name.
    fn error_line(&self) -> (line: &'static str)
        ensures
            line@ == self.spec_error_line(),
    ;

    /// The order of two claims does not matter.
    proof fn lemma_join_commutative(a: Self, b: Self)
        ensures
            Self::spec_join(a, b) == Self::spec_join(b, a),
    ;

    /// The grouping of three claims does not matter.
    proof fn lemma_join_associative(a: Self, b: Self, c: Self)
        ensures
            Self::spec_join(Self::spec_join(a, b), c) == Self::spec_join(a, Self::spec_join(b, c)),
    ;

    /// A conflict does not go away by claiming more.
    proof fn lemma_error_is_sticky(a: Self, b: Self)
        requires
            a.spec_is_error(),
        ensures
            Self::spec_join(a, b).spec_is_error(),
    ;
}

/// One claim: the type, its name for messages, and the state of the claim.
pub struct Claim<S: ClaimState> {
    pub id: u64,
    pub name: &'static str,
    pub state: S,
}

/// Claims on distinct types, in the order in which the types were first claimed.
pub struct ClaimSet<S: ClaimState> {
    entries: Vec<Claim<S>>,
}

/// The state under which `id` is listed in `s`, searched from the back.
pub open spec fn lookup<S: ClaimState>(s: Seq<Claim<S>>, id: u64) -> Option<S>
    decreases s.len(),
{
    if s.len() == 0 {
        None
    } else if s.last().id == id {
        Some(s.last().state)
    } else {
        lookup(s.drop_last(), id)
    }
}

/// No type is listed twice.
pub open spec fn distinct_ids<S: ClaimState>(s: Seq<Claim<S>>) -> bool {
    forall|i: int, j: int| 0 <= i < j < s.len() ==> s[i].id != s[j].id
}

/// The joined state of a type that two sets may or may not claim.
pub open spec fn join_options<S: ClaimState>(a: Option<S>, b: Option<S>) -> Option<S> {
    match (a, b) {
        (Some(x), Some(y)) => Some(S::spec_join(x, y)),
        (Some(x), None) => Some(x),
        (None, y) => y,
    }
}

/// The claims of two sets together, as a map from type to state.
pub open spec fn join_maps<K, S: ClaimState>(a: Map<K, S>, b: Map<K, S>) -> Map<K, S> {
    Map::new(
        |id: K| a.dom().contains(id) || b.dom().contains(id),
        |id: K|
            if a.dom().contains(id) && b.dom().contains(id) {
                S::spec_join(a[id], b[id])
            } else if a.dom().contains(id) {
                a[id]
            } else {
                b[id]
            },
    )
}

/// The claim under which `id` is listed in `s`, searched from the back.
pub open spec fn find<S: ClaimState>(s: Seq<Claim<S>>, id: u64) -> Option<Claim<S>>
    decreases s.len(),
{
    if s.len() == 0 {
        None
    } else if s.last().id == id {
        Some(s.last())
    } else {
        find(s.drop_last(), id)
    }
}

/// What becomes of the claim `c` of one set when the claims `b` of another
/// are joined to it: where `b` claims the type too, the states are joined
/// and the name is the one that `b` gives.
pub open spec fn merged_claim<S: ClaimState>(c: Claim<S>, b: Seq<Claim<S>>) -> Claim<S> {
    match find(b, c.id) {
        Some(other) => Claim {
            id: c.id,
            name: other.name,
            state: S::spec_join(c.state, other.state),
        },
        None => c,
    }
}

/// The claims of `b` on types that `a` does not claim, in the order of `b`.
pub open spec fn only_in<S: ClaimState>(b: Seq<Claim<S>>, a: Seq<Claim<S>>) -> Seq<Claim<S>>
    decreases b.len(),
{
    if b.len() == 0 {
        Seq::empty()
    } else if lookup(a, b.last().id) is None {
        only_in(b.drop_last(), a).push(b.last())
    } else {
        only_in(b.drop_last(), a)
    }
}

/// The claims of two sets together, in order: the claims of `a` in their
/// places, each joined with what `b` says of the same type, and then the
/// claims of `b` on types that `a` does not claim, in the order of `b`.
pub open spec fn merged<S: ClaimState>(a: Seq<Claim<S>>, b: Seq<Claim<S>>) -> Seq<Claim<S>> {
    Seq::new(a.len(), |k: int| merged_claim(a[k], b)) + only_in(b, a)
}

/// A type is found exactly when it is listed, and what is found is listed.
pub proof fn lemma_find_index<S: ClaimState>(s: Seq<Claim<S>>, id: u64)
    ensures
        find(s, id) is Some <==> exists|k: int| 0 <= k < s.len() && (#[trigger] s[k]).id == id,
        find(s, id) is Some <==> lookup(s, id) is Some,
    decreases s.len(),
{
    if s.len() > 0 {
        let rest = s.drop_last();
        lemma_find_index(rest, id);
        if s.last().id == id {
            assert(s[s.len() - 1].id == id);
        } else {
            if find(rest, id) is Some {
                let k = choose|k: int| 0 <= k < rest.len() && (#[trigger] rest[k]).id == id;
                assert(s[k] == rest[k]);
            }
            if exists|k: int| 0 <= k < s.len() && (#[trigger] s[k]).id == id {
                let k = choose|k: int| 0 <= k < s.len() && (#[trigger] s[k]).id == id;
                assert(rest[k] == s[k]);
            }
        }
    }
}

/// Every claim that `b` alone makes is a claim of `b`.
pub proof fn lemma_only_in_from<S: ClaimState>(b: Seq<Claim<S>>, a: Seq<Claim<S>>, k: int)
    requires
        0 <= k < only_in(b, a).len(),
    ensures
        exists|j: int| 0 <= j < b.len() && #[trigger] b[j] == only_in(b, a)[k],
    decreases b.len(),
{
    if b.len() > 0 {
        let rest = b.drop_last();
        if lookup(a, b.last().id) is None && k == only_in(rest, a).len() {
            assert(b[b.len() - 1] == only_in(b, a)[k]);
        } else {
            lemma_only_in_from(rest, a, k);
            let j = choose|j: int| 0 <= j < rest.len() && #[trigger] rest[j] == only_in(rest, a)[k];
            assert(b[j] == rest[j]);
        }
    }
}

/// Whether some type of the map is claimed in conflict.
pub open spec fn map_has_error<K, S: ClaimState>(m: Map<K, S>) -> bool {
    exists|id: K| m.dom().contains(id) && (#[trigger] m[id]).spec_is_error()
}

/// A type that is listed at `k` is found with the state listed there.
pub proof fn lemma_lookup_at<S: ClaimState>(s: Seq<Claim<S>>, k: int)
    requires
        distinct_ids(s),
        0 <= k < s.len(),
    ensures
        lookup(s, s[k].id) == Some(s[k].state),
    decreases s.len(),
{
    if k < s.len() - 1 {
        assert(s.last().id != s[k].id);
        assert(s.drop_last()[k] == s[k]);
        lemma_lookup_at(s.drop_last(), k);
    }
}

/// A type that is found is listed somewhere, and one that is not is listed nowhere.
pub proof fn lemma_lookup_index<S: ClaimState>(s: Seq<Claim<S>>, id: u64)
    ensures
        lookup(s, id) is Some <==> exists|k: int| 0 <= k < s.len() && (#[trigger] s[k]).id == id,
        lookup(s, id) matches Some(state) ==> exists|k: int|
            0 <= k < s.len() && (#[trigger] s[k]).id == id && s[k].state == state,
    decreases s.len(),
{
    if s.len() > 0 {
        let rest = s.drop_last();
        lemma_lookup_index(rest, id);
        if s.last().id == id {
            assert(s[s.len() - 1].id == id);
        } else {
            if lookup(rest, id) is Some {
                let k = choose|k: int|
                    0 <= k < rest.len() && (#[trigger] rest[k]).id == id && rest[k].state
                        == lookup(rest, id)->0;
                assert(s[k] == rest[k]);
            }
            if exists|k: int| 0 <= k < s.len() && (#[trigger] s[k]).id == id {
                let k = choose|k: int| 0 <= k < s.len() && (#[trigger] s[k]).id == id;
                assert(rest[k] == s[k]);
            }
        }
    }
}

/// Replacing the state listed at `k` changes what is found for that type only.
pub proof fn lemma_lookup_update<S: ClaimState>(s: Seq<Claim<S>>, k: int, c: Claim<S>, id: u64)
    requires
        distinct_ids(s),
        0 <= k < s.len(),
        c.id == s[k].id,
    ensures
        distinct_ids(s.update(k, c)),
        lookup(s.update(k, c), id) == if id == c.id {
            Some(c.state)
        } else {
            lookup(s, id)
        },
    decreases s.len(),
{
    let u = s.update(k, c);
    assert(distinct_ids(u)) by {
        assert forall|i: int, j: int| 0 <= i < j < u.len() implies u[i].id != u[j].id by {
            assert(s[i].id != s[j].id);
        }
    }
    if id == c.id {
        lemma_lookup_at(u, k);
    } else if k == s.len() - 1 {
        assert(u.drop_last() == s.drop_last());
    } else {
        assert(u.drop_last() == s.drop_last().update(k, c));
        assert(u.last() == s.last());
        if s.last().id != id {
            assert(s.drop_last()[k] == s[k]);
            assert(distinct_ids(s.drop_last())) by {
                assert forall|i: int,
                    j: int| 0 <= i < j < s.drop_last().len() implies s.drop_last()[i].id
                    != s.drop_last()[j].id by {
                    assert(s[i].id != s[j].id);
                }
            }
            lemma_lookup_update(s.drop_last(), k, c, id);
        }
    }
}

impl<S: ClaimState> ClaimSet<S> {
    /// The claims in order.
    pub closed spec fn entries(&self) -> Seq<Claim<S>> {
        self.entries@
    }

    /// No type is listed twice.
    pub open spec fn wf(&self) -> bool {
        distinct_ids(self.entries())
    }

    /// The claims as a map from type to state.
    pub open spec fn view(&self) -> Map<u64, S> {
        Map::new(
            |id: u64| lookup(self.entries(), id) is Some,
            |id: u64| lookup(self.entries(), id)->0,
        )
    }

    /// Whether some type is claimed in conflict.
    pub open spec fn spec_has_violation(&self) -> bool {
        exists|k: int|
            0 <= k < self.entries().len() && (#[trigger] self.entries()[k]).state.spec_is_error()
    }

    /// A conflict among the entries is a conflict in the map, and the other way round.
    pub proof fn lemma_violation_in_view(&self)
        requires
            self.wf(),
        ensures
            self.spec_has_violation() == map_has_error(self@),
    {
        let s = self.entries();
        if self.spec_has_violation() {
            let k = choose|k: int| 0 <= k < s.len() && (#[trigger] s[k]).state.spec_is_error();
            lemma_lookup_at(s, k);
            assert(self@.dom().contains(s[k].id) && self@[s[k].id].spec_is_error());
        }
        if map_has_error(self@) {
            let id = choose|id: u64| self@.dom().contains(id)
                && (#[trigger] self@[id]).spec_is_error();
            lemma_lookup_index(s, id);
        }
    }

    /// The set without claims.
    pub fn empty() -> (set: Self)
        ensures
            set.wf(),
            set.entries() == Seq::<Claim<S>>::empty(),
            set@ == Map::<u64, S>::empty(),
    {
        let set = ClaimSet { entries: Vec::new() };
        assert(set@ =~= Map::<u64, S>::empty());
        set
    }

    /// The set with one claim.
    pub fn of(id: u64, name: &'static str, state: S) -> (set: Self)
        ensures
            set.wf(),
            set.entries() == seq![Claim { id, name, state }],
            set@ == Map::<u64, S>::empty().insert(id, state),
    {
        let mut entries = Vec::new();
        entries.push(Claim { id, name, state });
        let set = ClaimSet { entries };
        proof {
            let s = set.entries();
            assert(s.drop_last() == Seq::<Claim<S>>::empty());
            assert forall|other: u64| lookup(s, other) == if other == id {
                Some(state)
            } else {
                None
            } by {
                reveal_with_fuel(lookup, 2);
                assert(s.drop_last().len() == 0);
                assert(s.last().id == id);
            }
            assert(set@ =~= Map::<u64, S>::empty().insert(id, state));
        }
        set
    }

    /// The number of claimed types.
    pub fn len(&self) -> (n: usize)
        ensures
            n == self.entries().len(),
    {
        self.entries.len()
    }

    /// The claim at `index`.
    pub fn get(&self, index: usize) -> (claim: &Claim<S>)
        requires
            index < self.entries().len(),
        ensures
            *claim == self.entries()[index as int],
    {
        &self.entries[index]
    }

    /// Where `id` is listed, if it is.
    pub fn position(&self, id: u64) -> (found: Option<usize>)
        ensures
            match found {
                Some(k) => k < self.entries().len() && self.entries()[k as int].id == id,
                None => lookup(self.entries(), id) is None,
            },
    {
        let mut k: usize = 0;
        while k < self.entries.len()
            invariant
                k <= self.entries@.len(),
                forall|j: int| 0 <= j < k ==> (#[trigger] self.entries@[j]).id != id,
            decreases self.entries@.len() - k,
        {
            if self.entries[k].id == id {
                return Some(k);
            }
            k += 1;
        }
        proof {
            lemma_lookup_index(self.entries@, id);
        }
        None
    }

    /// Whether some type is claimed in conflict.
    pub fn has_violation(&self) -> (b: bool)
        ensures
            b == self.spec_has_violation(),
    {
        let mut k: usize = 0;
        while k < self.entries.len()
            invariant
                k <= self.entries@.len(),
                forall|j: int| 0 <= j < k ==> !(#[trigger] self.entries@[j]).state.spec_is_error(),
            decreases self.entries@.len() - k,
        {
            if self.entries[k].state.is_error() {
                assert(self.entries()[k as int].state.spec_is_error());
                return true;
            }
            k += 1;
        }
        false
    }

    /// The claims of both sets. A type that both claim keeps its place in `a`
    /// and takes its name from `b`; the types that only `b` claims follow in
    /// the order of `b`.
    pub fn join(a: Self, b: Self) -> (joined: Self)
        requires
            a.wf(),
            b.wf(),
        ensures
            joined.wf(),
            joined.entries() == merged(a.entries(), b.entries()),
            joined@ == join_maps(a@, b@),
            forall|id: u64|
                lookup(joined.entries(), id) == join_options(
                    lookup(a.entries(), id),
                    #[trigger] lookup(b.entries(), id),
                ),
    {
        let mut cur = a;
        let mut i: usize = 0;
        let n = b.entries.len();
        while i < n
            invariant
                n == b.entries@.len(),
                i <= n,
                distinct_ids(cur.entries@),
                distinct_ids(a.entries@),
                distinct_ids(b.entries@),
                cur.entries@ == merged(a.entries@, b.entries@.take(i as int)),
                forall|id: u64|
                    lookup(cur.entries@, id) == join_options(
                        lookup(a.entries@, id),
                        #[trigger] lookup(b.entries@.take(i as int), id),
                    ),
            decreases n - i,
        {
            let claim = Claim {
                id: b.entries[i].id,
                name: b.entries[i].name,
                state: b.entries[i].state,
            };
            let ghost before = cur.entries@;
            let ghost seen = b.entries@.take(i as int);
            let ghost next = b.entries@.take(i + 1);
            proof {
                assert(next.drop_last() == seen);
                assert(next.last() == claim);
                lemma_lookup_index(seen, claim.id);
                if lookup(seen, claim.id) is Some {
                    let k = choose|k: int| 0 <= k < seen.len() && (#[trigger] seen[k]).id
                        == claim.id;
                    assert(b.entries@[k].id == b.entries@[i as int].id);
                }
                lemma_find_index(seen, claim.id);
                assert(find(seen, claim.id) is None);
                assert forall|id: u64| #[trigger] find(next, id) == if id == claim.id {
                    Some(claim)
                } else {
                    find(seen, id)
                } by {}
            }
            match cur.position(claim.id) {
                Some(k) => {
                    let state = S::join(cur.entries[k].state, claim.state);
                    cur.entries[k] = Claim { id: claim.id, name: claim.name, state };
                    proof {
                        let a_s = a.entries@;
                        if k >= a_s.len() {
                            lemma_only_in_from(seen, a_s, k - a_s.len());
                            let j = choose|j: int|
                                0 <= j < seen.len() && #[trigger] seen[j] == only_in(
                                    seen,
                                    a_s,
                                )[k - a_s.len()];
                            assert(b.entries@[j].id == b.entries@[i as int].id);
                        }
                        assert(before[k as int] == merged_claim(a_s[k as int], seen));
                        lemma_lookup_at(a_s, k as int);
                        assert(only_in(next, a_s) == only_in(seen, a_s));
                        assert(cur.entries@ =~= merged(a_s, next)) by {
                            assert forall|j: int| 0 <= j < a_s.len() implies cur.entries@[j]
                                == merged_claim(a_s[j], next) by {
                                assert(before[j] == merged_claim(a_s[j], seen));
                                if j != k {
                                    assert(a_s[j].id != a_s[k as int].id);
                                }
                            }
                        }
                        lemma_lookup_at(before, k as int);
                        assert forall|id: u64|
                            lookup(cur.entries@, id) == join_options(
                                lookup(a.entries@, id),
                                #[trigger] lookup(next, id),
                            ) by {
                            lemma_lookup_update(
                                before,
                                k as int,
                                Claim { id: claim.id, name: claim.name, state },
                                id,
                            );
                            assert(lookup(before, id) == join_options(
                                lookup(a.entries@, id),
                                lookup(seen, id),
                            ));
                        }
                        lemma_lookup_update(
                            before,
                            k as int,
                            Claim { id: claim.id, name: claim.name, state },
                            claim.id,
                        );
                    }
                },
                None => {
                    cur.entries.push(claim);
                    proof {
                        let a_s = a.entries@;
                        assert(cur.entries@.drop_last() == before);
                        lemma_lookup_index(before, claim.id);
                        lemma_lookup_index(a_s, claim.id);
                        assert(lookup(a_s, claim.id) is None) by {
                            if lookup(a_s, claim.id) is Some {
                                let j = choose|j: int|
                                    0 <= j < a_s.len() && (#[trigger] a_s[j]).id == claim.id;
                                assert(before[j] == merged_claim(a_s[j], seen));
                                assert(before[j].id == claim.id);
                            }
                        }
                        assert(only_in(next, a_s) == only_in(seen, a_s).push(claim));
                        assert(cur.entries@ =~= merged(a_s, next)) by {
                            assert forall|j: int| 0 <= j < a_s.len() implies cur.entries@[j]
                                == merged_claim(a_s[j], next) by {
                                assert(before[j] == merged_claim(a_s[j], seen));
                                if a_s[j].id == claim.id {
                                    lemma_lookup_at(a_s, j);
                                }
                            }
                        }
                        assert forall|id: u64|
                            lookup(cur.entries@, id) == join_options(
                                lookup(a.entries@, id),
                                #[trigger] lookup(next, id),
                            ) by {
                            assert(lookup(before, id) == join_options(
                                lookup(a.entries@, id),
                                lookup(seen, id),
                            ));
                        }
                        assert forall|p: int,
                            q: int| 0 <= p < q < cur.entries@.len() implies cur.entries@[p].id
                            != cur.entries@[q].id by {
                            if q == before.len() {
                                assert(before[p].id != claim.id);
                            } else {
                                assert(before[p].id != before[q].id);
                            }
                        }
                    }
                },
            }
            i += 1;
        }
        proof {
            assert(b.entries@.take(n as int) == b.entries@);
            assert(cur@ =~= join_maps(a@, b@));
        }
        cur
    }
}

/// The lines of a message: one for each type that is claimed in conflict, in order.
pub open spec fn error_lines<S: ClaimState>(s: Seq<Claim<S>>) -> Seq<char>
    decreases s.len(),
{
    if s.len() == 0 {
        Seq::<char>::empty()
    } else {
        error_lines(s.drop_last()) + if s.last().state.spec_is_error() {
            s.last().state.spec_error_line() + unqualified(s.last().name@)
        } else {
            Seq::<char>::empty()
        }
    }
}

/// Whether some claim of the list is a conflict.
pub open spec fn has_error<S: ClaimState>(s: Seq<Claim<S>>) -> bool {
    exists|k: int| 0 <= k < s.len() && (#[trigger] s[k]).state.spec_is_error()
}

/// The message for a list of claims: `header` and the lines of the conflicts,
/// or `ok` where there is none.
pub open spec fn message<S: ClaimState>(s: Seq<Claim<S>>, header: Seq<char>, ok: Seq<char>) -> Seq<
    char,
> {
    if has_error(s) {
        header + error_lines(s)
    } else {
        ok
    }
}

impl<S: ClaimState> ClaimSet<S> {
    /// Writes the message for these claims.
    pub fn message(&self, header: &str, ok: &str) -> (out: String)
        ensures
            out@ == message(self.entries(), header@, ok@),
    {
        let mut out = String::new();
        let mut errors = false;
        let mut k: usize = 0;
        let n = self.entries.len();
        while k < n
            invariant
                n == self.entries@.len(),
                k <= n,
                errors == has_error(self.entries@.take(k as int)),
                errors ==> out@ == header@ + error_lines(self.entries@.take(k as int)),
                !errors ==> out@ == Seq::<char>::empty(),
            decreases n - k,
        {
            let ghost seen = self.entries@.take(k as int);
            let ghost next = self.entries@.take(k + 1);
            let ghost written = out@;
            proof {
                assert(next.drop_last() == seen);
                assert(next.last() == self.entries@[k as int]);
            }
            if self.entries[k].state.is_error() {
                if !errors {
                    out.append(header);
                    proof {
                        lemma_no_error_no_lines(seen);
                    }
                }
                errors = true;
                out.append(self.entries[k].state.error_line());
                let name = unqualify(self.entries[k].name);
                out.append(name.as_str());
                proof {
                    assert(next[k as int].state.spec_is_error());
                    assert(out@ =~= header@ + error_lines(next));
                }
            } else {
                proof {
                    assert(error_lines(next) =~= error_lines(seen));
                    if has_error(next) {
                        let j = choose|j: int|
                            0 <= j < next.len() && (#[trigger] next[j]).state.spec_is_error();
                        assert(seen[j] == next[j]);
                    }
                    if has_error(seen) {
                        let j = choose|j: int|
                            0 <= j < seen.len() && (#[trigger] seen[j]).state.spec_is_error();
                        assert(seen[j] == next[j]);
                    }
                }
            }
            k += 1;
        }
        proof {
            assert(self.entries@.take(n as int) == self.entries@);
        }
        if !errors {
            out.append(ok);
            assert(out@ =~= ok@);
        }
        out
    }
}

impl<S: ClaimState> ClaimSet<S> {
    /// Writes the lines of the conflicts among these claims at the end of `out`.
    pub fn write_lines(&self, out: &mut String)
        ensures
            final(out)@ == old(out)@ + error_lines(self.entries()),
    {
        let mut k: usize = 0;
        let n = self.entries.len();
        proof {
            assert(self.entries@.take(0) =~= Seq::<Claim<S>>::empty());
            assert(out@ =~= old(out)@ + error_lines(self.entries@.take(0)));
        }
        while k < n
            invariant
                n == self.entries@.len(),
                k <= n,
                out@ == old(out)@ + error_lines(self.entries@.take(k as int)),
            decreases n - k,
        {
            let ghost seen = self.entries@.take(k as int);
            let ghost next = self.entries@.take(k + 1);
            proof {
                assert(next.drop_last() == seen);
                assert(next.last() == self.entries@[k as int]);
            }
            if self.entries[k].state.is_error() {
                out.append(self.entries[k].state.error_line());
                let name = unqualify(self.entries[k].name);
                out.append(name.as_str());
                proof {
                    assert(out@ =~= old(out)@ + error_lines(next));
                }
            } else {
                proof {
                    assert(error_lines(next) =~= error_lines(seen));
                }
            }
            k += 1;
        }
        proof {
            assert(self.entries@.take(n as int) == self.entries@);
        }
    }
}

/// The lines of two lists, one behind the other, are the lines of the one
/// and then the lines of the other; and a conflict in either is a conflict
/// in both together.
pub proof fn lemma_lines_of_both<S: ClaimState>(a: Seq<Claim<S>>, b: Seq<Claim<S>>)
    ensures
        error_lines(a + b) == error_lines(a) + error_lines(b),
        has_error(a + b) == (has_error(a) || has_error(b)),
    decreases b.len(),
{
    if b.len() == 0 {
        assert(a + b =~= a);
        assert(error_lines(a) + error_lines(b) =~= error_lines(a));
    } else {
        lemma_lines_of_both(a, b.drop_last());
        assert((a + b).drop_last() =~= a + b.drop_last());
        assert((a + b).last() == b.last());
        assert(error_lines(a + b) =~= error_lines(a) + error_lines(b));
    }
    if has_error(a) {
        let k = choose|k: int| 0 <= k < a.len() && (#[trigger] a[k]).state.spec_is_error();
        assert((a + b)[k] == a[k]);
    }
    if has_error(b) {
        let k = choose|k: int| 0 <= k < b.len() && (#[trigger] b[k]).state.spec_is_error();
        assert((a + b)[a.len() + k] == b[k]);
    }
    if has_error(a + b) {
        let k = choose|k: int|
            0 <= k < (a + b).len() && (#[trigger] (a + b)[k]).state.spec_is_error();
        if k < a.len() {
            assert(a[k] == (a + b)[k]);
        } else {
            assert(b[k - a.len()] == (a + b)[k]);
        }
    }
}

/// A list without conflicts has no lines.
pub proof fn lemma_no_error_no_lines<S: ClaimState>(s: Seq<Claim<S>>)
    requires
        !has_error(s),
    ensures
        error_lines(s) == Seq::<char>::empty(),
    decreases s.len(),
{
    if s.len() > 0 {
        assert(!s[s.len() - 1].state.spec_is_error());
        assert(!has_error(s.drop_last())) by {
            if has_error(s.drop_last()) {
                let j = choose|j: int|
                    0 <= j < s.drop_last().len()
                        && (#[trigger] s.drop_last()[j]).state.spec_is_error();
                assert(s[j] == s.drop_last()[j]);
            }
        }
        lemma_no_error_no_lines(s.drop_last());
    }
}

/// Joining is commutative: both orders claim the same types in the same states.
pub proof fn lemma_join_maps_commutative<K, S: ClaimState>(a: Map<K, S>, b: Map<K, S>)
    ensures
        join_maps(a, b) == join_maps(b, a),
{
    assert forall|id: K| #[trigger]
        join_maps(a, b).dom().contains(id) implies join_maps(a, b)[id] == join_maps(b, a)[id] by {
        if a.dom().contains(id) && b.dom().contains(id) {
            S::lemma_join_commutative(a[id], b[id]);
        }
    }
    assert(join_maps(a, b) =~= join_maps(b, a));
}

/// Joining is associative: the grouping of three sets does not matter.
pub proof fn lemma_join_maps_associative<K, S: ClaimState>(
    a: Map<K, S>,
    b: Map<K, S>,
    c: Map<K, S>,
)
    ensures
        join_maps(join_maps(a, b), c) == join_maps(a, join_maps(b, c)),
{
    let left = join_maps(join_maps(a, b), c);
    let right = join_maps(a, join_maps(b, c));
    assert forall|id: K| #[trigger] left.dom().contains(id) implies left[id] == right[id] by {
        if a.dom().contains(id) && b.dom().contains(id) && c.dom().contains(id) {
            S::lemma_join_associative(a[id], b[id], c[id]);
        }
    }
    assert(left =~= right);
}

/// A violation is sticky: a join with a violating set violates, on either side.
pub proof fn lemma_join_maps_sticky<K, S: ClaimState>(a: Map<K, S>, b: Map<K, S>)
    requires
        map_has_error(a),
    ensures
        map_has_error(join_maps(a, b)),
        map_has_error(join_maps(b, a)),
{
    let id = choose|id: K| a.dom().contains(id) && (#[trigger] a[id]).spec_is_error();
    if b.dom().contains(id) {
        S::lemma_error_is_sticky(a[id], b[id]);
        S::lemma_join_commutative(a[id], b[id]);
    }
    assert(join_maps(a, b).dom().contains(id) && join_maps(a, b)[id].spec_is_error());
    assert(join_maps(b, a).dom().contains(id) && join_maps(b, a)[id].spec_is_error());
}

} // verus!
