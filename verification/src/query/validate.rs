//! The rules of borrowing, held to what a query asks for.

use vstd::prelude::*;
use vstd::string::StringExecFns;
use crate::util::claims::{
    error_lines, join_maps, lemma_join_maps_associative, lemma_join_maps_commutative,
    lemma_join_maps_sticky, lemma_lines_of_both, map_has_error, merged, message, Claim, ClaimSet,
    ClaimState,
};

verus! {

/// How a query accesses a value, and whether its accesses conflict.
#[derive(Clone, Copy, Debug, PartialEq, Eq, Structural)]
pub enum QueryValidatorEntryState {
    /// The value is read, any number of times.
    Immutable,
    /// The value is changed, by one access and no other.
    Mutable,
    /// The value is taken, by one access and no other.
    Owned,
    /// The value is changed and accessed in another way too.
    MutableError,
    /// The value is taken and accessed in another way too.
    OwnedError,
}

impl ClaimState for QueryValidatorEntryState {
    open spec fn spec_join(a: Self, b: Self) -> Self {
        if a is OwnedError || b is OwnedError || a is Owned || b is Owned {
            QueryValidatorEntryState::OwnedError
        } else if a is MutableError || b is MutableError || a is Mutable || b is Mutable {
            QueryValidatorEntryState::MutableError
        } else {
            QueryValidatorEntryState::Immutable
        }
    }

    open spec fn spec_is_error(&self) -> bool {
        *self is MutableError || *self is OwnedError
    }

    open spec fn spec_error_line(&self) -> Seq<char> {
        match *self {
            QueryValidatorEntryState::MutableError => "\n  Already mutably borrowed "@,
            QueryValidatorEntryState::OwnedError => "\n  Already took ownership of "@,
            _ => ""@,
        }
    }

    fn join(a: Self, b: Self) -> (joined: Self) {
        match (a, b) {
            (QueryValidatorEntryState::OwnedError, _) | (_,
                QueryValidatorEntryState::OwnedError) => {
                QueryValidatorEntryState::OwnedError
            },
            (QueryValidatorEntryState::Owned, _) | (_, QueryValidatorEntryState::Owned) => {
                QueryValidatorEntryState::OwnedError
            },
            (QueryValidatorEntryState::MutableError, _)
            | (_, QueryValidatorEntryState::MutableError) => {
                QueryValidatorEntryState::MutableError
            },
            (QueryValidatorEntryState::Mutable, _) | (_, QueryValidatorEntryState::Mutable) => {
                QueryValidatorEntryState::MutableError
            },
            (
                QueryValidatorEntryState::Immutable,
                QueryValidatorEntryState::Immutable,
            ) => QueryValidatorEntryState::Immutable,
        }
    }

    fn is_error(&self) -> (b: bool) {
        match self {
            QueryValidatorEntryState::Immutable => false,
            QueryValidatorEntryState::Mutable => false,
            QueryValidatorEntryState::Owned => false,
            QueryValidatorEntryState::MutableError => true,
            QueryValidatorEntryState::OwnedError => true,
        }
    }

    fn error_line(&self) -> (line: &'static str) {
        match self {
            QueryValidatorEntryState::MutableError => "\n  Already mutably borrowed ",
            QueryValidatorEntryState::OwnedError => "\n  Already took ownership of ",
            _ => "",
        }
    }

    proof fn lemma_join_commutative(a: Self, b: Self) {
    }

    proof fn lemma_join_associative(a: Self, b: Self, c: Self) {
    }

    proof fn lemma_error_is_sticky(a: Self, b: Self) {
    }
}

/// What a claim is on. Component types and resource types are told apart:
/// a claim on a component type never meets a claim on a resource type,
/// whatever their ids are.
#[derive(Clone, Copy, Debug, PartialEq, Eq, Structural)]
pub enum ClaimId {
    /// The component type with the given id.
    Component(u64),
    /// The resource type with the given id.
    Resource(u64),
}

/// The values that a query accesses, each with the way it is accessed and
/// the word on whether the accesses conflict.
pub struct QueryValidator {
    components: ClaimSet<QueryValidatorEntryState>,
    resources: ClaimSet<QueryValidatorEntryState>,
}

/// The first line of the message for a query that breaks the rules.
pub open spec fn query_violation_header() -> Seq<char> {
    "Query would violate the borrow checker rules:"@
}

/// The message for a query that keeps the rules.
pub open spec fn query_ok() -> Seq<char> {
    "Query OK"@
}

/// The claims of a query that accesses the one value in the one way.
pub open spec fn single_claim(id: ClaimId, state: QueryValidatorEntryState) -> Map<
    ClaimId,
    QueryValidatorEntryState,
> {
    Map::<ClaimId, QueryValidatorEntryState>::empty().insert(id, state)
}

/// The claims on component types and the claims on resource types, as one
/// map.
pub open spec fn both_claims(
    components: Map<u64, QueryValidatorEntryState>,
    resources: Map<u64, QueryValidatorEntryState>,
) -> Map<ClaimId, QueryValidatorEntryState> {
    Map::new(
        |id: ClaimId|
            match id {
                ClaimId::Component(c) => components.dom().contains(c),
                ClaimId::Resource(r) => resources.dom().contains(r),
            },
        |id: ClaimId|
            match id {
                ClaimId::Component(c) => components[c],
                ClaimId::Resource(r) => resources[r],
            },
    )
}

/// The one claim of a list with the given value, name and state.
pub open spec fn one_entry(id: ClaimId, name: &'static str, state: QueryValidatorEntryState) -> Seq<
    Claim<QueryValidatorEntryState>,
> {
    match id {
        ClaimId::Component(c) => seq![Claim { id: c, name, state }],
        ClaimId::Resource(r) => seq![Claim { id: r, name, state }],
    }
}

impl QueryValidator {
    /// The accessed values, each with its state.
    pub closed spec fn view(&self) -> Map<ClaimId, QueryValidatorEntryState> {
        both_claims(self.components@, self.resources@)
    }

    /// The accessed component types in the order in which they were first
    /// asked for.
    pub closed spec fn component_entries(&self) -> Seq<Claim<QueryValidatorEntryState>> {
        self.components.entries()
    }

    /// The accessed resource types in the order in which they were first
    /// asked for.
    pub closed spec fn resource_entries(&self) -> Seq<Claim<QueryValidatorEntryState>> {
        self.resources.entries()
    }

    /// The accessed values as the message lists them: the component types,
    /// and behind them the resource types.
    pub open spec fn entries(&self) -> Seq<Claim<QueryValidatorEntryState>> {
        self.component_entries() + self.resource_entries()
    }

    /// No value is listed twice.
    pub closed spec fn wf(&self) -> bool {
        self.components.wf() && self.resources.wf()
    }

    /// Whether the accesses to some value conflict.
    pub closed spec fn spec_has_violation(&self) -> bool {
        self.components.spec_has_violation() || self.resources.spec_has_violation()
    }

    /// The message that describes this validator.
    pub open spec fn spec_message(&self) -> Seq<char> {
        message(self.entries(), query_violation_header(), query_ok())
    }

    /// A violation is a value whose state is one of the two errors.
    pub proof fn lemma_violation(&self)
        requires
            self.wf(),
        ensures
            self.spec_has_violation() == map_has_error(self@),
            self.spec_has_violation() == crate::util::claims::has_error(self.entries()),
    {
        self.components.lemma_violation_in_view();
        self.resources.lemma_violation_in_view();
        lemma_lines_of_both(self.component_entries(), self.resource_entries());
        let c = self.components@;
        let r = self.resources@;
        if map_has_error(c) {
            let id = choose|id: u64| c.dom().contains(id) && (#[trigger] c[id]).spec_is_error();
            assert(self@.dom().contains(ClaimId::Component(id)));
            assert(self@[ClaimId::Component(id)].spec_is_error());
        }
        if map_has_error(r) {
            let id = choose|id: u64| r.dom().contains(id) && (#[trigger] r[id]).spec_is_error();
            assert(self@.dom().contains(ClaimId::Resource(id)));
            assert(self@[ClaimId::Resource(id)].spec_is_error());
        }
        if map_has_error(self@) {
            let id = choose|id: ClaimId|
                self@.dom().contains(id) && (#[trigger] self@[id]).spec_is_error();
            match id {
                ClaimId::Component(x) => {
                    assert(c.dom().contains(x) && c[x].spec_is_error());
                },
                ClaimId::Resource(x) => {
                    assert(r.dom().contains(x) && r[x].spec_is_error());
                },
            }
        }
    }

    /// The validator of a query that asks for nothing.
    pub fn empty() -> (validator: Self)
        ensures
            validator.wf(),
            validator@ == Map::<ClaimId, QueryValidatorEntryState>::empty(),
            validator.component_entries() == Seq::<Claim<QueryValidatorEntryState>>::empty(),
            validator.resource_entries() == Seq::<Claim<QueryValidatorEntryState>>::empty(),
            !validator.spec_has_violation(),
    {
        let validator = QueryValidator { components: ClaimSet::empty(),
            resources: ClaimSet::empty() };
        proof {
            assert(validator@ =~= Map::<ClaimId, QueryValidatorEntryState>::empty());
        }
        validator
    }

    /// The validator with one value in the given state.
    pub fn of(id: ClaimId, name: &'static str, state: QueryValidatorEntryState) -> (validator: Self)
        ensures
            validator.wf(),
            validator@ == single_claim(id, state),
            validator.entries() == one_entry(id, name, state),
            validator.component_entries() == if id is Component {
                one_entry(id, name, state)
            } else {
                Seq::<Claim<QueryValidatorEntryState>>::empty()
            },
            validator.resource_entries() == if id is Resource {
                one_entry(id, name, state)
            } else {
                Seq::<Claim<QueryValidatorEntryState>>::empty()
            },
            validator.spec_has_violation() == state.spec_is_error(),
    {
        let validator = match id {
            ClaimId::Component(c) => QueryValidator {
                components: ClaimSet::of(c, name, state),
                resources: ClaimSet::empty(),
            },
            ClaimId::Resource(r) => QueryValidator {
                components: ClaimSet::empty(),
                resources: ClaimSet::of(r, name, state),
            },
        };
        proof {
            assert(validator@ =~= single_claim(id, state));
            assert(validator.entries() =~= one_entry(id, name, state));
            let s = one_entry(id, name, state);
            if state.spec_is_error() {
                assert(s[0].state.spec_is_error());
            }
        }
        validator
    }

    /// The validator of a query that reads the component type `id`. Any
    /// number of reads of one value go together.
    pub fn of_immutable(id: u64, name: &'static str) -> (validator: Self)
        ensures
            validator.wf(),
            validator@ == single_claim(ClaimId::Component(id), QueryValidatorEntryState::Immutable),
            validator.entries() == seq![
                Claim { id, name, state: QueryValidatorEntryState::Immutable },
            ],
            validator.component_entries() == validator.entries(),
            validator.resource_entries() == Seq::<Claim<QueryValidatorEntryState>>::empty(),
            !validator.spec_has_violation(),
    {
        Self::of(ClaimId::Component(id), name, QueryValidatorEntryState::Immutable)
    }

    /// The validator of a query that changes the component type `id`.
    /// Nothing else may access that value.
    pub fn of_mutable(id: u64, name: &'static str) -> (validator: Self)
        ensures
            validator.wf(),
            validator@ == single_claim(ClaimId::Component(id), QueryValidatorEntryState::Mutable),
            validator.entries() == seq![
                Claim { id, name, state: QueryValidatorEntryState::Mutable },
            ],
            validator.component_entries() == validator.entries(),
            validator.resource_entries() == Seq::<Claim<QueryValidatorEntryState>>::empty(),
            !validator.spec_has_violation(),
    {
        Self::of(ClaimId::Component(id), name, QueryValidatorEntryState::Mutable)
    }

    /// The validator of a query that takes the component type `id`. Nothing
    /// else may access that value.
    pub fn of_owned(id: u64, name: &'static str) -> (validator: Self)
        ensures
            validator.wf(),
            validator@ == single_claim(ClaimId::Component(id), QueryValidatorEntryState::Owned),
            validator.entries() == seq![
                Claim { id, name, state: QueryValidatorEntryState::Owned },
            ],
            validator.component_entries() == validator.entries(),
            validator.resource_entries() == Seq::<Claim<QueryValidatorEntryState>>::empty(),
            !validator.spec_has_violation(),
    {
        Self::of(ClaimId::Component(id), name, QueryValidatorEntryState::Owned)
    }

    /// The validator of the query that asks for what `a` and `b` ask for.
    /// Component types are joined with component types, and resource types
    /// with resource types. In each list, a value that both access keeps
    /// its place in `a` and takes its name from `b`; the values that only
    /// `b` accesses follow in the order of `b`.
    pub fn join(a: Self, b: Self) -> (joined: Self)
        requires
            a.wf(),
            b.wf(),
        ensures
            joined.wf(),
            joined@ == join_maps(a@, b@),
            joined.component_entries() == merged(a.component_entries(), b.component_entries()),
            joined.resource_entries() == merged(a.resource_entries(), b.resource_entries()),
    {
        let joined = QueryValidator {
            components: ClaimSet::join(a.components, b.components),
            resources: ClaimSet::join(a.resources, b.resources),
        };
        proof {
            assert(joined@ =~= join_maps(a@, b@));
        }
        joined
    }

    /// Whether the accesses to some value conflict.
    pub fn has_violation(&self) -> (b: bool)
        ensures
            b == self.spec_has_violation(),
    {
        self.components.has_violation() || self.resources.has_violation()
    }

    /// Goes on only where the query keeps the rules: a validator with a
    /// violation cannot be passed.
    pub fn panic_on_violation(&self)
        requires
            !self.spec_has_violation(),
    {
    }

    /// The message for a query that breaks the rules, `None` for one that keeps them.
    pub fn violation(&self) -> (res: Option<String>)
        ensures
            res is Some == self.spec_has_violation(),
            res matches Some(text) ==> text@ == self.spec_message(),
    {
        if self.has_violation() {
            Some(self.to_string())
        } else {
            None
        }
    }

    /// Describes the validator: the header and one line for each value whose
    /// accesses conflict, or the word that all is well.
    pub fn to_string(&self) -> (text: String)
        ensures
            text@ == self.spec_message(),
    {
        proof {
            lemma_lines_of_both(self.component_entries(), self.resource_entries());
        }
        if self.has_violation() {
            let mut text = String::from_str("Query would violate the borrow checker rules:");
            self.components.write_lines(&mut text);
            self.resources.write_lines(&mut text);
            proof {
                assert(text@ =~= query_violation_header() + error_lines(self.entries()));
            }
            text
        } else {
            String::from_str("Query OK")
        }
    }
}

/// Joining query validators is commutative.
pub proof fn lemma_query_join_commutative(a: QueryValidator, b: QueryValidator)
    ensures
        join_maps(a@, b@) == join_maps(b@, a@),
{
    lemma_join_maps_commutative(a@, b@);
}

/// Joining query validators is associative.
pub proof fn lemma_query_join_associative(a: QueryValidator, b: QueryValidator, c: QueryValidator)
    ensures
        join_maps(join_maps(a@, b@), c@) == join_maps(a@, join_maps(b@, c@)),
{
    lemma_join_maps_associative(a@, b@, c@);
}

/// A query validator with a violation keeps it in every join.
pub proof fn lemma_query_violation_is_sticky(a: QueryValidator, b: QueryValidator)
    requires
        map_has_error(a@),
    ensures
        map_has_error(join_maps(a@, b@)),
        map_has_error(join_maps(b@, a@)),
{
    lemma_join_maps_sticky(a@, b@);
}

/// Two accesses to one value conflict unless both only read it: adding such
/// a claim to a validator, however clean, yields a violation.
pub proof fn lemma_query_conflict_violates(
    a: Map<ClaimId, QueryValidatorEntryState>,
    id: ClaimId,
    state: QueryValidatorEntryState,
)
    requires
        a.dom().contains(id),
        !(a[id] is Immutable && state is Immutable),
    ensures
        map_has_error(join_maps(a, single_claim(id, state))),
{
    let b = single_claim(id, state);
    assert(b.dom().contains(id));
    assert(join_maps(a, b).dom().contains(id));
    assert(join_maps(a, b)[id].spec_is_error());
}

/// Reading one value twice is no conflict.
pub proof fn lemma_query_shared_reads(id: ClaimId)
    ensures
        !map_has_error(
            join_maps(
                single_claim(id, QueryValidatorEntryState::Immutable),
                single_claim(id, QueryValidatorEntryState::Immutable),
            ),
        ),
{
    let a = single_claim(id, QueryValidatorEntryState::Immutable);
    let j = join_maps(a, a);
    assert forall|other: ClaimId| j.dom().contains(other) implies !(
    #[trigger] j[other]).spec_is_error() by {
        assert(other == id);
    }
}

/// A claim on a component type and a claim on a resource type never meet,
/// whatever their ids are: joined, each is what it was.
pub proof fn lemma_query_kinds_apart(
    id: u64,
    on_component: QueryValidatorEntryState,
    on_resource: QueryValidatorEntryState,
)
    ensures
        join_maps(
            single_claim(ClaimId::Component(id), on_component),
            single_claim(ClaimId::Resource(id), on_resource),
        ) == single_claim(ClaimId::Component(id), on_component).insert(
            ClaimId::Resource(id),
            on_resource,
        ),
{
    let a = single_claim(ClaimId::Component(id), on_component);
    let b = single_claim(ClaimId::Resource(id), on_resource);
    assert(!a.dom().contains(ClaimId::Resource(id)));
    assert(!b.dom().contains(ClaimId::Component(id)));
    assert(join_maps(a, b) =~= a.insert(ClaimId::Resource(id), on_resource));
}

} // verus!
