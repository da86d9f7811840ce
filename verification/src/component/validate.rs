//! The rule of bundles: no component type twice.

use vstd::prelude::*;
use crate::component::ComponentTypeInfo;
use crate::util::claims::{
    join_maps, lemma_join_maps_associative, lemma_join_maps_commutative, lemma_join_maps_sticky,
    map_has_error, merged, message, Claim, ClaimSet, ClaimState,
};

verus! {

/// How a bundle holds a component type.
#[derive(Clone, Copy, Debug, PartialEq, Eq, Structural)]
pub enum BundleValidatorEntryState {
    /// The bundle holds the component type.
    Included,
    /// The bundle holds the component type more than once.
    IncludedError,
}

impl ClaimState for BundleValidatorEntryState {
    open spec fn spec_join(a: Self, b: Self) -> Self {
        BundleValidatorEntryState::IncludedError
    }

    open spec fn spec_is_error(&self) -> bool {
        *self is IncludedError
    }

    open spec fn spec_error_line(&self) -> Seq<char> {
        "\n  Already included "@
    }

    fn join(a: Self, b: Self) -> (joined: Self) {
        match (a, b) {
            (BundleValidatorEntryState::IncludedError, _)
            | (_, BundleValidatorEntryState::IncludedError) => {
                BundleValidatorEntryState::IncludedError
            },
            (
                BundleValidatorEntryState::Included,
                BundleValidatorEntryState::Included,
            ) => BundleValidatorEntryState::IncludedError,
        }
    }

    fn is_error(&self) -> (b: bool) {
        match self {
            BundleValidatorEntryState::Included => false,
            BundleValidatorEntryState::IncludedError => true,
        }
    }

    fn error_line(&self) -> (line: &'static str) {
        "\n  Already included "
    }

    proof fn lemma_join_commutative(a: Self, b: Self) {
    }

    proof fn lemma_join_associative(a: Self, b: Self, c: Self) {
    }

    proof fn lemma_error_is_sticky(a: Self, b: Self) {
    }
}

/// The component types that a bundle holds, each with the word on whether
/// the bundle holds it more than once.
pub struct BundleValidator {
    claims: ClaimSet<BundleValidatorEntryState>,
}

/// The first line of the message for a bundle that breaks the rule.
pub open spec fn bundle_violation_header() -> Seq<char> {
    "Bundle violates the archetype rules:"@
}

/// The message for a bundle that keeps the rule.
pub open spec fn bundle_ok() -> Seq<char> {
    "Query OK"@
}

impl BundleValidator {
    /// The component types by id, each with its state.
    pub closed spec fn view(&self) -> Map<u64, BundleValidatorEntryState> {
        self.claims@
    }

    /// The component types in the order in which they were first included.
    pub closed spec fn entries(&self) -> Seq<Claim<BundleValidatorEntryState>> {
        self.claims.entries()
    }

    /// No component type is listed twice.
    pub closed spec fn wf(&self) -> bool {
        self.claims.wf()
    }

    /// Whether some component type is held more than once.
    pub closed spec fn spec_has_violation(&self) -> bool {
        self.claims.spec_has_violation()
    }

    /// The message that describes this validator.
    pub open spec fn spec_message(&self) -> Seq<char> {
        message(self.entries(), bundle_violation_header(), bundle_ok())
    }

    /// A violation is a component type whose state is `IncludedError`.
    pub proof fn lemma_violation(&self)
        requires
            self.wf(),
        ensures
            self.spec_has_violation() == map_has_error(self@),
            self.spec_has_violation() == crate::util::claims::has_error(self.entries()),
    {
        self.claims.lemma_violation_in_view();
    }

    /// The validator of a bundle that holds nothing.
    pub fn empty() -> (validator: Self)
        ensures
            validator.wf(),
            validator@ == Map::<u64, BundleValidatorEntryState>::empty(),
            validator.entries() == Seq::<Claim<BundleValidatorEntryState>>::empty(),
            !validator.spec_has_violation(),
    {
        BundleValidator { claims: ClaimSet::empty() }
    }

    /// The validator with one component type in the given state.
    pub fn of(info: &ComponentTypeInfo, state: BundleValidatorEntryState) -> (validator: Self)
        ensures
            validator.wf(),
            validator@ == Map::<u64, BundleValidatorEntryState>::empty().insert(
                info.type_id,
                state,
            ),
            validator.entries() == seq![Claim { id: info.type_id, name: info.name, state }],
    {
        BundleValidator { claims: ClaimSet::of(info.type_id, info.name, state) }
    }

    /// The validator of a bundle that holds the one component type.
    pub fn of_included(info: &ComponentTypeInfo) -> (validator: Self)
        ensures
            validator.wf(),
            validator@ == Map::<u64, BundleValidatorEntryState>::empty().insert(
                info.type_id,
                BundleValidatorEntryState::Included,
            ),
            validator.entries() == seq![
                Claim {
                    id: info.type_id,
                    name: info.name,
                    state: BundleValidatorEntryState::Included,
                },
            ],
            !validator.spec_has_violation(),
    {
        let validator = Self::of(info, BundleValidatorEntryState::Included);
        proof {
            let s = validator.entries();
            assert forall|k: int| 0 <= k < s.len() implies !(#[trigger] s[k]).state.spec_is_error() by {}
        }
        validator
    }

    /// The validator of the bundle that holds what `a` and `b` hold. A
    /// component type that both hold is held more than once; it keeps its
    /// place in `a` and takes its name from `b`. The component types that
    /// only `b` holds follow in the order of `b`.
    pub fn join(a: Self, b: Self) -> (joined: Self)
        requires
            a.wf(),
            b.wf(),
        ensures
            joined.wf(),
            joined@ == join_maps(a@, b@),
            joined.entries() == merged(a.entries(), b.entries()),
    {
        BundleValidator { claims: ClaimSet::join(a.claims, b.claims) }
    }

    /// Whether some component type is held more than once.
    pub fn has_violation(&self) -> (b: bool)
        ensures
            b == self.spec_has_violation(),
    {
        self.claims.has_violation()
    }

    /// Goes on only where the bundle keeps the rule: a validator with a
    /// violation cannot be passed.
    pub fn panic_on_violation(&self)
        requires
            !self.spec_has_violation(),
    {
    }

    /// The message for a bundle that breaks the rule, `None` for one that keeps it.
    pub fn violation(&self) -> (res: Option<String>)
        ensures
            res is Some == self.spec_has_violation(),
            res matches Some(text) ==> text@ == self.spec_message(),
    {
        if self.has_violation() {
            Some(self.to_string())
        } else {
            None
        }
    }

    /// Describes the validator: the header and one line for each component
    /// type that is held more than once, or the word that all is well.
    pub fn to_string(&self) -> (text: String)
        ensures
            text@ == self.spec_message(),
    {
        self.claims.message("Bundle violates the archetype rules:", "Query OK")
    }
}

/// Joining bundle validators is commutative.
pub proof fn lemma_bundle_join_commutative(a: BundleValidator, b: BundleValidator)
    ensures
        join_maps(a@, b@) == join_maps(b@, a@),
{
    lemma_join_maps_commutative(a@, b@);
}

/// Joining bundle validators is associative.
pub proof fn lemma_bundle_join_associative(a: BundleValidator, b: BundleValidator, c: BundleValidator)
    ensures
        join_maps(join_maps(a@, b@), c@) == join_maps(a@, join_maps(b@, c@)),
{
    lemma_join_maps_associative(a@, b@, c@);
}

/// A bundle validator with a violation keeps it in every join.
pub proof fn lemma_bundle_violation_is_sticky(a: BundleValidator, b: BundleValidator)
    requires
        map_has_error(a@),
    ensures
        map_has_error(join_maps(a@, b@)),
        map_has_error(join_maps(b@, a@)),
{
    lemma_join_maps_sticky(a@, b@);
}

/// Including a component type that a validator already holds is a
/// violation, however clean the validator was.
pub proof fn lemma_bundle_duplicate_violates(
    a: Map<u64, BundleValidatorEntryState>,
    type_id: u64,
)
    requires
        a.dom().contains(type_id),
    ensures
        map_has_error(
            join_maps(
                a,
                Map::<u64, BundleValidatorEntryState>::empty().insert(
                    type_id,
                    BundleValidatorEntryState::Included,
                ),
            ),
        ),
{
    let b = Map::<u64, BundleValidatorEntryState>::empty().insert(
        type_id,
        BundleValidatorEntryState::Included,
    );
    assert(b.dom().contains(type_id));
    assert(join_maps(a, b).dom().contains(type_id));
    assert(join_maps(a, b)[type_id].spec_is_error());
}

} // verus!
