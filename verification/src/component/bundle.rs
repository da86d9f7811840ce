//! Bundles: the components of one entity, handed over together.

use vstd::prelude::*;
use crate::component::validate::{BundleValidator, BundleValidatorEntryState};
use crate::component::{canonical, canonical_le, canonical_lt, ComponentTypeInfo};
use crate::util::claims::{join_maps, lookup, merged, Claim, ClaimState};

verus! {

/// One component of a bundle: its type and its value.
pub struct BundleComponent<V> {
    pub info: ComponentTypeInfo,
    pub value: V,
}

/// The components of one entity, in the order in which they were given.
///
/// A bundle is valid when no component type occurs twice in it.
pub struct Bundle<V> {
    name: &'static str,
    components: Vec<BundleComponent<V>>,
}

/// No type id occurs twice in the list.
pub open spec fn distinct_type_ids(infos: Seq<ComponentTypeInfo>) -> bool {
    forall|i: int, j: int| 0 <= i < j < infos.len() ==> infos[i].type_id != infos[j].type_id
}

/// Whether the list holds a type with the given id.
pub open spec fn has_type_id(infos: Seq<ComponentTypeInfo>, type_id: u64) -> bool {
    exists|i: int| 0 <= i < infos.len() && (#[trigger] infos[i]).type_id == type_id
}

/// Whether both lists name the same set of component types.
pub open spec fn same_type_ids(a: Seq<ComponentTypeInfo>, b: Seq<ComponentTypeInfo>) -> bool {
    &&& forall|i: int| 0 <= i < a.len() ==> has_type_id(b, (#[trigger] a[i]).type_id)
    &&& forall|i: int| 0 <= i < b.len() ==> has_type_id(a, (#[trigger] b[i]).type_id)
}

impl<V> Bundle<V> {
    /// The components in the order in which they were given.
    pub closed spec fn view(&self) -> Seq<BundleComponent<V>> {
        self.components@
    }

    /// The name of the bundle, which an archetype made for it takes over.
    pub closed spec fn name(&self) -> &'static str {
        self.name
    }

    /// The types of the components, in the order in which they were given.
    pub open spec fn infos(&self) -> Seq<ComponentTypeInfo> {
        Seq::new(self@.len(), |i: int| self@[i].info)
    }

    /// No component type occurs twice.
    pub open spec fn is_valid(&self) -> bool {
        distinct_type_ids(self.infos())
    }

    /// Where the component of the given type stands.
    pub open spec fn index_of(&self, type_id: u64) -> int {
        choose|i: int| 0 <= i < self@.len() && (#[trigger] self@[i]).info.type_id == type_id
    }

    /// The value of the component of the given type.
    pub open spec fn value_of(&self, type_id: u64) -> V {
        self@[self.index_of(type_id)].value
    }

    /// Whether the bundle holds exactly the component types of `columns`, each once.
    pub open spec fn matches(&self, columns: Seq<ComponentTypeInfo>) -> bool {
        &&& self.is_valid()
        &&& same_type_ids(self.infos(), columns)
    }

    /// In a valid bundle a type id stands at one place only.
    pub proof fn lemma_index_of(&self, i: int)
        requires
            self.is_valid(),
            0 <= i < self@.len(),
        ensures
            self.index_of(self@[i].info.type_id) == i,
            self.value_of(self@[i].info.type_id) == self@[i].value,
    {
        let j = self.index_of(self@[i].info.type_id);
        assert(self@[i].info.type_id == self@[i].info.type_id);
        assert(0 <= j < self@.len() && self@[j].info.type_id == self@[i].info.type_id);
        if j != i {
            assert(self.infos()[i].type_id == self.infos()[j].type_id);
        }
    }

    /// A type that the bundle holds stands somewhere in it.
    pub proof fn lemma_index_of_exists(&self, type_id: u64)
        requires
            has_type_id(self.infos(), type_id),
        ensures
            0 <= self.index_of(type_id) < self@.len(),
            self@[self.index_of(type_id)].info.type_id == type_id,
    {
        let i = choose|i: int|
            0 <= i < self.infos().len() && (#[trigger] self.infos()[i]).type_id == type_id;
        assert(self@[i].info.type_id == type_id);
    }

    /// The bundle without components and without a name.
    pub fn new() -> (bundle: Self)
        ensures
            bundle@ == Seq::<BundleComponent<V>>::empty(),
            bundle.name() == "",
            bundle.is_valid(),
    {
        Bundle { name: "", components: Vec::new() }
    }

    /// The bundle without components, with a name.
    pub fn named(name: &'static str) -> (bundle: Self)
        ensures
            bundle@ == Seq::<BundleComponent<V>>::empty(),
            bundle.name() == name,
            bundle.is_valid(),
    {
        Bundle { name, components: Vec::new() }
    }

    /// The name of the bundle.
    pub fn bundle_name(&self) -> (name: &'static str)
        ensures
            name == self.name(),
    {
        self.name
    }

    /// The number of components.
    pub fn len(&self) -> (n: usize)
        ensures
            n == self@.len(),
    {
        self.components.len()
    }

    /// Adds one component at the end.
    pub fn push(&mut self, info: ComponentTypeInfo, value: V)
        ensures
            final(self)@ == old(self)@.push(BundleComponent { info, value }),
            final(self).name() == old(self).name(),
    {
        self.components.push(BundleComponent { info, value });
    }

    /// The bundle with one more component at the end.
    pub fn with(self, info: ComponentTypeInfo, value: V) -> (bundle: Self)
        ensures
            bundle@ == self@.push(BundleComponent { info, value }),
            bundle.name() == self.name(),
    {
        let mut bundle = self;
        bundle.push(info, value);
        bundle
    }

    /// The bundle that holds the components of `a` and then those of `b`.
    pub fn join(a: Self, b: Self) -> (bundle: Self)
        ensures
            bundle@ == a@ + b@,
            bundle.name() == a.name(),
    {
        let mut components = a.components;
        let mut rest = b.components;
        components.append(&mut rest);
        Bundle { name: a.name, components }
    }

    /// Takes the bundle apart.
    pub fn into_components(self) -> (components: Vec<BundleComponent<V>>)
        ensures
            components@ == self@,
    {
        self.components
    }

    /// The type ids of the components, in the order in which they were given.
    pub fn type_ids(&self) -> (ids: Vec<u64>)
        ensures
            ids@ == crate::component::type_ids(self.infos()),
    {
        let mut ids: Vec<u64> = Vec::new();
        let mut i: usize = 0;
        while i < self.components.len()
            invariant
                i <= self.components@.len(),
                ids@ == crate::component::type_ids(self.infos().take(i as int)),
            decreases self.components@.len() - i,
        {
            ids.push(self.components[i].info.type_id);
            proof {
                let next = self.infos().take(i + 1);
                assert(next.drop_last() == self.infos().take(i as int));
                assert(ids@ =~= crate::component::type_ids(next));
            }
            i += 1;
        }
        proof {
            assert(self.infos().take(self.components@.len() as int) == self.infos());
        }
        ids
    }

    /// The component types in the canonical order of columns: by falling
    /// alignment, and by rising id where the alignment is the same.
    pub fn type_info(&self) -> (infos: Vec<ComponentTypeInfo>)
        ensures
            canonical(infos@),
            infos@.len() == self@.len(),
            same_type_ids(self.infos(), infos@),
            self.is_valid() ==> distinct_type_ids(infos@),
            infos@.to_multiset() == self.infos().to_multiset(),
    {
        let mut out: Vec<ComponentTypeInfo> = Vec::new();
        let mut i: usize = 0;
        let n = self.components.len();
        assert(out@ =~= self.infos().take(0));
        while i < n
            invariant
                n == self.components@.len(),
                i <= n,
                out@.len() == i,
                canonical(out@),
                out@.to_multiset() == self.infos().take(i as int).to_multiset(),
            decreases n - i,
        {
            let info = self.components[i].info;
            let mut at: usize = 0;
            while at < out.len() && !info.precedes(&out[at])
                invariant
                    at <= out@.len(),
                    forall|k: int| 0 <= k < at ==> canonical_le(#[trigger] out@[k], info),
                decreases out@.len() - at,
            {
                at += 1;
            }
            let ghost before = out@;
            out.insert(at, info);
            proof {
                let seen = self.infos().take(i as int);
                let next = self.infos().take(i + 1);
                assert(next =~= seen.push(info));
                assert(out@.remove(at as int) =~= before);
                vstd::seq_lib::to_multiset_remove(out@, at as int);
                vstd::seq_lib::to_multiset_build(seen, info);
                assert(out@[at as int] == info);
                out@.to_multiset_ensures();
                assert(out@.contains(info));
                assert(out@.to_multiset() =~= before.to_multiset().insert(info));
                assert forall|p: int, q: int| 0 <= p < q < out@.len() implies canonical_le(
                    out@[p],
                    out@[q],
                ) by {
                    if q < at {
                        assert(out@[p] == before[p] && out@[q] == before[q]);
                    } else if q == at {
                        assert(out@[p] == before[p]);
                    } else if p < at {
                        assert(out@[p] == before[p] && out@[q] == before[q - 1]);
                    } else if p == at {
                        assert(out@[q] == before[q - 1]);
                        assert(canonical_lt(info, before[at as int]));
                        assert(canonical_le(before[at as int], before[q - 1]) || at == q - 1);
                    } else {
                        assert(out@[p] == before[p - 1] && out@[q] == before[q - 1]);
                    }
                }
            }
            i += 1;
        }
        proof {
            assert(self.infos().take(n as int) == self.infos());
            lemma_same_multiset_same_ids(self.infos(), out@);
        }
        out
    }

    /// The validator of this bundle: it names every component type of the
    /// bundle, and it has a violation exactly when the bundle is not valid.
    pub fn validate(&self) -> (validator: BundleValidator)
        ensures
            validator.wf(),
            forall|id: u64| validator@.dom().contains(id) <==> has_type_id(self.infos(), id),
            forall|id: u64| #[trigger]
                validator@.dom().contains(id) ==> (validator@[id] is IncludedError
                    <==> occurs_twice(
                    self.infos(),
                    id,
                )),
            validator.entries() == claims_of(self.infos()),
            validator.spec_has_violation() == !self.is_valid(),
    {
        let mut validator = BundleValidator::empty();
        let mut i: usize = 0;
        let n = self.components.len();
        while i < n
            invariant
                n == self.components@.len(),
                i <= n,
                validator.wf(),
                validator.entries() == claims_of(self.infos().take(i as int)),
                forall|id: u64|
                    validator@.dom().contains(id) <==> has_type_id(self.infos().take(i as int), id),
                forall|id: u64| #[trigger]
                    validator@.dom().contains(id) ==> (validator@[id] is IncludedError
                        <==> occurs_twice(self.infos().take(i as int), id)),
            decreases n - i,
        {
            let ghost seen = self.infos().take(i as int);
            let ghost next = self.infos().take(i + 1);
            let ghost before = validator@;
            let info = self.components[i].info;
            let one = BundleValidator::of_included(&info);
            validator = BundleValidator::join(validator, one);
            proof {
                assert(next.drop_last() == seen);
                assert(next.last() == info);
                let single = Map::<u64, BundleValidatorEntryState>::empty().insert(
                    info.type_id,
                    BundleValidatorEntryState::Included,
                );
                assert(validator@ == join_maps(before, single));
                assert forall|id: u64|
                    validator@.dom().contains(id) <==> has_type_id(next, id) by {
                    if has_type_id(seen, id) {
                        let k = choose|k: int| 0 <= k < seen.len()
                            && (#[trigger] seen[k]).type_id == id;
                        assert(next[k].type_id == id);
                    }
                    if has_type_id(next, id) {
                        let k = choose|k: int| 0 <= k < next.len()
                            && (#[trigger] next[k]).type_id == id;
                        if k < seen.len() {
                            assert(seen[k].type_id == id);
                        }
                    }
                    if id == info.type_id {
                        assert(next[i as int].type_id == id);
                    }
                }
                assert forall|id: u64| #[trigger]
                    validator@.dom().contains(id) implies (validator@[id] is IncludedError
                    <==> occurs_twice(next, id)) by {
                    lemma_occurs_twice_push(seen, info, id);
                }
            }
            i += 1;
        }
        proof {
            assert(self.infos().take(n as int) == self.infos());
            validator.lemma_violation();
            lemma_distinct_iff_none_twice(self.infos());
            if validator.spec_has_violation() {
                let id = choose|id: u64|
                    validator@.dom().contains(id) && (#[trigger] validator@[id]).spec_is_error();
                assert(occurs_twice(self.infos(), id));
            }
            if !self.is_valid() {
                let id = choose|id: u64| occurs_twice(self.infos(), id);
                let (p, q) = choose|p: int, q: int|
                    0 <= p < q < self.infos().len() && self.infos()[p].type_id == id
                        && self.infos()[q].type_id == id;
                assert(has_type_id(self.infos(), id));
                assert(validator@.dom().contains(id));
                assert(validator@[id].spec_is_error());
            }
        }
        validator
    }
}

/// What the validator of a bundle with these component types lists: the
/// types one after the other, each joined to those before it. A type
/// stands where it stood first; one that is repeated is marked as held
/// more than once and has the name of its last occurrence.
pub open spec fn claims_of(infos: Seq<ComponentTypeInfo>) -> Seq<Claim<BundleValidatorEntryState>>
    decreases infos.len(),
{
    if infos.len() == 0 {
        Seq::empty()
    } else {
        merged(
            claims_of(infos.drop_last()),
            seq![
                Claim {
                    id: infos.last().type_id,
                    name: infos.last().name,
                    state: BundleValidatorEntryState::Included,
                },
            ],
        )
    }
}

/// Whether the type id stands at two places of the list.
pub open spec fn occurs_twice(infos: Seq<ComponentTypeInfo>, type_id: u64) -> bool {
    exists|p: int, q: int|
        0 <= p < q < infos.len() && infos[p].type_id == type_id && infos[q].type_id == type_id
}

/// A type id occurs twice in a list with one more entry when it did before,
/// or when the new entry repeats it.
pub proof fn lemma_occurs_twice_push(infos: Seq<ComponentTypeInfo>, info: ComponentTypeInfo, id: u64)
    ensures
        occurs_twice(infos.push(info), id) <==> occurs_twice(infos, id) || (info.type_id == id
            && has_type_id(infos, id)),
{
    let next = infos.push(info);
    if occurs_twice(next, id) {
        let (p, q) = choose|p: int, q: int|
            0 <= p < q < next.len() && next[p].type_id == id && next[q].type_id == id;
        if q < infos.len() {
            assert(infos[p].type_id == id && infos[q].type_id == id);
        } else {
            assert(infos[p].type_id == id);
        }
    }
    if occurs_twice(infos, id) {
        let (p, q) = choose|p: int, q: int|
            0 <= p < q < infos.len() && infos[p].type_id == id && infos[q].type_id == id;
        assert(next[p].type_id == id && next[q].type_id == id);
    }
    if info.type_id == id && has_type_id(infos, id) {
        let p = choose|p: int| 0 <= p < infos.len() && (#[trigger] infos[p]).type_id == id;
        assert(next[p].type_id == id && next[infos.len() as int].type_id == id);
    }
}

/// The type ids of a list are distinct exactly when none occurs twice.
pub proof fn lemma_distinct_iff_none_twice(infos: Seq<ComponentTypeInfo>)
    ensures
        distinct_type_ids(infos) <==> forall|id: u64| !occurs_twice(infos, id),
{
    if !distinct_type_ids(infos) {
        let (p, q) = choose|p: int, q: int|
            0 <= p < q < infos.len() && infos[p].type_id == infos[q].type_id;
        assert(occurs_twice(infos, infos[p].type_id));
    }
}

/// Two lists with the same entries, however ordered, name the same types,
/// and the one has distinct ids when the other has.
pub proof fn lemma_same_multiset_same_ids(a: Seq<ComponentTypeInfo>, b: Seq<ComponentTypeInfo>)
    requires
        a.to_multiset() == b.to_multiset(),
    ensures
        a.len() == b.len(),
        same_type_ids(a, b),
        distinct_type_ids(a) ==> distinct_type_ids(b),
{
    a.to_multiset_ensures();
    b.to_multiset_ensures();
    assert forall|i: int| 0 <= i < a.len() implies has_type_id(b, (#[trigger] a[i]).type_id) by {
        assert(a.contains(a[i]));
        assert(b.to_multiset().count(a[i]) > 0);
        assert(b.contains(a[i]));
        let k = choose|k: int| 0 <= k < b.len() && b[k] == a[i];
        assert(b[k].type_id == a[i].type_id);
    }
    assert forall|i: int| 0 <= i < b.len() implies has_type_id(a, (#[trigger] b[i]).type_id) by {
        assert(b.contains(b[i]));
        assert(a.to_multiset().count(b[i]) > 0);
        assert(a.contains(b[i]));
        let k = choose|k: int| 0 <= k < a.len() && a[k] == b[i];
        assert(a[k].type_id == b[i].type_id);
    }
    if distinct_type_ids(a) {
        assert(a.no_duplicates()) by {
            assert forall|i: int, j: int| 0 <= i < j < a.len() implies a[i] != a[j] by {
                assert(a[i].type_id != a[j].type_id);
            }
        }
        a.lemma_multiset_has_no_duplicates();
        b.lemma_multiset_has_no_duplicates_conv();
        let ids_a = a.map_values(|info: ComponentTypeInfo| info.type_id);
        let ids_b = b.map_values(|info: ComponentTypeInfo| info.type_id);
        assert forall|i: int, j: int| 0 <= i < j < b.len() implies b[i].type_id
            != b[j].type_id by {
            if b[i].type_id == b[j].type_id {
                assert(b[i] != b[j]);
                assert(a.contains(b[i])) by {
                    assert(b.contains(b[i]));
                    assert(a.to_multiset().count(b[i]) > 0);
                }
                assert(a.contains(b[j])) by {
                    assert(b.contains(b[j]));
                    assert(a.to_multiset().count(b[j]) > 0);
                }
                let p = choose|p: int| 0 <= p < a.len() && a[p] == b[i];
                let q = choose|q: int| 0 <= q < a.len() && a[q] == b[j];
                assert(p != q);
                if p < q {
                    assert(a[p].type_id != a[q].type_id);
                } else {
                    assert(a[q].type_id != a[p].type_id);
                }
            }
        }
    }
}

} // verus!
