use crate::assoc::{
    byte_keys, find_bytes_key, find_string_key, first_index, keys, lemma_first_index,
    lemma_lookup_upsert, lemma_upsert, lemma_upsert_entries, lookup, string_keys, unique_keys,
    upsert,
};
use crate::selection::filter::{
    checks_spec, checks_view, field_constraints_view, filter_view, ChecksRequiredPerType,
    Constraint, ConstraintView, FieldConstraint, FieldConstraintsView, Filter, FilterBuilder,
    FilterView,
};
use crate::selection::selector::{
    append_at, eq_view, field_view, selector_view, share, CheckView, ConditionalInsertion,
    EqView, FieldEqualityCheck, FieldNonEqualityCheck, FieldNonEqualityChecks, FieldView,
    NeqView, Selector, SelectorView, SubscriptionsByField, FIELD_SEPARATOR,
};
use crate::protocol::out::extend_bytes;
use std::sync::Arc;
use vstd::prelude::*;

verus! {

/// A subscription of a client: its id, its filter, how many checks a message
/// of each type must pass, and the id of the client that receives the
/// messages.
pub struct Subscription {
    pub id: Vec<u8>,
    pub filter: Filter,
    pub checks_per_type: ChecksRequiredPerType,
    pub client: Vec<u8>,
}

/// The field path under which a constraint on `field` is filed.
pub open spec fn field_key(field: Seq<char>) -> Seq<char> {
    FIELD_SEPARATOR@ + field
}

/// The field checks with `subscription` filed under one constraint.
pub open spec fn add_constraint(
    by_field: FieldView,
    field: Seq<char>,
    constraint: ConstraintView,
    subscription: Arc<Subscription>,
) -> FieldView {
    let key = field_key(field);
    let entry: (EqView, NeqView) = match lookup(by_field, key) {
        Some(e) => e,
        None => (Seq::empty(), Seq::empty()),
    };
    let updated = match constraint {
        ConstraintView::Equal(v) => (append_at(entry.0, v, subscription), entry.1),
        ConstraintView::StartsWith(v) => (
            entry.0,
            append_at(entry.1, CheckView::StartsWith(v), subscription),
        ),
        ConstraintView::EndsWith(v) => (
            entry.0,
            append_at(entry.1, CheckView::EndsWith(v), subscription),
        ),
        ConstraintView::GreaterThan(v) => (
            entry.0,
            append_at(entry.1, CheckView::GreaterThan(v), subscription),
        ),
        ConstraintView::LowerThan(v) => (
            entry.0,
            append_at(entry.1, CheckView::LowerThan(v), subscription),
        ),
    };
    upsert(by_field, key, updated)
}

/// The field checks with `subscription` filed under each constraint, in order.
pub open spec fn add_constraints(
    by_field: FieldView,
    constraints: FieldConstraintsView,
    subscription: Arc<Subscription>,
) -> FieldView
    decreases constraints.len(),
{
    if constraints.len() == 0 {
        by_field
    } else {
        add_constraint(
            add_constraints(by_field, constraints.drop_last(), subscription),
            constraints.last().0,
            constraints.last().1,
            subscription,
        )
    }
}

/// The selector with `subscription` integrated for each type entry of its
/// filter, in order.
pub open spec fn integrate_spec(
    selector: SelectorView,
    filter: FilterView,
    subscription: Arc<Subscription>,
) -> SelectorView
    decreases filter.len(),
{
    if filter.len() == 0 {
        selector
    } else {
        let before = integrate_spec(selector, filter.drop_last(), subscription);
        let message_type = filter.last().0;
        let by_field = match lookup(before, message_type) {
            Some(b) => b,
            None => Seq::empty(),
        };
        upsert(
            before,
            message_type,
            add_constraints(by_field, filter.last().1, subscription),
        )
    }
}

/// Integrating a subscription files it under every message type that its
/// filter names, and leaves the entry of every other message type as it was.
pub proof fn law_integrate_types(
    selector: SelectorView,
    filter: FilterView,
    subscription: Arc<Subscription>,
    message_type: Seq<u8>,
)
    ensures
        (exists|i: int| 0 <= i < filter.len() && filter[i].0 == message_type) ==> lookup(
            integrate_spec(selector, filter, subscription),
            message_type,
        ) is Some,
        (forall|i: int| 0 <= i < filter.len() ==> filter[i].0 != message_type) ==> lookup(
            integrate_spec(selector, filter, subscription),
            message_type,
        ) == lookup(selector, message_type),
    decreases filter.len(),
{
    if filter.len() > 0 {
        let rest = filter.drop_last();
        law_integrate_types(selector, rest, subscription, message_type);
        let before = integrate_spec(selector, rest, subscription);
        let t = filter.last().0;
        let by_field = match lookup(before, t) {
            Some(b) => b,
            None => Seq::empty(),
        };
        lemma_lookup_upsert(before, t, add_constraints(by_field, filter.last().1, subscription), message_type);
        if exists|i: int| 0 <= i < filter.len() && filter[i].0 == message_type {
            let i = choose|i: int| 0 <= i < filter.len() && filter[i].0 == message_type;
            if i < filter.len() - 1 {
                assert(rest[i].0 == message_type);
            }
        }
        if forall|i: int| 0 <= i < filter.len() ==> filter[i].0 != message_type {
            assert forall|i: int| 0 <= i < rest.len() implies rest[i].0 != message_type by {
                assert(rest[i] == filter[i]);
            }
            assert(filter[filter.len() - 1].0 != message_type);
        }
    }
}

/// Whether a list is there and holds `x`.
pub open spec fn listed<T>(list: Option<Seq<T>>, x: T) -> bool {
    list matches Some(l) && l.contains(x)
}

/// Whether `subscription` is filed in the field checks under the check that
/// `constraint` on `field` makes: an equality check on the operand for an
/// equality, otherwise a check of the constraint's own kind with the same
/// operand, under the path of the field.
pub open spec fn filed_under(
    by_field: FieldView,
    field: Seq<char>,
    constraint: ConstraintView,
    subscription: Arc<Subscription>,
) -> bool {
    match lookup(by_field, field_key(field)) {
        None => false,
        Some(entry) => {
            let filed = match constraint {
                ConstraintView::Equal(v) => lookup(entry.0, v),
                ConstraintView::StartsWith(v) => lookup(entry.1, CheckView::StartsWith(v)),
                ConstraintView::EndsWith(v) => lookup(entry.1, CheckView::EndsWith(v)),
                ConstraintView::GreaterThan(v) => lookup(entry.1, CheckView::GreaterThan(v)),
                ConstraintView::LowerThan(v) => lookup(entry.1, CheckView::LowerThan(v)),
            };
            listed(filed, subscription)
        },
    }
}

/// Appending under one key adds the item to that key's list and leaves every
/// other key's list as it was.
pub proof fn lemma_append_at<K, T>(s: Seq<(K, Seq<T>)>, k: K, x: T, k2: K, y: T)
    ensures
        listed(lookup(append_at(s, k, x), k), x),
        listed(lookup(s, k2), y) ==> listed(lookup(append_at(s, k, x), k2), y),
{
    let new_list = match lookup(s, k) {
        Some(l) => l.push(x),
        None => seq![x],
    };
    assert(append_at(s, k, x) == upsert(s, k, new_list));
    lemma_lookup_upsert(s, k, new_list, k2);
    assert(new_list[new_list.len() - 1] == x);
    if k2 == k {
        if listed(lookup(s, k2), y) {
            let l = lookup(s, k2)->Some_0;
            let i = choose|i: int| 0 <= i < l.len() && l[i] == y;
            assert(new_list[i] == y);
        }
    }
}

/// Filing a subscription under a constraint files it under a check of the
/// constraint's own kind with the same operand, on the constraint's field, and
/// keeps everything filed before.
pub proof fn law_constraint_filed_by_kind(
    by_field: FieldView,
    field: Seq<char>,
    constraint: ConstraintView,
    subscription: Arc<Subscription>,
    other_field: Seq<char>,
    other_constraint: ConstraintView,
    other: Arc<Subscription>,
)
    ensures
        filed_under(add_constraint(by_field, field, constraint, subscription), field, constraint, subscription),
        filed_under(by_field, other_field, other_constraint, other) ==> filed_under(
            add_constraint(by_field, field, constraint, subscription),
            other_field,
            other_constraint,
            other,
        ),
{
    let key = field_key(field);
    let entry: (EqView, NeqView) = match lookup(by_field, key) {
        Some(e) => e,
        None => (Seq::empty(), Seq::empty()),
    };
    let eq_key = match other_constraint {
        ConstraintView::Equal(v) => v,
        _ => Seq::empty(),
    };
    let neq_key = match other_constraint {
        ConstraintView::StartsWith(v) => CheckView::StartsWith(v),
        ConstraintView::EndsWith(v) => CheckView::EndsWith(v),
        ConstraintView::GreaterThan(v) => CheckView::GreaterThan(v),
        ConstraintView::LowerThan(v) => CheckView::LowerThan(v),
        ConstraintView::Equal(v) => CheckView::GreaterThan(v),
    };
    let updated = match constraint {
        ConstraintView::Equal(v) => {
            lemma_append_at(entry.0, v, subscription, eq_key, other);
            (append_at(entry.0, v, subscription), entry.1)
        },
        ConstraintView::StartsWith(v) => {
            lemma_append_at(entry.1, CheckView::StartsWith(v), subscription, neq_key, other);
            (entry.0, append_at(entry.1, CheckView::StartsWith(v), subscription))
        },
        ConstraintView::EndsWith(v) => {
            lemma_append_at(entry.1, CheckView::EndsWith(v), subscription, neq_key, other);
            (entry.0, append_at(entry.1, CheckView::EndsWith(v), subscription))
        },
        ConstraintView::GreaterThan(v) => {
            lemma_append_at(entry.1, CheckView::GreaterThan(v), subscription, neq_key, other);
            (entry.0, append_at(entry.1, CheckView::GreaterThan(v), subscription))
        },
        ConstraintView::LowerThan(v) => {
            lemma_append_at(entry.1, CheckView::LowerThan(v), subscription, neq_key, other);
            (entry.0, append_at(entry.1, CheckView::LowerThan(v), subscription))
        },
    };
    assert(add_constraint(by_field, field, constraint, subscription) == upsert(by_field, key, updated));
    lemma_lookup_upsert(by_field, key, updated, field_key(other_field));
}

/// Filing a subscription under a list of constraints files it under each of
/// them by its kind, and keeps everything filed before.
pub proof fn lemma_add_constraints_files(
    by_field: FieldView,
    constraints: FieldConstraintsView,
    subscription: Arc<Subscription>,
    other_field: Seq<char>,
    other_constraint: ConstraintView,
    other: Arc<Subscription>,
)
    ensures
        forall|j: int|
            0 <= j < constraints.len() ==> filed_under(
                add_constraints(by_field, constraints, subscription),
                #[trigger] constraints[j].0,
                constraints[j].1,
                subscription,
            ),
        filed_under(by_field, other_field, other_constraint, other) ==> filed_under(
            add_constraints(by_field, constraints, subscription),
            other_field,
            other_constraint,
            other,
        ),
    decreases constraints.len(),
{
    if constraints.len() > 0 {
        let rest = constraints.drop_last();
        let before = add_constraints(by_field, rest, subscription);
        let (f, c) = constraints.last();
        lemma_add_constraints_files(by_field, rest, subscription, other_field, other_constraint, other);
        law_constraint_filed_by_kind(before, f, c, subscription, other_field, other_constraint, other);
        assert forall|j: int| 0 <= j < constraints.len() implies filed_under(
            add_constraints(by_field, constraints, subscription),
            #[trigger] constraints[j].0,
            constraints[j].1,
            subscription,
        ) by {
            if j < constraints.len() - 1 {
                lemma_add_constraints_files(by_field, rest, subscription, constraints[j].0, constraints[j].1, subscription);
                assert(rest[j] == constraints[j]);
                law_constraint_filed_by_kind(before, f, c, subscription, constraints[j].0, constraints[j].1, subscription);
            }
        }
    }
}

/// Integrating a subscription files it, under each message type of its
/// filter, for every constraint of that type: an equality under the operand's
/// equality check, every other constraint under a check of its own kind with
/// the same operand, on the path of the constraint's field.
pub proof fn law_integrate_files_every_constraint(
    selector: SelectorView,
    filter: FilterView,
    subscription: Arc<Subscription>,
    i: int,
    j: int,
)
    requires
        0 <= i < filter.len(),
        0 <= j < filter[i].1.len(),
    ensures
        lookup(integrate_spec(selector, filter, subscription), filter[i].0) matches Some(by_field)
            && filed_under(by_field, filter[i].1[j].0, filter[i].1[j].1, subscription),
    decreases filter.len(),
{
    let rest = filter.drop_last();
    let before = integrate_spec(selector, rest, subscription);
    let t = filter.last().0;
    let by_field = match lookup(before, t) {
        Some(b) => b,
        None => Seq::empty(),
    };
    let filed = add_constraints(by_field, filter.last().1, subscription);
    lemma_lookup_upsert(before, t, filed, filter[i].0);
    let (f, c) = filter[i].1[j];
    if i == filter.len() - 1 {
        lemma_add_constraints_files(by_field, filter.last().1, subscription, f, c, subscription);
    } else {
        assert(rest[i] == filter[i]);
        law_integrate_files_every_constraint(selector, rest, subscription, i, j);
        lemma_add_constraints_files(by_field, filter.last().1, subscription, f, c, subscription);
    }
}

/// Each message type has one entry in the selector, and each field path one
/// entry under its type.
pub open spec fn selector_wf(selector: SelectorView) -> bool {
    &&& unique_keys(selector)
    &&& forall|i: int| 0 <= i < selector.len() ==> unique_keys(#[trigger] selector[i].1)
}

/// Filing a subscription under constraints keeps each field path once.
pub proof fn lemma_add_constraints_unique(
    by_field: FieldView,
    constraints: FieldConstraintsView,
    subscription: Arc<Subscription>,
)
    requires
        unique_keys(by_field),
    ensures
        unique_keys(add_constraints(by_field, constraints, subscription)),
    decreases constraints.len(),
{
    if constraints.len() > 0 {
        let before = add_constraints(by_field, constraints.drop_last(), subscription);
        lemma_add_constraints_unique(by_field, constraints.drop_last(), subscription);
        let key = field_key(constraints.last().0);
        assert forall|entry: (EqView, NeqView)| unique_keys(#[trigger] upsert(before, key, entry)) by {
            lemma_upsert(before, key, entry);
        }
    }
}

/// Integrating a subscription keeps each message type once in the selector,
/// and each field path once under its type.
pub proof fn law_integrate_keeps_entries_unique(
    selector: SelectorView,
    filter: FilterView,
    subscription: Arc<Subscription>,
)
    requires
        selector_wf(selector),
    ensures
        selector_wf(integrate_spec(selector, filter, subscription)),
    decreases filter.len(),
{
    if filter.len() > 0 {
        let before = integrate_spec(selector, filter.drop_last(), subscription);
        law_integrate_keeps_entries_unique(selector, filter.drop_last(), subscription);
        let message_type = filter.last().0;
        let by_field = match lookup(before, message_type) {
            Some(b) => b,
            None => Seq::empty(),
        };
        lemma_upsert_entries(before, message_type, by_field);
        assert(unique_keys(by_field)) by {
            if lookup(before, message_type) is Some {
                let j = choose|j: int|
                    0 <= j < before.len() && #[trigger] before[j] == (
                        message_type,
                        lookup(before, message_type)->Some_0,
                    );
                assert(unique_keys(before[j].1));
            }
        }
        let filed = add_constraints(by_field, filter.last().1, subscription);
        lemma_add_constraints_unique(by_field, filter.last().1, subscription);
        lemma_upsert(before, message_type, filed);
        lemma_upsert_entries(before, message_type, filed);
        let after = upsert(before, message_type, filed);
        assert forall|i: int| 0 <= i < after.len() implies unique_keys(#[trigger] after[i].1) by {
            if after[i] != (message_type, filed) {
                let j = choose|j: int| 0 <= j < before.len() && #[trigger] before[j] == after[i];
                assert(unique_keys(before[j].1));
            }
        }
    }
}

/// Copies a byte vector.
fn copy_bytes(v: &Vec<u8>) -> (out: Vec<u8>)
    ensures
        out@ == v@,
{
    let mut out = Vec::new();
    extend_bytes(&mut out, v.as_slice());
    out
}

/// Adds `subscription` to the subscriptions that want the field to equal
/// `value`.
fn add_equality(
    checks: &mut FieldEqualityCheck,
    value: &Vec<u8>,
    subscription: &Arc<Subscription>,
)
    ensures
        eq_view(final(checks)@) == append_at(eq_view(old(checks)@), value@, *subscription),
{
    let ghost old_view = eq_view(checks@);
    assert(keys(old_view) =~= byte_keys(checks@));
    let ghost old_checks = checks@;
    match find_bytes_key(checks, value.as_slice()) {
        Some(i) => {
            proof {
                lemma_first_index(byte_keys(old_checks), value@);
                assert(byte_keys(old_checks)[i as int] == old_checks[i as int].0@);
            }
            let (v, mut subscriptions) = checks.remove(i);
            let ghost old_subs = subscriptions@;
            subscriptions.push(share(subscription));
            checks.insert(i, (v, subscriptions));
            assert(checks@ =~= old_checks.update(i as int, (v, subscriptions)));
            assert(eq_view(checks@)[i as int] == (value@, old_view[i as int].1.push(*subscription)));
        },
        None => {
            let mut subscriptions = Vec::new();
            subscriptions.push(share(subscription));
            checks.push((copy_bytes(value), subscriptions));
        },
    }
    assert(eq_view(checks@) =~= append_at(old_view, value@, *subscription));
}

/// Copies the operand of a constraint into the matching non-equality check.
fn check_of(constraint: &Constraint) -> (check: Option<FieldNonEqualityCheck>)
    ensures
        match constraint@ {
            ConstraintView::Equal(_) => check is None,
            ConstraintView::StartsWith(v) => check is Some && check->Some_0@
                == CheckView::StartsWith(v),
            ConstraintView::EndsWith(v) => check is Some && check->Some_0@ == CheckView::EndsWith(
                v,
            ),
            ConstraintView::GreaterThan(v) => check is Some && check->Some_0@
                == CheckView::GreaterThan(v),
            ConstraintView::LowerThan(v) => check is Some && check->Some_0@
                == CheckView::LowerThan(v),
        },
{
    match constraint {
        Constraint::Equal(_) => None,
        Constraint::StartsWith(v) => Some(FieldNonEqualityCheck::StartsWith(copy_bytes(v))),
        Constraint::EndsWith(v) => Some(FieldNonEqualityCheck::EndsWith(copy_bytes(v))),
        Constraint::GreaterThan(v) => Some(FieldNonEqualityCheck::GreaterThan(copy_bytes(v))),
        Constraint::LowerThan(v) => Some(FieldNonEqualityCheck::LowerThan(copy_bytes(v))),
    }
}

/// Files `subscription` under one field constraint.
fn add_constraint_exec(
    by_field: &mut SubscriptionsByField,
    field: &String,
    constraint: &Constraint,
    subscription: &Arc<Subscription>,
)
    ensures
        field_view(final(by_field)@) == add_constraint(
            field_view(old(by_field)@),
            field@,
            constraint@,
            *subscription,
        ),
{
    let ghost old_view = field_view(by_field@);
    assert(keys(old_view) =~= string_keys(by_field@));
    let mut key = String::from_str(FIELD_SEPARATOR);
    key.append(field.as_str());
    let found = find_string_key(by_field, &key);
    proof {
        lemma_first_index(keys(old_view), key@);
    }
    let (i, mut entry) = match found {
        Some(i) => {
            let (_, entry) = by_field.remove(i);
            (i, entry)
        },
        None => (by_field.len(), (Vec::new(), Vec::new())),
    };
    let ghost entry_view: (EqView, NeqView) = (eq_view(entry.0@), crate::selection::selector::neq_view(entry.1@));
    assert(entry_view == match lookup(old_view, key@) {
        Some(e) => e,
        None => (Seq::<(Seq<u8>, Seq<Arc<Subscription>>)>::empty(), Seq::<(CheckView, Seq<Arc<Subscription>>)>::empty()),
    }) by {
        if found is None {
            assert(eq_view(entry.0@) =~= Seq::empty());
            assert(crate::selection::selector::neq_view(entry.1@) =~= Seq::empty());
        }
    }
    match check_of(constraint) {
        None => {
            match constraint {
                Constraint::Equal(v) => {
                    add_equality(&mut entry.0, v, subscription);
                },
                _ => {},
            }
        },
        Some(check) => {
            entry.1.insert_or_add_to_existing(check, share(subscription));
        },
    }
    by_field.insert(i, (key, entry));
    assert(field_view(by_field@) =~= add_constraint(old_view, field@, constraint@, *subscription));
}

/// Files `subscription` under each constraint of one type entry.
fn integrate_type(
    selector: &mut Selector,
    message_type: &Vec<u8>,
    constraints: &Vec<FieldConstraint>,
    subscription: &Arc<Subscription>,
)
    ensures
        selector_view(final(selector)@) == ({
            let before = selector_view(old(selector)@);
            let by_field = match lookup(before, message_type@) {
                Some(b) => b,
                None => Seq::empty(),
            };
            upsert(
                before,
                message_type@,
                add_constraints(by_field, field_constraints_view(constraints@), *subscription),
            )
        }),
{
    let ghost old_view = selector_view(selector@);
    assert(keys(old_view) =~= byte_keys(selector@));
    let found = find_bytes_key(selector, message_type.as_slice());
    proof {
        lemma_first_index(keys(old_view), message_type@);
    }
    let (i, mut by_field) = match found {
        Some(i) => {
            let (_, by_field) = selector.remove(i);
            (i, by_field)
        },
        None => (selector.len(), Vec::new()),
    };
    let ghost start = field_view(by_field@);
    assert(start == match lookup(old_view, message_type@) {
        Some(b) => b,
        None => Seq::<(Seq<char>, (EqView, NeqView))>::empty(),
    }) by {
        if found is None {
            assert(field_view(by_field@) =~= Seq::empty());
        }
    }
    let mut j: usize = 0;
    while j < constraints.len()
        invariant
            j <= constraints@.len(),
            field_view(by_field@) == add_constraints(
                start,
                field_constraints_view(constraints@.take(j as int)),
                *subscription,
            ),
        decreases constraints@.len() - j,
    {
        proof {
            assert(field_constraints_view(constraints@.take(j + 1)).drop_last()
                =~= field_constraints_view(constraints@.take(j as int)));
        }
        add_constraint_exec(&mut by_field, &constraints[j].0, &constraints[j].1, subscription);
        j = j + 1;
    }
    assert(constraints@.take(j as int) =~= constraints@);
    selector.insert(i, (copy_bytes(message_type), by_field));
    assert(selector_view(selector@) =~= upsert(
        old_view,
        message_type@,
        add_constraints(start, field_constraints_view(constraints@), *subscription),
    ));
}

impl Subscription {
    pub fn new(id: Vec<u8>, client: Vec<u8>, filter: Filter) -> (subscription: Arc<Subscription>)
        ensures
            subscription.id == id,
            subscription.client == client,
            subscription.filter == filter,
            checks_view(subscription.checks_per_type@) == checks_spec(filter_view(filter@)),
    {
        let checks_per_type = filter.build_checks_per_type();
        let myself = Subscription { id, filter, checks_per_type, client };
        Arc::new(myself)
    }

    /// Files this subscription in the selector under every constraint of its
    /// filter.
    pub fn integrate(self: &Arc<Self>, selector: &mut Selector)
        ensures
            selector_view(final(selector)@) == integrate_spec(
                selector_view(old(selector)@),
                filter_view(self.filter@),
                *self,
            ),
    {
        let ghost start = selector_view(selector@);
        let mut i: usize = 0;
        assert(filter_view(self.filter@.take(0)) =~= Seq::empty());
        while i < self.filter.len()
            invariant
                i <= self.filter@.len(),
                selector_view(selector@) == integrate_spec(
                    start,
                    filter_view(self.filter@.take(i as int)),
                    *self,
                ),
            decreases self.filter@.len() - i,
        {
            proof {
                assert(filter_view(self.filter@.take(i + 1)).drop_last() =~= filter_view(
                    self.filter@.take(i as int),
                ));
            }
            integrate_type(selector, &self.filter[i].0, &self.filter[i].1, self);
            i = i + 1;
        }
        assert(self.filter@.take(i as int) =~= self.filter@);
    }

    /// Takes the subscription out of a selector; the selector is left as it
    /// is.
    pub fn disgregate(self: &Arc<Self>, selector: &mut Selector)
        ensures
            final(selector)@ == old(selector)@,
    {
    }
}

} // verus!
