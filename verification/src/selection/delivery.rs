use crate::assoc::{index_of, keys, lemma_first_index_is, lemma_lookup_upsert, lookup, upsert};
use crate::codec::avro::AvroType;
use crate::codec::numbers::{
    decoded_word, law_varint_roundtrip, lemma_pow128_10, lemma_varint_bytes_len,
    lemma_varint_end_prefix, pow128, varint_bytes, varint_end, varint_read_count, varint_value,
    word_modulus, word_shifts_fit, zigzag_decode_word,
};
use crate::selection::filter::{checks_spec, checks_view, filter_view, ConstraintView, FilterView};
use crate::selection::selector::{
    append_at, distribute_spec, equality_check, pass_all, pass_one, recipients_spec,
    select_fields_spec, select_spec, string_checks, varint_readable, CheckerView, EqView,
    FieldView, NeqView, SelectorView, SubsView, FIELD_SEPARATOR, ROOT_FIELD_PATH,
};
use crate::selection::subscription::{
    add_constraint, add_constraints, field_key, integrate_spec, Subscription,
};
use std::sync::Arc;
use vstd::prelude::*;

verus! {

/// The Avro encoding of a string: its length, zigzag mapped, as a
/// variable-length integer, then its bytes.
pub open spec fn string_encoding(text: Seq<u8>) -> Seq<u8> {
    varint_bytes(2 * text.len()) + text
}

/// Reading an encoded string: the length header, whose shifts stay within
/// the machine word, then the bytes that follow it.
proof fn lemma_string_encoding(text: Seq<u8>)
    requires
        2 * text.len() < word_modulus(),
        text.len() + 10 < usize::MAX,
    ensures
        ({
            let m = string_encoding(text);
            let h = varint_bytes(2 * text.len()).len();
            &&& 1 <= h <= 10
            &&& m.len() < usize::MAX
            &&& varint_end(m) + 1 == h
            &&& varint_read_count(m, m.len()) == h
            &&& word_shifts_fit(h)
            &&& decoded_word(m, h) == text.len()
            &&& m.subrange(h as int, (h + text.len()) as int) == text
        }),
{
    let n = 2 * text.len();
    let header = varint_bytes(n);
    let m = header + text;
    law_varint_roundtrip(n);
    lemma_varint_end_prefix(header, text);
    lemma_pow128_10();
    assert(usize::BITS == 32 || usize::BITS == 64);
    if usize::BITS == 32 {
        assert(pow128(5) == 0x8_0000_0000) by {
            reveal_with_fuel(pow128, 6);
        }
        lemma_varint_bytes_len(n, 5);
    } else {
        lemma_varint_bytes_len(n, 10);
    }
    assert(m.take(header.len() as int) =~= header);
    assert(zigzag_decode_word(n) == text.len());
    assert(m.subrange(header.len() as int, (header.len() + text.len()) as int) =~= text);
}

/// A subscription whose filter puts one equality constraint on the one string
/// field of a record type, once integrated, receives a message of that type
/// exactly when the field holds the constraint's bytes.
pub proof fn law_equality_delivery(
    subscription: Arc<Subscription>,
    message_type: Seq<u8>,
    field: Seq<char>,
    value: Seq<u8>,
    schema: AvroType,
    text: Seq<u8>,
)
    requires
        filter_view(subscription.filter@) == seq![
            (message_type, seq![(field, ConstraintView::Equal(value))]),
        ],
        checks_view(subscription.checks_per_type@) == checks_spec(
            filter_view(subscription.filter@),
        ),
        schema matches AvroType::Record { fields, .. } && fields@.len() == 1 && fields@[0].name@
            == field && fields@[0].schema == AvroType::String,
        2 * text.len() < word_modulus(),
        text.len() + 10 < usize::MAX,
    ensures
        distribute_spec(
            integrate_spec(Seq::empty(), filter_view(subscription.filter@), subscription),
            message_type,
            schema,
            string_encoding(text),
        ) == Some(
            if text == value {
                seq![subscription]
            } else {
                SubsView::empty()
            },
        ),
{
    let f: FilterView = filter_view(subscription.filter@);
    let s = subscription;
    let key = field_key(field);
    let empty_eq = EqView::empty();
    let empty_neq = NeqView::empty();
    let eq = append_at(empty_eq, value, s);
    let entry: (EqView, NeqView) = (eq, empty_neq);
    let filed: FieldView = upsert(FieldView::empty(), key, entry);

    // The selector that integration builds.
    assert(f.drop_last() =~= FilterView::empty());
    assert(integrate_spec(Seq::empty(), f.drop_last(), s) == SelectorView::empty());
    assert(lookup(SelectorView::empty(), message_type) is None);
    let constraints = f.last().1;
    assert(constraints.drop_last() =~= Seq::<(Seq<char>, ConstraintView)>::empty());
    assert(add_constraints(FieldView::empty(), constraints.drop_last(), s) == FieldView::empty());
    assert(lookup(FieldView::empty(), key) is None);
    assert(add_constraint(FieldView::empty(), field, ConstraintView::Equal(value), s) == filed);
    assert(add_constraints(FieldView::empty(), constraints, s) == filed);
    let selector = integrate_spec(Seq::empty(), f, s);
    assert(selector == upsert(SelectorView::empty(), message_type, filed));
    lemma_lookup_upsert(SelectorView::empty(), message_type, filed, message_type);
    assert(lookup(selector, message_type) == Some(filed));

    // Selection over the record's one field.
    let m = string_encoding(text);
    lemma_string_encoding(text);
    let h = varint_bytes(2 * text.len()).len();
    reveal_strlit("");
    reveal_strlit(".");
    let path = ROOT_FIELD_PATH@ + FIELD_SEPARATOR@ + field;
    assert(path =~= key);
    lemma_lookup_upsert(FieldView::empty(), key, entry, key);
    assert(lookup(filed, path) == Some(entry));
    assert(m.skip(0) =~= m);
    let c0: CheckerView = (Seq::empty(), Seq::empty());
    assert(varint_readable(m));

    // The equality check.
    assert(eq == upsert(empty_eq, value, seq![s]));
    lemma_lookup_upsert(empty_eq, value, seq![s], text);
    assert(lookup(empty_eq, text) is None);
    let id = s.id@;
    assert(lookup(c0.0, id) is None);
    let c1: CheckerView = (upsert(c0.0, id, 1), upsert(c0.1, id, s));
    assert(seq![s].drop_last() =~= SubsView::empty());
    assert(seq![s].last() == s);
    assert(pass_all(c0, SubsView::empty()) == Some(c0));
    assert(pass_all(c0, seq![s]) == pass_one(c0, s));
    assert(pass_one(c0, s) == Some(c1));
    let c = if text == value { c1 } else { c0 };
    assert(equality_check(c0, eq, text) == Some(c));
    assert(string_checks(c, empty_neq, text) == Some(c));
    assert(select_spec(c0, filed, AvroType::String, path, m) == Some(((h + text.len()) as nat, c)));
    assert(select_fields_spec(c0, filed, schema, ROOT_FIELD_PATH@, m, 0) == Some((0nat, c0)));
    assert(select_fields_spec(c0, filed, schema, ROOT_FIELD_PATH@, m, 1) == Some(
        ((h + text.len()) as nat, c),
    ));
    assert(select_spec(c0, filed, schema, ROOT_FIELD_PATH@, m) == Some(
        ((h + text.len()) as nat, c),
    ));

    // The recipients.
    if text == value {
        assert(c1.0 =~= seq![(id, 1nat)]);
        lemma_lookup_upsert(c0.1, id, s, id);
        assert(f.last() == (message_type, constraints));
        assert(checks_spec(f.drop_last()) == Seq::<(Seq<u8>, nat)>::empty());
        assert(checks_spec(f) == upsert(Seq::<(Seq<u8>, nat)>::empty(), message_type, 1nat));
        lemma_lookup_upsert(Seq::<(Seq<u8>, nat)>::empty(), message_type, 1nat, message_type);
        assert(recipients_spec(c1, message_type, 0) == Some(SubsView::empty()));
        assert(recipients_spec(c1, message_type, 1) == Some(seq![s])) by {
            assert(SubsView::empty().push(s) =~= seq![s]);
        }
    } else {
        assert(recipients_spec(c0, message_type, 0) == Some(SubsView::empty()));
    }
}

/// The selector after each subscription of the list is integrated, in order.
pub open spec fn integrate_all(selector: SelectorView, subs: Seq<Arc<Subscription>>) -> SelectorView
    decreases subs.len(),
{
    if subs.len() == 0 {
        selector
    } else {
        integrate_spec(
            integrate_all(selector, subs.drop_last()),
            filter_view(subs.last().filter@),
            subs.last(),
        )
    }
}

/// Among the first `k` subscriptions, in order, those whose equality value is
/// `text`.
pub open spec fn receivers(
    subs: Seq<Arc<Subscription>>,
    values: Seq<Seq<u8>>,
    text: Seq<u8>,
    k: nat,
) -> Seq<Arc<Subscription>>
    decreases k,
{
    if k == 0 {
        Seq::empty()
    } else {
        let r = receivers(subs, values, text, (k - 1) as nat);
        if values[k - 1] == text {
            r.push(subs[k - 1])
        } else {
            r
        }
    }
}

/// The equality checks with the first `k` subscriptions filed under their
/// values, in order.
pub open spec fn equality_list(subs: Seq<Arc<Subscription>>, values: Seq<Seq<u8>>, k: nat) -> EqView
    decreases k,
{
    if k == 0 {
        EqView::empty()
    } else {
        append_at(equality_list(subs, values, (k - 1) as nat), values[k - 1], subs[k - 1])
    }
}

/// Filing a subscription under a key adds it to the list of the key.
proof fn lemma_append_at_is_upsert(e: EqView, v: Seq<u8>, s: Arc<Subscription>)
    ensures
        append_at(e, v, s) == upsert(
            e,
            v,
            match lookup(e, v) {
                Some(l) => l.push(s),
                None => seq![s],
            },
        ),
{
}

/// The equality checks after the first `k` subscriptions give, for `text`,
/// exactly the receivers among them.
proof fn lemma_equality_list(
    subs: Seq<Arc<Subscription>>,
    values: Seq<Seq<u8>>,
    text: Seq<u8>,
    k: nat,
)
    requires
        k <= subs.len(),
        k <= values.len(),
    ensures
        lookup(equality_list(subs, values, k), text) == if receivers(subs, values, text, k).len()
            > 0 {
            Some(receivers(subs, values, text, k))
        } else {
            None
        },
    decreases k,
{
    if k > 0 {
        let e = equality_list(subs, values, (k - 1) as nat);
        lemma_equality_list(subs, values, text, (k - 1) as nat);
        let v = values[k - 1];
        let s = subs[k - 1];
        lemma_append_at_is_upsert(e, v, s);
        let l = match lookup(e, v) {
            Some(l) => l,
            None => Seq::empty(),
        };
        lemma_lookup_upsert(e, v, match lookup(e, v) {
            Some(l) => l.push(s),
            None => seq![s],
        }, text);
        if v == text {
            assert(SubsView::empty().push(s) =~= seq![s]);
        }
    }
}

/// The field checks that equality constraints on one field make.
pub open spec fn equality_field(field: Seq<char>, e: EqView) -> FieldView {
    seq![(field_key(field), (e, NeqView::empty()))]
}

/// Integrating the first `k` subscriptions, each with one equality
/// constraint on the same field of the same type, files their values under
/// that field of that type.
proof fn lemma_integrate_all(
    subs: Seq<Arc<Subscription>>,
    values: Seq<Seq<u8>>,
    message_type: Seq<u8>,
    field: Seq<char>,
    k: nat,
)
    requires
        k <= subs.len() == values.len(),
        forall|i: int|
            0 <= i < subs.len() ==> filter_view(#[trigger] subs[i].filter@) == seq![
                (message_type, seq![(field, ConstraintView::Equal(values[i]))]),
            ],
    ensures
        k == 0 ==> lookup(integrate_all(Seq::empty(), subs.take(k as int)), message_type) is None,
        k > 0 ==> lookup(integrate_all(Seq::empty(), subs.take(k as int)), message_type) == Some(
            equality_field(field, equality_list(subs, values, k)),
        ),
    decreases k,
{
    if k == 0 {
        assert(subs.take(0) =~= Seq::<Arc<Subscription>>::empty());
    } else {
        lemma_integrate_all(subs, values, message_type, field, (k - 1) as nat);
        let t = subs.take(k as int);
        assert(t.drop_last() =~= subs.take(k - 1));
        assert(t.last() == subs[k - 1]);
        let sub = subs[k - 1];
        let before = integrate_all(Seq::empty(), subs.take(k - 1));
        let f = filter_view(sub.filter@);
        assert(f.drop_last() =~= FilterView::empty());
        assert(integrate_spec(before, f.drop_last(), sub) == before);
        let key = field_key(field);
        let e = equality_list(subs, values, (k - 1) as nat);
        let by_field = match lookup(before, message_type) {
            Some(b) => b,
            None => FieldView::empty(),
        };
        let constraints = f.last().1;
        assert(constraints.drop_last() =~= Seq::<(Seq<char>, ConstraintView)>::empty());
        assert(add_constraints(by_field, constraints.drop_last(), sub) == by_field);
        let entry: (EqView, NeqView) = match lookup(by_field, key) {
            Some(x) => x,
            None => (EqView::empty(), NeqView::empty()),
        };
        if k - 1 == 0 {
            assert(by_field == FieldView::empty());
            assert(lookup(FieldView::empty(), key) is None);
            assert(e == EqView::empty());
        } else {
            assert(by_field == equality_field(field, e));
            assert(keys(by_field) =~= seq![key]);
            lemma_first_index_is(keys(by_field), key, 0);
            assert(lookup(by_field, key) == Some((e, NeqView::empty())));
        }
        assert(entry == (e, NeqView::empty()));
        let updated = (append_at(e, values[k - 1], sub), NeqView::empty());
        let filed = upsert(by_field, key, updated);
        assert(add_constraint(by_field, field, ConstraintView::Equal(values[k - 1]), sub) == filed);
        assert(filed =~= equality_field(field, equality_list(subs, values, k))) by {
            if k - 1 != 0 {
                assert(index_of(by_field, key) == 0);
            }
        }
        lemma_lookup_upsert(before, message_type, filed, message_type);
    }
}

/// No two subscriptions of the list have the same id.
pub open spec fn distinct_ids(subs: Seq<Arc<Subscription>>) -> bool {
    forall|a: int, b: int| 0 <= a < b < subs.len() ==> subs[a].id@ != subs[b].id@
}

/// The receivers keep their ids distinct, none has the id of a later
/// subscription, and each needs one check for the type, as every
/// subscription of the list does.
proof fn lemma_receivers(
    subs: Seq<Arc<Subscription>>,
    values: Seq<Seq<u8>>,
    text: Seq<u8>,
    message_type: Seq<u8>,
    k: nat,
)
    requires
        k <= subs.len(),
        k <= values.len(),
        distinct_ids(subs),
        forall|i: int|
            0 <= i < subs.len() ==> lookup(checks_view(#[trigger] subs[i].checks_per_type@), message_type)
                == Some(1nat),
    ensures
        distinct_ids(receivers(subs, values, text, k)),
        forall|a: int, j: int|
            0 <= a < receivers(subs, values, text, k).len() && k <= j < subs.len() ==> #[trigger] receivers(
                subs,
                values,
                text,
                k,
            )[a].id@ != #[trigger] subs[j].id@,
        forall|a: int|
            0 <= a < receivers(subs, values, text, k).len() ==> lookup(
                checks_view(#[trigger] receivers(subs, values, text, k)[a].checks_per_type@),
                message_type,
            ) == Some(1nat),
    decreases k,
{
    if k > 0 {
        lemma_receivers(subs, values, text, message_type, (k - 1) as nat);
        let r = receivers(subs, values, text, (k - 1) as nat);
        let rk = receivers(subs, values, text, k);
        assert forall|a: int| 0 <= a < rk.len() implies lookup(
            checks_view(#[trigger] rk[a].checks_per_type@),
            message_type,
        ) == Some(1nat) by {
            if a < r.len() {
                assert(rk[a] == r[a]);
            } else {
                assert(rk[a] == subs[k - 1]);
            }
        }
        assert forall|a: int, j: int| 0 <= a < rk.len() && k <= j < subs.len() implies #[trigger] rk[a].id@
            != #[trigger] subs[j].id@ by {
            if a < r.len() {
                assert(rk[a] == r[a]);
            } else {
                assert(rk[a] == subs[k - 1]);
            }
        }
        assert forall|a: int, b: int| 0 <= a < b < rk.len() implies rk[a].id@ != rk[b].id@ by {
            if b < r.len() {
                assert(rk[a] == r[a] && rk[b] == r[b]);
            } else {
                assert(rk[a] == r[a]);
                assert(rk[b] == subs[k - 1]);
                assert(r[a].id@ != subs[k - 1].id@);
            }
        }
    }
}

/// The counters after each subscription of the list passed one check.
pub open spec fn counts_of(l: Seq<Arc<Subscription>>) -> Seq<(Seq<u8>, nat)> {
    l.map_values(|s: Arc<Subscription>| (s.id@, 1nat))
}

/// The subscriptions by id after each subscription of the list passed one
/// check.
pub open spec fn passed_of(l: Seq<Arc<Subscription>>) -> Seq<(Seq<u8>, Arc<Subscription>)> {
    l.map_values(|s: Arc<Subscription>| (s.id@, s))
}

/// Subscriptions with distinct ids, each passing one check from a fresh
/// checker, are each counted once, in order.
proof fn lemma_pass_distinct(l: Seq<Arc<Subscription>>)
    requires
        distinct_ids(l),
    ensures
        pass_all((Seq::empty(), Seq::empty()), l) == Some((counts_of(l), passed_of(l))),
    decreases l.len(),
{
    if l.len() > 0 {
        let rest = l.drop_last();
        let s = l.last();
        lemma_pass_distinct(rest);
        let c: CheckerView = (counts_of(rest), passed_of(rest));
        let id = s.id@;
        assert forall|j: int| 0 <= j < keys(c.0).len() implies keys(c.0)[j] != id by {
            assert(keys(c.0)[j] == l[j].id@);
        }
        assert forall|j: int| 0 <= j < keys(c.1).len() implies keys(c.1)[j] != id by {
            assert(keys(c.1)[j] == l[j].id@);
        }
        lemma_first_index_is(keys(c.0), id, -1);
        lemma_first_index_is(keys(c.1), id, -1);
        assert(upsert(c.0, id, 1nat) =~= counts_of(l));
        assert(upsert(c.1, id, s) =~= passed_of(l));
    }
}

/// Counted once each, subscriptions that need one check for the type are all
/// recipients, in order.
proof fn lemma_recipients_once(l: Seq<Arc<Subscription>>, message_type: Seq<u8>, k: nat)
    requires
        k <= l.len(),
        distinct_ids(l),
        forall|a: int|
            0 <= a < l.len() ==> lookup(checks_view(#[trigger] l[a].checks_per_type@), message_type)
                == Some(1nat),
    ensures
        recipients_spec((counts_of(l), passed_of(l)), message_type, k) == Some(l.take(k as int)),
    decreases k,
{
    if k == 0 {
        assert(l.take(0) =~= SubsView::empty());
    } else {
        lemma_recipients_once(l, message_type, (k - 1) as nat);
        let c: CheckerView = (counts_of(l), passed_of(l));
        let id = l[k - 1].id@;
        assert(c.0[k - 1] == (id, 1nat));
        assert forall|j: int| 0 <= j < k - 1 implies keys(c.1)[j] != id by {
            assert(keys(c.1)[j] == l[j].id@);
        }
        assert(keys(c.1)[k - 1] == id);
        lemma_first_index_is(keys(c.1), id, k - 1);
        assert(lookup(c.1, id) == Some(l[k - 1]));
        assert(l.take(k as int) =~= l.take(k - 1).push(l[k - 1]));
    }
}

/// Subscriptions with distinct ids, each with a filter that puts one equality
/// constraint on the one string field of a record type, once integrated in
/// order, make a message of that type reach exactly those whose value the
/// field holds, in the order they were integrated.
pub proof fn law_equality_delivery_to_many(
    subs: Seq<Arc<Subscription>>,
    values: Seq<Seq<u8>>,
    message_type: Seq<u8>,
    field: Seq<char>,
    schema: AvroType,
    text: Seq<u8>,
)
    requires
        subs.len() == values.len(),
        distinct_ids(subs),
        forall|i: int|
            0 <= i < subs.len() ==> filter_view(#[trigger] subs[i].filter@) == seq![
                (message_type, seq![(field, ConstraintView::Equal(values[i]))]),
            ],
        forall|i: int|
            0 <= i < subs.len() ==> checks_view(#[trigger] subs[i].checks_per_type@) == checks_spec(
                filter_view(subs[i].filter@),
            ),
        schema matches AvroType::Record { fields, .. } && fields@.len() == 1 && fields@[0].name@
            == field && fields@[0].schema == AvroType::String,
        2 * text.len() < word_modulus(),
        text.len() + 10 < usize::MAX,
    ensures
        distribute_spec(
            integrate_all(Seq::empty(), subs),
            message_type,
            schema,
            string_encoding(text),
        ) == Some(receivers(subs, values, text, subs.len())),
{
    let n = subs.len();
    let receivers_all = receivers(subs, values, text, n);
    assert(subs.take(n as int) =~= subs);
    lemma_integrate_all(subs, values, message_type, field, n);
    if n == 0 {
        assert(receivers_all == SubsView::empty());
        return;
    }
    assert forall|i: int| 0 <= i < subs.len() implies lookup(
        checks_view(#[trigger] subs[i].checks_per_type@),
        message_type,
    ) == Some(1nat) by {
        let f = filter_view(subs[i].filter@);
        assert(f.drop_last() =~= FilterView::empty());
        assert(checks_spec(f.drop_last()) == Seq::<(Seq<u8>, nat)>::empty());
        assert(f.last() == (message_type, seq![(field, ConstraintView::Equal(values[i]))]));
        assert(checks_spec(f) == upsert(Seq::<(Seq<u8>, nat)>::empty(), message_type, 1nat));
        lemma_lookup_upsert(Seq::<(Seq<u8>, nat)>::empty(), message_type, 1nat, message_type);
    }
    lemma_receivers(subs, values, text, message_type, n);
    lemma_equality_list(subs, values, text, n);

    // The field checks of the type, and the message.
    let key = field_key(field);
    let e = equality_list(subs, values, n);
    let entry: (EqView, NeqView) = (e, NeqView::empty());
    let filed = equality_field(field, e);
    assert(keys(filed) =~= seq![key]);
    lemma_first_index_is(keys(filed), key, 0);
    let m = string_encoding(text);
    lemma_string_encoding(text);
    let h = varint_bytes(2 * text.len()).len();
    reveal_strlit("");
    reveal_strlit(".");
    let path = ROOT_FIELD_PATH@ + FIELD_SEPARATOR@ + field;
    assert(path =~= key);
    assert(lookup(filed, path) == Some(entry));
    assert(m.skip(0) =~= m);
    let c0: CheckerView = (Seq::empty(), Seq::empty());
    assert(varint_readable(m));

    // The equality check.
    let c = if receivers_all.len() > 0 {
        lemma_pass_distinct(receivers_all);
        (counts_of(receivers_all), passed_of(receivers_all))
    } else {
        c0
    };
    assert(equality_check(c0, e, text) == Some(c));
    assert(string_checks(c, NeqView::empty(), text) == Some(c));
    assert(select_spec(c0, filed, AvroType::String, path, m) == Some(((h + text.len()) as nat, c)));
    assert(select_fields_spec(c0, filed, schema, ROOT_FIELD_PATH@, m, 0) == Some((0nat, c0)));
    assert(select_fields_spec(c0, filed, schema, ROOT_FIELD_PATH@, m, 1) == Some(
        ((h + text.len()) as nat, c),
    ));
    assert(select_spec(c0, filed, schema, ROOT_FIELD_PATH@, m) == Some(
        ((h + text.len()) as nat, c),
    ));

    // The recipients.
    if receivers_all.len() > 0 {
        lemma_recipients_once(receivers_all, message_type, receivers_all.len());
        assert(receivers_all.take(receivers_all.len() as int) =~= receivers_all);
    } else {
        assert(recipients_spec(c0, message_type, 0) == Some(SubsView::empty()));
        assert(receivers_all =~= SubsView::empty());
    }
}

} // verus!
