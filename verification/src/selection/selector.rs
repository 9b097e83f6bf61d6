use crate::assoc::{
    byte_keys, bytes_equal, find_bytes_key, find_str_key, find_string_key, index_of, keys, lookup,
    string_keys, upsert,
};
use crate::codec::avro::{AvroType, RecordField};
use crate::codec::numbers::{
    decoded_word, varint_end, varint_end_exec, varint_read_count, word_shifts_fit, VarIntDecoder,
};
use crate::selection::filter::checks_view;
use crate::selection::subscription::Subscription;
use crate::protocol::writer::{new_message_id, relay_frame, relay_frame_bytes, relay_id_at_reading};
use std::sync::Arc;
use vstd::prelude::*;

verus! {

pub const ROOT_FIELD_PATH: &'static str = "";

pub const FIELD_SEPARATOR: &'static str = ".";

/// Shares a subscription: `Arc::clone` gives another pointer to the same
/// subscription, so the pointee is equal.
#[verifier::external_body]
pub(crate) fn share(subscription: &Arc<Subscription>) -> (shared: Arc<Subscription>)
    ensures
        shared == *subscription,
{
    Arc::clone(subscription)
}

/// A check on a field other than equality.
#[derive(Debug)]
pub enum FieldNonEqualityCheck {
    GreaterThan(Vec<u8>),
    LowerThan(Vec<u8>),
    StartsWith(Vec<u8>),
    EndsWith(Vec<u8>),
}

pub enum CheckView {
    GreaterThan(Seq<u8>),
    LowerThan(Seq<u8>),
    StartsWith(Seq<u8>),
    EndsWith(Seq<u8>),
}

impl View for FieldNonEqualityCheck {
    type V = CheckView;

    open spec fn view(&self) -> CheckView {
        match self {
            FieldNonEqualityCheck::GreaterThan(v) => CheckView::GreaterThan(v@),
            FieldNonEqualityCheck::LowerThan(v) => CheckView::LowerThan(v@),
            FieldNonEqualityCheck::StartsWith(v) => CheckView::StartsWith(v@),
            FieldNonEqualityCheck::EndsWith(v) => CheckView::EndsWith(v@),
        }
    }
}

impl FieldNonEqualityCheck {
    /// Whether two checks are of the same kind with the same operand.
    pub fn same_as(&self, other: &FieldNonEqualityCheck) -> (same: bool)
        ensures
            same == (self@ == other@),
    {
        match (self, other) {
            (FieldNonEqualityCheck::GreaterThan(a), FieldNonEqualityCheck::GreaterThan(b)) => {
                bytes_equal(a.as_slice(), b.as_slice())
            },
            (FieldNonEqualityCheck::LowerThan(a), FieldNonEqualityCheck::LowerThan(b)) => {
                bytes_equal(a.as_slice(), b.as_slice())
            },
            (FieldNonEqualityCheck::StartsWith(a), FieldNonEqualityCheck::StartsWith(b)) => {
                bytes_equal(a.as_slice(), b.as_slice())
            },
            (FieldNonEqualityCheck::EndsWith(a), FieldNonEqualityCheck::EndsWith(b)) => {
                bytes_equal(a.as_slice(), b.as_slice())
            },
            _ => false,
        }
    }
}

pub type SelectorSubscription = Arc<Subscription>;

pub type SelectorSubscriptions = Vec<SelectorSubscription>;

/// For all messages: the non-equality checks on a field, in the order they
/// were first added, each with its subscriptions.
pub type FieldNonEqualityChecks = Vec<(FieldNonEqualityCheck, SelectorSubscriptions)>;

/// The subscriptions that want a field to equal each value; each value once.
pub type FieldEqualityCheck = Vec<(Vec<u8>, SelectorSubscriptions)>;

/// The checks on each field path; each path once.
pub type SubscriptionsByField = Vec<(String, (FieldEqualityCheck, FieldNonEqualityChecks))>;

/// The checks of each message type; each type once.
pub type SubscriptionsByType = Vec<(Vec<u8>, SubscriptionsByField)>;

pub type Selector = SubscriptionsByType;

pub type SubsView = Seq<Arc<Subscription>>;

pub type NeqView = Seq<(CheckView, SubsView)>;

pub type EqView = Seq<(Seq<u8>, SubsView)>;

pub type FieldView = Seq<(Seq<char>, (EqView, NeqView))>;

pub type SelectorView = Seq<(Seq<u8>, FieldView)>;

pub open spec fn neq_view(n: Seq<(FieldNonEqualityCheck, SelectorSubscriptions)>) -> NeqView {
    n.map_values(|e: (FieldNonEqualityCheck, SelectorSubscriptions)| (e.0@, e.1@))
}

pub open spec fn eq_view(e: Seq<(Vec<u8>, SelectorSubscriptions)>) -> EqView {
    e.map_values(|x: (Vec<u8>, SelectorSubscriptions)| (x.0@, x.1@))
}

pub open spec fn field_view(f: Seq<(String, (FieldEqualityCheck, FieldNonEqualityChecks))>) -> FieldView {
    f.map_values(
        |x: (String, (FieldEqualityCheck, FieldNonEqualityChecks))|
            (x.0@, (eq_view(x.1.0@), neq_view(x.1.1@))),
    )
}

pub open spec fn selector_view(s: Seq<(Vec<u8>, SubscriptionsByField)>) -> SelectorView {
    s.map_values(|x: (Vec<u8>, SubscriptionsByField)| (x.0@, field_view(x.1@)))
}

/// The list with `x` added to the entry for `k`, or with a new entry holding
/// only `x` appended when there is none.
pub open spec fn append_at<K, T>(s: Seq<(K, Seq<T>)>, k: K, x: T) -> Seq<(K, Seq<T>)> {
    let i = index_of(s, k);
    if i >= 0 {
        s.update(i, (k, s[i].1.push(x)))
    } else {
        s.push((k, seq![x]))
    }
}

pub trait ConditionalInsertion {
    spec fn checks_view(&self) -> NeqView;

    fn insert_or_add_to_existing(
        &mut self,
        check: FieldNonEqualityCheck,
        subscription: SelectorSubscription,
    )
        ensures
            final(self).checks_view() == append_at(old(self).checks_view(), check@, subscription),
    ;
}

impl ConditionalInsertion for FieldNonEqualityChecks {
    open spec fn checks_view(&self) -> NeqView {
        neq_view(self@)
    }

    fn insert_or_add_to_existing(
        &mut self,
        check: FieldNonEqualityCheck,
        subscription: SelectorSubscription,
    ) {
        let ghost old_view = neq_view(self@);
        let mut i: usize = 0;
        while i < self.len()
            invariant
                i <= self@.len(),
                old_view == neq_view(self@),
                old_view == neq_view(old(self)@),
                forall|j: int| 0 <= j < i ==> self@[j].0@ != check@,
            decreases self@.len() - i,
        {
            if self[i].0.same_as(&check) {
                proof {
                    crate::assoc::lemma_first_index_is(keys(old_view), check@, i as int);
                }
                let (c, mut subscriptions) = self.remove(i);
                subscriptions.push(subscription);
                self.insert(i, (c, subscriptions));
                assert(neq_view(self@) =~= append_at(old_view, check@, subscription));
                return;
            }
            i = i + 1;
        }
        proof {
            crate::assoc::lemma_first_index_is(keys(old_view), check@, -1);
        }
        let ghost check_view = check@;
        let mut subscriptions = Vec::new();
        subscriptions.push(subscription);
        self.push((check, subscriptions));
        assert(neq_view(self@) =~= append_at(old_view, check_view, subscription));
    }
}

/// For one message: how many checks each subscription (by id) has passed.
pub type ChecksPerMessage = Vec<(Vec<u8>, usize)>;

/// For one message: the subscriptions that passed a check, by id.
pub type Subscriptions = Vec<(Vec<u8>, Arc<Subscription>)>;

pub type Checker = (ChecksPerMessage, Subscriptions);

pub type CheckerView = (Seq<(Seq<u8>, nat)>, Seq<(Seq<u8>, Arc<Subscription>)>);

pub open spec fn checker_view(c: Checker) -> CheckerView {
    (
        c.0@.map_values(|e: (Vec<u8>, usize)| (e.0@, e.1 as nat)),
        c.1@.map_values(|e: (Vec<u8>, Arc<Subscription>)| (e.0@, e.1)),
    )
}

/// The checker after `subscription` passed one check; `None` when its counter
/// would overflow.
pub open spec fn pass_one(c: CheckerView, subscription: Arc<Subscription>) -> Option<CheckerView> {
    let id = subscription.id@;
    let count: nat = match lookup(c.0, id) {
        Some(n) => n,
        None => 0,
    };
    if count + 1 > usize::MAX {
        None
    } else {
        Some((upsert(c.0, id, count + 1), upsert(c.1, id, subscription)))
    }
}

/// Passing one check adds one to the count of the subscription's id, records
/// the subscription under its id, and leaves every other id as it was; it
/// fails only where the count would overflow.
pub proof fn law_pass_one_counts(c: CheckerView, subscription: Arc<Subscription>, other: Seq<u8>)
    ensures
        pass_one(c, subscription) is None <==> match lookup(c.0, subscription.id@) {
            Some(n) => n >= usize::MAX,
            None => false,
        },
        pass_one(c, subscription) matches Some(c1) ==> lookup(c1.0, subscription.id@) == Some(
            match lookup(c.0, subscription.id@) {
                Some(n) => n + 1,
                None => 1,
            },
        ) && lookup(c1.1, subscription.id@) == Some(subscription) && (other
            != subscription.id@ ==> lookup(c1.0, other) == lookup(c.0, other) && lookup(
            c1.1,
            other,
        ) == lookup(c.1, other)),
{
    let id = subscription.id@;
    let count: nat = match lookup(c.0, id) {
        Some(n) => n,
        None => 0,
    };
    crate::assoc::lemma_lookup_upsert(c.0, id, count + 1, other);
    crate::assoc::lemma_lookup_upsert(c.1, id, subscription, other);
}

/// The checker after each subscription of the list passed a check, in order.
pub open spec fn pass_all(c: CheckerView, subscriptions: SubsView) -> Option<CheckerView>
    decreases subscriptions.len(),
{
    if subscriptions.len() == 0 {
        Some(c)
    } else {
        match pass_all(c, subscriptions.drop_last()) {
            Some(c1) => pass_one(c1, subscriptions.last()),
            None => None,
        }
    }
}

/// The checker after each group of subscriptions passed, in order.
pub open spec fn pass_groups(c: CheckerView, groups: Seq<SubsView>) -> Option<CheckerView>
    decreases groups.len(),
{
    if groups.len() == 0 {
        Some(c)
    } else {
        match pass_groups(c, groups.drop_last()) {
            Some(c1) => pass_all(c1, groups.last()),
            None => None,
        }
    }
}

/// Copies a list of subscriptions.
pub fn copy_subscriptions(subscriptions: &SelectorSubscriptions) -> (copy: SelectorSubscriptions)
    ensures
        copy@ == subscriptions@,
{
    let mut copy = Vec::new();
    let mut i: usize = 0;
    while i < subscriptions.len()
        invariant
            i <= subscriptions@.len(),
            copy@ == subscriptions@.take(i as int),
        decreases subscriptions@.len() - i,
    {
        copy.push(share(&subscriptions[i]));
        assert(copy@ =~= subscriptions@.take(i + 1));
        i = i + 1;
    }
    assert(subscriptions@.take(i as int) =~= subscriptions@);
    copy
}

/// Counts one passed check for `subscription`; `false`, with the checker
/// unchanged, when the counter would overflow.
fn pass_one_exec(checker: &mut Checker, subscription: Arc<Subscription>) -> (passed: bool)
    ensures
        match pass_one(checker_view(*old(checker)), subscription) {
            Some(c) => passed && checker_view(*final(checker)) == c,
            None => !passed,
        },
{
    let ghost old_view = checker_view(*checker);
    assert(keys(old_view.0) =~= byte_keys(checker.0@));
    assert(keys(old_view.1) =~= byte_keys(checker.1@));
    let count_index = find_bytes_key(&checker.0, subscription.id.as_slice());
    let count: usize = match count_index {
        Some(i) => checker.0[i].1,
        None => 0,
    };
    if count == usize::MAX {
        return false;
    }
    let mut id = Vec::new();
    crate::protocol::out::extend_bytes(&mut id, subscription.id.as_slice());
    match count_index {
        Some(i) => {
            checker.0[i] = (id, count + 1);
        },
        None => {
            checker.0.push((id, count + 1));
        },
    }
    let mut id = Vec::new();
    crate::protocol::out::extend_bytes(&mut id, subscription.id.as_slice());
    match find_bytes_key(&checker.1, subscription.id.as_slice()) {
        Some(i) => {
            checker.1[i] = (id, subscription);
        },
        None => {
            checker.1.push((id, subscription));
        },
    }
    assert(checker_view(*checker).0 =~= pass_one(old_view, subscription)->Some_0.0);
    assert(checker_view(*checker).1 =~= pass_one(old_view, subscription)->Some_0.1);
    true
}

/// Counts one passed check for each subscription of the list; `false` when a
/// counter would overflow.
fn pass_all_exec(checker: &mut Checker, subscriptions: &SelectorSubscriptions) -> (passed: bool)
    ensures
        match pass_all(checker_view(*old(checker)), subscriptions@) {
            Some(c) => passed && checker_view(*final(checker)) == c,
            None => !passed,
        },
{
    let ghost start = checker_view(*checker);
    let mut i: usize = 0;
    while i < subscriptions.len()
        invariant
            i <= subscriptions@.len(),
            start == checker_view(*old(checker)),
            pass_all(start, subscriptions@.take(i as int)) == Some(checker_view(*checker)),
        decreases subscriptions@.len() - i,
    {
        assert(subscriptions@.take(i + 1).drop_last() =~= subscriptions@.take(i as int));
        if !pass_one_exec(checker, share(&subscriptions[i])) {
            proof {
                lemma_pass_all_stuck(start, subscriptions@, i + 1);
            }
            return false;
        }
        i = i + 1;
    }
    assert(subscriptions@.take(i as int) =~= subscriptions@);
    true
}

pub proof fn lemma_pass_all_stuck(c: CheckerView, s: SubsView, k: int)
    requires
        0 <= k <= s.len(),
        pass_all(c, s.take(k)) is None,
    ensures
        pass_all(c, s) is None,
    decreases s.len(),
{
    if k < s.len() {
        assert(s.drop_last().take(k) =~= s.take(k));
        lemma_pass_all_stuck(c, s.drop_last(), k);
    } else {
        assert(s.take(k) =~= s);
    }
}

pub trait CheckerOperations {
    spec fn checker_state(&self) -> CheckerView;

    fn pass(&mut self, subscriptions: SelectorSubscriptions)
        requires
            pass_all(old(self).checker_state(), subscriptions@) is Some,
        ensures
            Some(final(self).checker_state()) == pass_all(
                old(self).checker_state(),
                subscriptions@,
            ),
    ;
}

impl CheckerOperations for Checker {
    open spec fn checker_state(&self) -> CheckerView {
        checker_view(*self)
    }

    fn pass(&mut self, subscriptions: SelectorSubscriptions) {
        let passed = pass_all_exec(self, &subscriptions);
    }
}

/// Whether reading a variable-length integer from the front of `message`
/// keeps every shift within the machine word.
pub open spec fn varint_readable(message: Seq<u8>) -> bool {
    &&& message.len() < usize::MAX
    &&& word_shifts_fit(varint_read_count(message, message.len()))
}

/// Whether a greater-than check with operand `value` lets an encoded integer
/// field pass: the low bit of the first byte gives the sign, then lengths and
/// last bytes are compared.
pub open spec fn greater_than_passes(value: Seq<u8>, field: Seq<u8>) -> bool {
    let value_is_negative = value[0] % 2 == 1;
    let field_is_negative = field[0] % 2 == 1;
    if value_is_negative == field_is_negative {
        &&& !(value.len() > field.len())
        &&& !(value.len() == field.len() && value.last() > field.last())
        &&& value.last() != field.last()
    } else {
        !field_is_negative
    }
}

/// Whether a lower-than check with operand `value` lets an encoded integer
/// field pass.
pub open spec fn lower_than_passes(value: Seq<u8>, field: Seq<u8>) -> bool {
    let value_is_negative = value[0] % 2 == 1;
    let field_is_negative = field[0] % 2 == 1;
    if value_is_negative == field_is_negative {
        &&& !(value.len() < field.len())
        &&& !(value.len() == field.len() && value.last() < field.last())
        &&& value.last() != field.last()
    } else {
        !value_is_negative
    }
}

/// The checker after the prefix and suffix checks of a string field, in the
/// order of the checks; `None` where a check reads past the field or a counter
/// overflows.
pub open spec fn string_checks(c: CheckerView, checks: NeqView, field: Seq<u8>) -> Option<
    CheckerView,
>
    decreases checks.len(),
{
    if checks.len() == 0 {
        Some(c)
    } else {
        match string_checks(c, checks.drop_last(), field) {
            None => None,
            Some(c1) => {
                let (check, subscriptions) = checks.last();
                match check {
                    CheckView::StartsWith(v) => if v.len() > field.len() {
                        None
                    } else if field.take(v.len() as int) == v {
                        pass_all(c1, subscriptions)
                    } else {
                        Some(c1)
                    },
                    CheckView::EndsWith(v) => if v.len() > field.len() {
                        None
                    } else if field.skip(field.len() - v.len()) == v {
                        pass_all(c1, subscriptions)
                    } else {
                        Some(c1)
                    },
                    _ => Some(c1),
                }
            },
        }
    }
}

/// The checker after the order checks of an integer field, in the order of
/// the checks; `None` where a check has an empty operand or a counter
/// overflows.
pub open spec fn int_checks(c: CheckerView, checks: NeqView, field: Seq<u8>) -> Option<
    CheckerView,
>
    decreases checks.len(),
{
    if checks.len() == 0 {
        Some(c)
    } else {
        match int_checks(c, checks.drop_last(), field) {
            None => None,
            Some(c1) => {
                let (check, subscriptions) = checks.last();
                match check {
                    CheckView::GreaterThan(v) => if v.len() == 0 {
                        None
                    } else if greater_than_passes(v, field) {
                        pass_all(c1, subscriptions)
                    } else {
                        Some(c1)
                    },
                    CheckView::LowerThan(v) => if v.len() == 0 {
                        None
                    } else if lower_than_passes(v, field) {
                        pass_all(c1, subscriptions)
                    } else {
                        Some(c1)
                    },
                    _ => Some(c1),
                }
            },
        }
    }
}

/// The checker after the subscriptions that want the field to equal `field`
/// passed.
pub open spec fn equality_check(c: CheckerView, checks: EqView, field: Seq<u8>) -> Option<
    CheckerView,
> {
    match lookup(checks, field) {
        Some(subscriptions) => pass_all(c, subscriptions),
        None => Some(c),
    }
}

/// The number of fields of a record schema.
pub open spec fn record_len(schema: AvroType) -> nat {
    match schema {
        AvroType::Record { fields, .. } => fields@.len(),
        _ => 0,
    }
}

/// Selection over one field: where the field ends in `message` (counted from
/// the start of `message`) and the checker after the subscriptions with a
/// check on the field passed; `None` where the selection code panics.
pub open spec fn select_spec(
    c: CheckerView,
    by_field: FieldView,
    schema: AvroType,
    path: Seq<char>,
    message: Seq<u8>,
) -> Option<(nat, CheckerView)>
    decreases schema, record_len(schema) + 1,
{
    match schema {
        AvroType::String | AvroType::Bytes => {
            if !varint_readable(message) {
                None
            } else {
                let size = decoded_word(message, varint_read_count(message, message.len()));
                let start = varint_end(message) + 1;
                let end = start + size;
                if end > usize::MAX {
                    None
                } else {
                    match lookup(by_field, path) {
                        None => Some((end, c)),
                        Some(entry) => if end > message.len() {
                            None
                        } else {
                            let field = message.subrange(start as int, end as int);
                            match equality_check(c, entry.0, field) {
                                Some(c1) => match string_checks(c1, entry.1, field) {
                                    Some(c2) => Some((end, c2)),
                                    None => None,
                                },
                                None => None,
                            }
                        },
                    }
                }
            }
        },
        AvroType::Int => {
            if message.len() >= usize::MAX {
                None
            } else {
                let end = varint_end(message) + 1;
                match lookup(by_field, path) {
                    None => Some((end, c)),
                    Some(entry) => if end > message.len() {
                        None
                    } else {
                        let field = message.take(end as int);
                        match equality_check(c, entry.0, field) {
                            Some(c1) => match int_checks(c1, entry.1, field) {
                                Some(c2) => Some((end, c2)),
                                None => None,
                            },
                            None => None,
                        }
                    },
                }
            }
        },
        AvroType::Record { .. } => select_fields_spec(
            c,
            by_field,
            schema,
            path,
            message,
            record_len(schema),
        ),
        _ => Some((0, c)),
    }
}

/// Selection over the first `n` fields of a record: each field is read from
/// where the previous one said it ends, under the path of the record, the
/// separator and the field's name.
pub open spec fn select_fields_spec(
    c: CheckerView,
    by_field: FieldView,
    record: AvroType,
    path: Seq<char>,
    message: Seq<u8>,
    n: nat,
) -> Option<(nat, CheckerView)>
    decreases record, n,
{
    if n == 0 {
        Some((0, c))
    } else {
        match select_fields_spec(c, by_field, record, path, message, (n - 1) as nat) {
            None => None,
            Some((start, c1)) => if start > message.len() {
                None
            } else {
                match record {
                    AvroType::Record { fields, .. } => if n <= fields@.len() {
                        let field = fields@[n - 1];
                        select_spec(
                            c1,
                            by_field,
                            field.schema,
                            path + FIELD_SEPARATOR@ + field.name@,
                            message.skip(start as int),
                        )
                    } else {
                        None
                    },
                    _ => None,
                }
            },
        }
    }
}

pub proof fn lemma_string_checks_stuck(c: CheckerView, checks: NeqView, field: Seq<u8>, k: int)
    requires
        0 <= k <= checks.len(),
        string_checks(c, checks.take(k), field) is None,
    ensures
        string_checks(c, checks, field) is None,
    decreases checks.len(),
{
    if k < checks.len() {
        assert(checks.drop_last().take(k) =~= checks.take(k));
        lemma_string_checks_stuck(c, checks.drop_last(), field, k);
    } else {
        assert(checks.take(k) =~= checks);
    }
}

pub proof fn lemma_int_checks_stuck(c: CheckerView, checks: NeqView, field: Seq<u8>, k: int)
    requires
        0 <= k <= checks.len(),
        int_checks(c, checks.take(k), field) is None,
    ensures
        int_checks(c, checks, field) is None,
    decreases checks.len(),
{
    if k < checks.len() {
        assert(checks.drop_last().take(k) =~= checks.take(k));
        lemma_int_checks_stuck(c, checks.drop_last(), field, k);
    } else {
        assert(checks.take(k) =~= checks);
    }
}

pub proof fn lemma_select_fields_stuck(
    c: CheckerView,
    by_field: FieldView,
    record: AvroType,
    path: Seq<char>,
    message: Seq<u8>,
    k: nat,
    n: nat,
)
    requires
        k <= n,
        select_fields_spec(c, by_field, record, path, message, k) is None,
    ensures
        select_fields_spec(c, by_field, record, path, message, n) is None,
    decreases n,
{
    if k < n {
        lemma_select_fields_stuck(c, by_field, record, path, message, k, (n - 1) as nat);
    }
}

pub proof fn lemma_low_bit(b: u8)
    ensures
        (b & 1 != 0) == (b % 2 == 1),
{
    assert((b & 1 != 0) == (b % 2 == 1)) by (bit_vector);
}

/// The prefix and suffix checks of a string field, one check at a time: a
/// field at least as long as the operand passes a starts-with check exactly
/// when it is the operand followed by more bytes, and an ends-with check
/// exactly when it is more bytes followed by the operand.
pub proof fn law_string_checks_affixes(
    c: CheckerView,
    value: Seq<u8>,
    field: Seq<u8>,
    subscriptions: SubsView,
)
    requires
        value.len() <= field.len(),
    ensures
        string_checks(c, seq![(CheckView::StartsWith(value), subscriptions)], field) == if exists|
            rest: Seq<u8>,
        | field == value + rest {
            pass_all(c, subscriptions)
        } else {
            Some(c)
        },
        string_checks(c, seq![(CheckView::EndsWith(value), subscriptions)], field) == if exists|
            rest: Seq<u8>,
        | field == rest + value {
            pass_all(c, subscriptions)
        } else {
            Some(c)
        },
{
    let sw = seq![(CheckView::StartsWith(value), subscriptions)];
    let ew = seq![(CheckView::EndsWith(value), subscriptions)];
    assert(sw.drop_last() =~= Seq::<(CheckView, SubsView)>::empty());
    assert(ew.drop_last() =~= Seq::<(CheckView, SubsView)>::empty());
    assert(string_checks(c, sw.drop_last(), field) == Some(c));
    assert(string_checks(c, ew.drop_last(), field) == Some(c));
    assert(sw.last() == (CheckView::StartsWith(value), subscriptions));
    assert(ew.last() == (CheckView::EndsWith(value), subscriptions));
    let k = value.len() as int;
    if field.take(k) == value {
        assert(field =~= value + field.skip(k));
    }
    if exists|rest: Seq<u8>| field == value + rest {
        let rest = choose|rest: Seq<u8>| field == value + rest;
        assert(field.take(k) =~= value);
    }
    let j = field.len() - k;
    if field.skip(j) == value {
        assert(field =~= field.take(j) + value);
    }
    if exists|rest: Seq<u8>| field == rest + value {
        let rest = choose|rest: Seq<u8>| field == rest + value;
        assert(field.skip(j) =~= value);
    }
}

/// The order checks of an integer field, one check at a time: the sign of an
/// encoded integer is the low bit of its first byte. Where the operand and
/// the field differ in sign, a non-negative field passes a greater-than check
/// and fails a lower-than check, and a negative field the other way round.
pub proof fn law_order_checks_opposite_signs(
    c: CheckerView,
    value: Seq<u8>,
    field: Seq<u8>,
    subscriptions: SubsView,
)
    requires
        value.len() > 0,
        field.len() > 0,
        value[0] % 2 != field[0] % 2,
    ensures
        int_checks(c, seq![(CheckView::GreaterThan(value), subscriptions)], field) == if field[0]
            % 2 == 0 {
            pass_all(c, subscriptions)
        } else {
            Some(c)
        },
        int_checks(c, seq![(CheckView::LowerThan(value), subscriptions)], field) == if field[0]
            % 2 == 1 {
            pass_all(c, subscriptions)
        } else {
            Some(c)
        },
{
    let gt = seq![(CheckView::GreaterThan(value), subscriptions)];
    let lt = seq![(CheckView::LowerThan(value), subscriptions)];
    assert(gt.drop_last() =~= Seq::<(CheckView, SubsView)>::empty());
    assert(lt.drop_last() =~= Seq::<(CheckView, SubsView)>::empty());
    assert(int_checks(c, gt.drop_last(), field) == Some(c));
    assert(int_checks(c, lt.drop_last(), field) == Some(c));
    assert(gt.last() == (CheckView::GreaterThan(value), subscriptions));
    assert(lt.last() == (CheckView::LowerThan(value), subscriptions));
}

/// Where the operand and the field have the same sign, a field equal to the
/// operand passes neither order check, a greater-than check fails on a field
/// shorter than its operand, and a lower-than check on a field longer than
/// its operand. Otherwise the last bytes decide: on equal lengths the field
/// passes a greater-than check when its last byte is the greater and a
/// lower-than check when it is the smaller; a field longer than a
/// greater-than operand, or shorter than a lower-than operand, passes when
/// the last bytes differ.
pub proof fn law_order_checks_same_sign(
    c: CheckerView,
    value: Seq<u8>,
    field: Seq<u8>,
    subscriptions: SubsView,
)
    requires
        value.len() > 0,
        field.len() > 0,
        value[0] % 2 == field[0] % 2,
    ensures
        value == field ==> int_checks(
            c,
            seq![(CheckView::GreaterThan(value), subscriptions)],
            field,
        ) == Some(c) && int_checks(c, seq![(CheckView::LowerThan(value), subscriptions)], field)
            == Some(c),
        value.len() > field.len() ==> int_checks(
            c,
            seq![(CheckView::GreaterThan(value), subscriptions)],
            field,
        ) == Some(c),
        value.len() < field.len() ==> int_checks(
            c,
            seq![(CheckView::LowerThan(value), subscriptions)],
            field,
        ) == Some(c),
        value.len() == field.len() ==> int_checks(
            c,
            seq![(CheckView::GreaterThan(value), subscriptions)],
            field,
        ) == if value.last() < field.last() {
            pass_all(c, subscriptions)
        } else {
            Some(c)
        },
        value.len() == field.len() ==> int_checks(
            c,
            seq![(CheckView::LowerThan(value), subscriptions)],
            field,
        ) == if value.last() > field.last() {
            pass_all(c, subscriptions)
        } else {
            Some(c)
        },
        value.len() < field.len() ==> int_checks(
            c,
            seq![(CheckView::GreaterThan(value), subscriptions)],
            field,
        ) == if value.last() != field.last() {
            pass_all(c, subscriptions)
        } else {
            Some(c)
        },
        value.len() > field.len() ==> int_checks(
            c,
            seq![(CheckView::LowerThan(value), subscriptions)],
            field,
        ) == if value.last() != field.last() {
            pass_all(c, subscriptions)
        } else {
            Some(c)
        },
{
    let gt = seq![(CheckView::GreaterThan(value), subscriptions)];
    let lt = seq![(CheckView::LowerThan(value), subscriptions)];
    assert(gt.drop_last() =~= Seq::<(CheckView, SubsView)>::empty());
    assert(lt.drop_last() =~= Seq::<(CheckView, SubsView)>::empty());
    assert(int_checks(c, gt.drop_last(), field) == Some(c));
    assert(int_checks(c, lt.drop_last(), field) == Some(c));
    assert(gt.last() == (CheckView::GreaterThan(value), subscriptions));
    assert(lt.last() == (CheckView::LowerThan(value), subscriptions));
}

/// Lets the subscriptions that want the field to equal `field` pass.
fn equality_check_exec(checker: &mut Checker, checks: &FieldEqualityCheck, field: &[u8]) -> (ok: bool)
    ensures
        match equality_check(checker_view(*old(checker)), eq_view(checks@), field@) {
            Some(c) => ok && checker_view(*final(checker)) == c,
            None => !ok,
        },
{
    let ghost view = eq_view(checks@);
    assert(keys(view) =~= byte_keys(checks@));
    match find_bytes_key(checks, field) {
        Some(k) => pass_all_exec(checker, &checks[k].1),
        None => true,
    }
}

/// Runs the prefix and suffix checks of a string field.
fn string_checks_exec(checker: &mut Checker, checks: &FieldNonEqualityChecks, field: &[u8]) -> (ok: bool)
    ensures
        match string_checks(checker_view(*old(checker)), neq_view(checks@), field@) {
            Some(c) => ok && checker_view(*final(checker)) == c,
            None => !ok,
        },
{
    let ghost start = checker_view(*checker);
    let ghost view = neq_view(checks@);
    let mut j: usize = 0;
    assert(view.take(0) =~= Seq::<(CheckView, SubsView)>::empty());
    while j < checks.len()
        invariant
            j <= checks@.len(),
            view == neq_view(checks@),
            start == checker_view(*old(checker)),
            string_checks(start, view.take(j as int), field@) == Some(checker_view(*checker)),
        decreases checks@.len() - j,
    {
        assert(view.take(j + 1).drop_last() =~= view.take(j as int));
        assert(view.take(j + 1).last() == view[j as int]);
        let passes = match &checks[j].0 {
            FieldNonEqualityCheck::StartsWith(value) => {
                if value.len() > field.len() {
                    proof {
                        lemma_string_checks_stuck(start, view, field@, j + 1);
                    }
                    return false;
                }
                bytes_equal(value.as_slice(), &field[0..value.len()])
            },
            FieldNonEqualityCheck::EndsWith(value) => {
                if value.len() > field.len() {
                    proof {
                        lemma_string_checks_stuck(start, view, field@, j + 1);
                    }
                    return false;
                }
                proof {
                    assert(field@.subrange(field@.len() - value@.len(), field@.len() as int)
                        =~= field@.skip(field@.len() - value@.len()));
                }
                bytes_equal(value.as_slice(), &field[field.len() - value.len()..field.len()])
            },
            _ => false,
        };
        if passes {
            if !pass_all_exec(checker, &checks[j].1) {
                proof {
                    lemma_string_checks_stuck(start, view, field@, j + 1);
                }
                return false;
            }
        }
        j = j + 1;
    }
    assert(view.take(j as int) =~= view);
    true
}

/// Runs the order checks of an integer field.
fn int_checks_exec(checker: &mut Checker, checks: &FieldNonEqualityChecks, field: &[u8]) -> (ok: bool)
    requires
        field@.len() > 0,
    ensures
        match int_checks(checker_view(*old(checker)), neq_view(checks@), field@) {
            Some(c) => ok && checker_view(*final(checker)) == c,
            None => !ok,
        },
{
    let ghost start = checker_view(*checker);
    let ghost view = neq_view(checks@);
    let mut j: usize = 0;
    assert(view.take(0) =~= Seq::<(CheckView, SubsView)>::empty());
    while j < checks.len()
        invariant
            j <= checks@.len(),
            field@.len() > 0,
            view == neq_view(checks@),
            start == checker_view(*old(checker)),
            int_checks(start, view.take(j as int), field@) == Some(checker_view(*checker)),
        decreases checks@.len() - j,
    {
        assert(view.take(j + 1).drop_last() =~= view.take(j as int));
        assert(view.take(j + 1).last() == view[j as int]);
        let passes = match &checks[j].0 {
            FieldNonEqualityCheck::GreaterThan(value) => {
                if value.len() == 0 {
                    proof {
                        lemma_int_checks_stuck(start, view, field@, j + 1);
                    }
                    return false;
                }
                proof {
                    lemma_low_bit(value@[0]);
                    lemma_low_bit(field@[0]);
                }
                let value_is_negative = (value[0] & 0b0000_0001) != 0;
                let field_is_negative = (field[0] & 0b0000_0001) != 0;
                let last_value = value[value.len() - 1];
                let last_field = field[field.len() - 1];
                if (value_is_negative && field_is_negative) || (!value_is_negative
                    && !field_is_negative) {
                    !(value.len() > field.len()) && !(value.len() == field.len() && last_value
                        > last_field) && !(last_value == last_field)
                } else {
                    !field_is_negative
                }
            },
            FieldNonEqualityCheck::LowerThan(value) => {
                if value.len() == 0 {
                    proof {
                        lemma_int_checks_stuck(start, view, field@, j + 1);
                    }
                    return false;
                }
                proof {
                    lemma_low_bit(value@[0]);
                    lemma_low_bit(field@[0]);
                }
                let value_is_negative = (value[0] & 0b0000_0001) != 0;
                let field_is_negative = (field[0] & 0b0000_0001) != 0;
                let last_value = value[value.len() - 1];
                let last_field = field[field.len() - 1];
                if (value_is_negative && field_is_negative) || (!value_is_negative
                    && !field_is_negative) {
                    !(value.len() < field.len()) && !(value.len() == field.len() && last_value
                        < last_field) && !(last_value == last_field)
                } else {
                    !value_is_negative
                }
            },
            _ => false,
        };
        if passes {
            if !pass_all_exec(checker, &checks[j].1) {
                proof {
                    lemma_int_checks_stuck(start, view, field@, j + 1);
                }
                return false;
            }
        }
        j = j + 1;
    }
    assert(view.take(j as int) =~= view);
    true
}

/// Runs the selection over one field: `None` where the selection cannot go on,
/// else where the field ends.
pub fn try_select(
    checker: &mut Checker,
    subscriptions_by_field: &SubscriptionsByField,
    schema: &AvroType,
    field_name: &str,
    message: &[u8],
) -> (end: Option<usize>)
    ensures
        match select_spec(
            checker_view(*old(checker)),
            field_view(subscriptions_by_field@),
            *schema,
            field_name@,
            message@,
        ) {
            Some((e, c)) => end is Some && end->Some_0 == e && checker_view(*final(checker)) == c,
            None => end is None,
        },
    decreases schema,
{
    let ghost by_field = field_view(subscriptions_by_field@);
    proof {
        assert(keys(by_field) =~= string_keys(subscriptions_by_field@));
    }
    match schema {
        AvroType::String | AvroType::Bytes => {
            if message.len() == usize::MAX {
                return None;
            }
            let terminator = varint_end_exec(message);
            let count = if terminator < message.len() {
                terminator + 1
            } else {
                terminator
            };
            if count > (usize::BITS as usize + 6) / 7 {
                return None;
            }
            proof {
                crate::codec::numbers::lemma_varint_end_ge(message@, 0);
                assert(count == varint_read_count(message@, message@.len()));
            }
            let (size, size_length) = match message.read_varint() {
                Ok(read) => read,
                Err(_) => {
                    return None;
                },
            };
            let start = size_length;
            if size > usize::MAX - start {
                return None;
            }
            let end = start + size;
            let i = match find_str_key(subscriptions_by_field, field_name) {
                Some(i) => i,
                None => {
                    return Some(end);
                },
            };
            if end > message.len() {
                return None;
            }
            let field = &message[start..end];
            let (equality_checks, non_equality_checks) = &subscriptions_by_field[i].1;
            proof {
                assert(by_field[i as int] == (
                    subscriptions_by_field@[i as int].0@,
                    (eq_view(equality_checks@), neq_view(non_equality_checks@)),
                ));
                assert(lookup(by_field, field_name@) == Some(by_field[i as int].1));
            }
            if !equality_check_exec(checker, equality_checks, field) {
                return None;
            }
            if !string_checks_exec(checker, non_equality_checks, field) {
                return None;
            }
            Some(end)
        },
        AvroType::Int => {
            if message.len() == usize::MAX {
                return None;
            }
            let field_length = match message.get_varint_size() {
                Ok(n) => n,
                Err(_) => {
                    return None;
                },
            };
            let end = field_length;
            proof {
                crate::codec::numbers::lemma_varint_end_ge(message@, 0);
            }
            let i = match find_str_key(subscriptions_by_field, field_name) {
                Some(i) => i,
                None => {
                    return Some(end);
                },
            };
            if end > message.len() {
                return None;
            }
            let field = &message[0..end];
            let (equality_checks, non_equality_checks) = &subscriptions_by_field[i].1;
            proof {
                assert(by_field[i as int] == (
                    subscriptions_by_field@[i as int].0@,
                    (eq_view(equality_checks@), neq_view(non_equality_checks@)),
                ));
                assert(lookup(by_field, field_name@) == Some(by_field[i as int].1));
                assert(field@ =~= message@.take(end as int));
            }
            if !equality_check_exec(checker, equality_checks, field) {
                return None;
            }
            if !int_checks_exec(checker, non_equality_checks, field) {
                return None;
            }
            Some(end)
        },
        AvroType::Record { fields, .. } => {
            let ghost c0 = checker_view(*checker);
            let mut start: usize = 0;
            let mut i: usize = 0;
            while i < fields.len()
                invariant
                    i <= fields@.len(),
                    *schema == (AvroType::Record { name: schema->name, fields: *fields }),
                    c0 == checker_view(*old(checker)),
                    by_field == field_view(subscriptions_by_field@),
                    select_fields_spec(c0, by_field, *schema, field_name@, message@, i as nat)
                        == Some((start as nat, checker_view(*checker))),
                decreases fields@.len() - i,
            {
                if start > message.len() {
                    proof {
                        lemma_select_fields_stuck(
                            c0,
                            by_field,
                            *schema,
                            field_name@,
                            message@,
                            (i + 1) as nat,
                            fields@.len(),
                        );
                    }
                    return None;
                }
                let mut path = String::from_str(field_name);
                path.append(FIELD_SEPARATOR);
                path.append(fields[i].name.as_str());
                let rest = &message[start..message.len()];
                proof {
                    assert(rest@ =~= message@.skip(start as int));
                }
                let ghost c1 = checker_view(*checker);
                let ghost start1 = start;
                match try_select(
                    checker,
                    subscriptions_by_field,
                    &fields[i].schema,
                    path.as_str(),
                    rest,
                ) {
                    Some(next) => {
                        proof {
                            assert(path@ == field_name@ + FIELD_SEPARATOR@ + fields@[i as int].name@);
                            assert(select_fields_spec(c0, by_field, *schema, field_name@, message@, (i + 1) as nat)
                                == select_spec(c1, by_field, fields@[i as int].schema, path@, message@.skip(start1 as int)));
                        }
                        start = next;
                    },
                    None => {
                        proof {
                            lemma_select_fields_stuck(
                                c0,
                                by_field,
                                *schema,
                                field_name@,
                                message@,
                                (i + 1) as nat,
                                fields@.len(),
                            );
                        }
                        return None;
                    },
                }
                i = i + 1;
            }
            Some(start)
        },
        _ => Some(0),
    }
}

/// The subscriptions, in the order the checker first counted them, that
/// passed as many checks as their filter has for `message_type`, looking at the
/// first `n` counters; `None` where they cannot be found (a counted
/// subscription without an entry for the type).
pub open spec fn recipients_spec(c: CheckerView, message_type: Seq<u8>, n: nat) -> Option<SubsView>
    decreases n,
{
    if n == 0 {
        Some(Seq::empty())
    } else {
        match recipients_spec(c, message_type, (n - 1) as nat) {
            None => None,
            Some(recipients) => {
                let (id, passed) = c.0[n - 1];
                match lookup(c.1, id) {
                    None => None,
                    Some(subscription) => match lookup(
                        checks_view(subscription.checks_per_type@),
                        message_type,
                    ) {
                        None => None,
                        Some(expected) => if expected == passed {
                            Some(recipients.push(subscription))
                        } else {
                            Some(recipients)
                        },
                    },
                }
            },
        }
    }
}

/// The subscriptions that a message of `message_type` goes to: selection from
/// the root of the message over the checks of its type, then the subscriptions
/// that passed all their checks; nobody when no subscription names the type.
pub open spec fn distribute_spec(
    selector: SelectorView,
    message_type: Seq<u8>,
    schema: AvroType,
    message: Seq<u8>,
) -> Option<SubsView> {
    match lookup(selector, message_type) {
        None => Some(Seq::empty()),
        Some(by_field) => match select_spec(
            (Seq::empty(), Seq::empty()),
            by_field,
            schema,
            ROOT_FIELD_PATH@,
            message,
        ) {
            None => None,
            Some((_, c)) => recipients_spec(c, message_type, c.0.len()),
        },
    }
}

/// A message of a type that no subscription names goes to nobody.
pub proof fn law_unsubscribed_type_reaches_nobody(
    selector: SelectorView,
    message_type: Seq<u8>,
    schema: AvroType,
    message: Seq<u8>,
)
    requires
        lookup(selector, message_type) is None,
    ensures
        distribute_spec(selector, message_type, schema, message) == Some(SubsView::empty()),
{
}

/// Whether the subscription counted at `i` by the checker is `subscription`
/// and passed exactly as many checks as its filter has for `message_type`.
pub open spec fn passed_all_checks(
    c: CheckerView,
    message_type: Seq<u8>,
    i: int,
    subscription: Arc<Subscription>,
) -> bool {
    &&& lookup(c.1, c.0[i].0) == Some(subscription)
    &&& lookup(checks_view(subscription.checks_per_type@), message_type) == Some(c.0[i].1)
}

/// Whether one of the first `n` subscriptions that the checker counted is
/// `subscription` and passed every check that its filter has for
/// `message_type`.
pub open spec fn counted_as_passing(
    c: CheckerView,
    message_type: Seq<u8>,
    n: nat,
    subscription: Arc<Subscription>,
) -> bool {
    exists|i: int| 0 <= i < n && passed_all_checks(c, message_type, i, subscription)
}

/// The recipients among the first `n` counted subscriptions are those that
/// passed every check that their filter has for the message type: each
/// recipient passed as many checks as its filter requires, not fewer or
/// more, and each counted subscription that did so is a recipient. They are
/// found whenever every counted subscription is known with an entry for the
/// type.
pub proof fn law_recipients_passed_all_checks(c: CheckerView, message_type: Seq<u8>, n: nat)
    requires
        n <= c.0.len(),
    ensures
        recipients_spec(c, message_type, n) is Some <==> forall|i: int|
            0 <= i < n ==> (lookup(c.1, #[trigger] c.0[i].0) matches Some(s) && lookup(
                checks_view(s.checks_per_type@),
                message_type,
            ) is Some),
        recipients_spec(c, message_type, n) matches Some(r) ==> forall|k: int|
            0 <= k < r.len() ==> counted_as_passing(c, message_type, n, #[trigger] r[k]),
        recipients_spec(c, message_type, n) matches Some(r) ==> forall|i: int, s: Arc<Subscription>|
            0 <= i < n && #[trigger] passed_all_checks(c, message_type, i, s) ==> r.contains(s),
    decreases n,
{
    if n > 0 {
        let m = (n - 1) as nat;
        law_recipients_passed_all_checks(c, message_type, m);
        let i = n - 1;
        if recipients_spec(c, message_type, n) is Some {
            let r0 = recipients_spec(c, message_type, m)->Some_0;
            let r = recipients_spec(c, message_type, n)->Some_0;
            let s = lookup(c.1, c.0[i].0)->Some_0;
            assert forall|k: int| 0 <= k < r.len() implies counted_as_passing(c, message_type, n, #[trigger] r[k]) by {
                if k < r0.len() {
                    assert(r[k] == r0[k]);
                    assert(counted_as_passing(c, message_type, m, r0[k]));
                } else {
                    assert(passed_all_checks(c, message_type, i, r[k]));
                }
            }
            assert forall|j: int, s2: Arc<Subscription>|
                0 <= j < n && #[trigger] passed_all_checks(c, message_type, j, s2) implies r.contains(s2) by {
                if j < i {
                    let k = choose|k: int| 0 <= k < r0.len() && r0[k] == s2;
                    assert(r[k] == s2);
                } else {
                    assert(r[r.len() - 1] == s2);
                }
            }
        } else {
            if recipients_spec(c, message_type, m) is None {
                let j = choose|j: int| 0 <= j < m && !(lookup(c.1, #[trigger] c.0[j].0) matches Some(s) && lookup(
                    checks_view(s.checks_per_type@),
                    message_type,
                ) is Some);
            }
        }
        if forall|j: int|
            0 <= j < n ==> (lookup(c.1, #[trigger] c.0[j].0) matches Some(s) && lookup(
                checks_view(s.checks_per_type@),
                message_type,
            ) is Some) {
            assert(lookup(c.1, c.0[i].0) is Some);
        }
    }
}

pub proof fn lemma_recipients_stuck(c: CheckerView, message_type: Seq<u8>, k: nat, n: nat)
    requires
        k <= n,
        recipients_spec(c, message_type, k) is None,
    ensures
        recipients_spec(c, message_type, n) is None,
    decreases n,
{
    if k < n {
        lemma_recipients_stuck(c, message_type, k, (n - 1) as nat);
    }
}

/// Collects the recipients; `None` where they cannot be found.
pub fn try_get_recipients(checker: &Checker, message_type: &[u8]) -> (recipients: Option<
    Vec<Arc<Subscription>>,
>)
    ensures
        match recipients_spec(checker_view(*checker), message_type@, checker.0@.len()) {
            Some(r) => recipients is Some && recipients->Some_0@ == r,
            None => recipients is None,
        },
{
    let ghost c = checker_view(*checker);
    assert(keys(c.1) =~= byte_keys(checker.1@));
    let mut recipients: Vec<Arc<Subscription>> = Vec::new();
    let mut i: usize = 0;
    while i < checker.0.len()
        invariant
            i <= checker.0@.len(),
            c == checker_view(*checker),
            keys(c.1) == byte_keys(checker.1@),
            recipients_spec(c, message_type@, i as nat) == Some(recipients@),
        decreases checker.0@.len() - i,
    {
        let (id, passed) = (&checker.0[i].0, checker.0[i].1);
        assert(c.0[i as int] == (id@, passed as nat));
        let k = match find_bytes_key(&checker.1, id.as_slice()) {
            Some(k) => k,
            None => {
                proof {
                    lemma_recipients_stuck(c, message_type@, (i + 1) as nat, checker.0@.len());
                }
                return None;
            },
        };
        let subscription = &checker.1[k].1;
        assert(lookup(c.1, id@) == Some(*subscription));
        let ghost checks = checks_view(subscription.checks_per_type@);
        assert(keys(checks) =~= byte_keys(subscription.checks_per_type@));
        let j = match find_bytes_key(&subscription.checks_per_type, message_type) {
            Some(j) => j,
            None => {
                proof {
                    lemma_recipients_stuck(c, message_type@, (i + 1) as nat, checker.0@.len());
                }
                return None;
            },
        };
        let expected = subscription.checks_per_type[j].1;
        assert(lookup(checks, message_type@) == Some(expected as nat));
        if expected == passed {
            recipients.push(share(subscription));
        }
        i = i + 1;
    }
    Some(recipients)
}

/// Finds the recipients of a message; `None` where the distribution cannot go
/// on.
pub fn try_distribute(
    selector: &Selector,
    message_type: &[u8],
    schema: &AvroType,
    message: &[u8],
) -> (recipients: Option<Vec<Arc<Subscription>>>)
    ensures
        match distribute_spec(selector_view(selector@), message_type@, *schema, message@) {
            Some(r) => recipients is Some && recipients->Some_0@ == r,
            None => recipients is None,
        },
{
    let ghost view = selector_view(selector@);
    assert(keys(view) =~= byte_keys(selector@));
    let i = match find_bytes_key(selector, message_type) {
        Some(i) => i,
        None => {
            return Some(Vec::new());
        },
    };
    let subscriptions_by_field = &selector[i].1;
    assert(lookup(view, message_type@) == Some(field_view(subscriptions_by_field@)));
    let mut checker: Checker = (Vec::new(), Vec::new());
    assert(checker_view(checker) =~= (
        Seq::<(Seq<u8>, nat)>::empty(),
        Seq::<(Seq<u8>, Arc<Subscription>)>::empty(),
    ));
    match try_select(&mut checker, subscriptions_by_field, schema, ROOT_FIELD_PATH, message) {
        Some(_) => {},
        None => {
            return None;
        },
    }
    try_get_recipients(&checker, message_type)
}

/// Selection of the subscriptions that a message goes to.
pub trait Selection {
    spec fn selection_view(&self) -> SelectorView;

    fn get_recipients(checker: Checker, message_type: &[u8]) -> (recipients: Vec<
        Arc<Subscription>,
    >)
        requires
            recipients_spec(checker_view(checker), message_type@, checker.0@.len()) is Some,
        ensures
            Some(recipients@) == recipients_spec(
                checker_view(checker),
                message_type@,
                checker.0@.len(),
            ),
    ;

    fn select(
        &self,
        checker: &mut Checker,
        subscriptions_by_field: &SubscriptionsByField,
        schema: &AvroType,
        field_name: &str,
        message: &[u8],
    ) -> (end: usize)
        requires
            select_spec(
                checker_view(*old(checker)),
                field_view(subscriptions_by_field@),
                *schema,
                field_name@,
                message@,
            ) is Some,
        ensures
            select_spec(
                checker_view(*old(checker)),
                field_view(subscriptions_by_field@),
                *schema,
                field_name@,
                message@,
            ) == Some((end as nat, checker_view(*final(checker)))),
    ;

    /// For each recipient in order, the client to write to and the frame that
    /// relays the message, each frame with a fresh relay id made of the clock
    /// and three random bytes; `None` where the clock reads a time before the
    /// epoch, which can happen only when there is a recipient to relay to.
    fn relay(recipients: &Vec<Arc<Subscription>>, message_type: &[u8], message: &[u8]) -> (frames:
        Option<Vec<(Vec<u8>, Vec<u8>)>>)
        ensures
            recipients@.len() == 0 ==> (frames matches Some(fs) && fs@.len() == 0),
            frames matches Some(fs) ==> fs@.len() == recipients@.len() && forall|i: int|
                0 <= i < recipients@.len() ==> (#[trigger] fs@[i]).0@ == recipients@[i].client@
                    && exists|nanos: u128, random: [u8; 3]|
                    fs@[i].1@ == relay_frame_bytes(
                        #[trigger] relay_id_at_reading(nanos, random@),
                        message_type@,
                        recipients@[i].id@,
                        message@,
                    ),
    ;

    /// The subscriptions that a message goes to; relaying it to them is the
    /// caller's part.
    fn distribute(&self, message_type: &[u8], schema: &AvroType, message: &[u8]) -> (recipients: Vec<
        Arc<Subscription>,
    >)
        requires
            distribute_spec(self.selection_view(), message_type@, *schema, message@) is Some,
        ensures
            Some(recipients@) == distribute_spec(
                self.selection_view(),
                message_type@,
                *schema,
                message@,
            ),
    ;
}

impl Selection for Selector {
    open spec fn selection_view(&self) -> SelectorView {
        selector_view(self@)
    }

    fn get_recipients(checker: Checker, message_type: &[u8]) -> (recipients: Vec<
        Arc<Subscription>,
    >) {
        match try_get_recipients(&checker, message_type) {
            Some(recipients) => recipients,
            None => Vec::new(),
        }
    }

    fn select(
        &self,
        checker: &mut Checker,
        subscriptions_by_field: &SubscriptionsByField,
        schema: &AvroType,
        field_name: &str,
        message: &[u8],
    ) -> (end: usize) {
        match try_select(checker, subscriptions_by_field, schema, field_name, message) {
            Some(end) => end,
            None => 0,
        }
    }

    fn relay(recipients: &Vec<Arc<Subscription>>, message_type: &[u8], message: &[u8]) -> (frames:
        Option<Vec<(Vec<u8>, Vec<u8>)>>) {
        let mut frames: Vec<(Vec<u8>, Vec<u8>)> = Vec::new();
        let mut i: usize = 0;
        while i < recipients.len()
            invariant
                i <= recipients@.len(),
                frames@.len() == i,
                forall|j: int|
                    0 <= j < i ==> (#[trigger] frames@[j]).0@ == recipients@[j].client@
                        && exists|nanos: u128, random: [u8; 3]|
                        frames@[j].1@ == relay_frame_bytes(
                            #[trigger] relay_id_at_reading(nanos, random@),
                            message_type@,
                            recipients@[j].id@,
                            message@,
                        ),
            decreases recipients@.len() - i,
        {
            let recipient = &recipients[i];
            let relay_id = match new_message_id() {
                Some(id) => id,
                None => {
                    return None;
                },
            };
            let frame = relay_frame(&relay_id, message_type, recipient.id.as_slice(), message);
            let mut client = Vec::new();
            crate::protocol::out::extend_bytes(&mut client, recipient.client.as_slice());
            assert(client@ =~= recipient.client@);
            frames.push((client, frame));
            i = i + 1;
        }
        Some(frames)
    }

    fn distribute(&self, message_type: &[u8], schema: &AvroType, message: &[u8]) -> (recipients: Vec<
        Arc<Subscription>,
    >) {
        match try_distribute(self, message_type, schema, message) {
            Some(recipients) => recipients,
            None => Vec::new(),
        }
    }
}

} // verus!