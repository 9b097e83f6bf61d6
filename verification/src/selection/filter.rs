use crate::assoc::{
    byte_keys, find_bytes_key, first_index, keys, lemma_first_index, lemma_lookup_upsert, lookup,
    upsert,
};
use crate::codec::bytes::{le_bytes, le_value, lemma_le_value_of_le_bytes, u32_to_le, u64_to_le};
use crate::protocol::out::extend_bytes;
use crate::selection::json::{find_member, member_index, str_equals, JsonNumber, JsonValue};
use vstd::prelude::*;

verus! {

/// Names the 32-bit xxHash, seed 0, of a byte sequence: what
/// `fasthash::xx::hash32` returns for those bytes.
pub uninterp spec fn xx_hash32(bytes: Seq<u8>) -> u32;

/// Hashes bytes with `fasthash::xx::hash32`. The contract only ties the result
/// to the named hash of exactly these bytes; the hash function itself is not
/// stated.
#[verifier::external_body]
fn xx_hash32_of(bytes: &[u8]) -> (hash: u32)
    ensures
        hash == xx_hash32(bytes@),
{
    fasthash::xx::hash32(bytes)
}

/// A constraint that a subscription puts on one field of a message.
#[derive(Debug)]
pub enum Constraint {
    Equal(Vec<u8>),
    GreaterThan(Vec<u8>),
    LowerThan(Vec<u8>),
    StartsWith(Vec<u8>),
    EndsWith(Vec<u8>),
}

/// A constraint with its operand as a byte sequence.
pub enum ConstraintView {
    Equal(Seq<u8>),
    GreaterThan(Seq<u8>),
    LowerThan(Seq<u8>),
    StartsWith(Seq<u8>),
    EndsWith(Seq<u8>),
}

impl View for Constraint {
    type V = ConstraintView;

    open spec fn view(&self) -> ConstraintView {
        match self {
            Constraint::Equal(v) => ConstraintView::Equal(v@),
            Constraint::GreaterThan(v) => ConstraintView::GreaterThan(v@),
            Constraint::LowerThan(v) => ConstraintView::LowerThan(v@),
            Constraint::StartsWith(v) => ConstraintView::StartsWith(v@),
            Constraint::EndsWith(v) => ConstraintView::EndsWith(v@),
        }
    }
}

pub type FieldConstraint = (String, Constraint);

pub type TypeConstraints = (Vec<u8>, Vec<FieldConstraint>);

pub type Filter = Vec<TypeConstraints>;

/// For each message type of a filter, how many field constraints it carries.
pub type ChecksRequiredPerType = Vec<(Vec<u8>, usize)>;

pub type FieldConstraintsView = Seq<(Seq<char>, ConstraintView)>;

pub type FilterView = Seq<(Seq<u8>, FieldConstraintsView)>;

pub open spec fn field_constraints_view(fcs: Seq<FieldConstraint>) -> FieldConstraintsView {
    fcs.map_values(|fc: FieldConstraint| (fc.0@, fc.1@))
}

pub open spec fn filter_view(f: Seq<TypeConstraints>) -> FilterView {
    f.map_values(|tc: TypeConstraints| (tc.0@, field_constraints_view(tc.1@)))
}

pub open spec fn checks_view(c: Seq<(Vec<u8>, usize)>) -> Seq<(Seq<u8>, nat)> {
    c.map_values(|e: (Vec<u8>, usize)| (e.0@, e.1 as nat))
}

/// The outcome of reading a value: the value, a refusal with its message, or
/// a panic of the reading code.
pub enum Parsed<T> {
    Value(T),
    Refused(Seq<char>),
    Panics,
}

/// What reading a value gives, as a value of the running program: the value,
/// a refusal with its message, or the finding that the reading code panics.
pub enum Reading<T> {
    Read(T),
    Refused(&'static str),
    Panic,
}

/// For each message type, the number of constraints of its last entry in the
/// filter, in the order the types first occur.
pub open spec fn checks_spec(f: FilterView) -> Seq<(Seq<u8>, nat)>
    decreases f.len(),
{
    if f.len() == 0 {
        Seq::empty()
    } else {
        upsert(checks_spec(f.drop_last()), f.last().0, f.last().1.len())
    }
}

/// A subscription must pass, for a message type, as many checks as the last
/// entry of its filter for that type has constraints; a type that the filter
/// does not name has no count.
pub proof fn law_checks_per_type(f: FilterView, message_type: Seq<u8>)
    ensures
        (forall|i: int| 0 <= i < f.len() ==> f[i].0 != message_type) ==> lookup(
            checks_spec(f),
            message_type,
        ) is None,
        forall|j: int|
            0 <= j < f.len() && f[j].0 == message_type && (forall|k: int|
                j < k < f.len() ==> f[k].0 != message_type) ==> lookup(
                checks_spec(f),
                message_type,
            ) == Some(f[j].1.len()),
    decreases f.len(),
{
    if f.len() > 0 {
        let rest = f.drop_last();
        law_checks_per_type(rest, message_type);
        let t = f.last().0;
        lemma_lookup_upsert(checks_spec(rest), t, f.last().1.len(), message_type);
        if forall|i: int| 0 <= i < f.len() ==> f[i].0 != message_type {
            assert forall|i: int| 0 <= i < rest.len() implies rest[i].0 != message_type by {
                assert(rest[i] == f[i]);
            }
            assert(f[f.len() - 1].0 != message_type);
        }
        assert forall|j: int|
            0 <= j < f.len() && f[j].0 == message_type && (forall|k: int|
                j < k < f.len() ==> f[k].0 != message_type) implies lookup(
                checks_spec(f),
                message_type,
            ) == Some(f[j].1.len()) by {
            if j < f.len() - 1 {
                assert(f[f.len() - 1].0 != message_type);
                assert(rest[j] == f[j]);
                assert forall|k: int| j < k < rest.len() implies rest[k].0 != message_type by {
                    assert(rest[k] == f[k]);
                }
            }
        }
    }
}

/// The bytes a message type name hashes to: the little-endian bytes of the
/// xxHash of its UTF-8 encoding.
pub open spec fn hashed_type(name: Seq<char>) -> Seq<u8> {
    le_bytes(xx_hash32(vstd::utf8::encode_utf8(name)) as nat, 4)
}

/// What reading one constraint gives.
pub open spec fn parse_constraint_spec(input: JsonValue) -> Parsed<ConstraintView>
    decreases input,
{
    match input {
        JsonValue::Object(members) => {
            if members@.len() > 1 {
                Parsed::Refused("Filter contains more than 1 operator"@)
            } else if members@.len() == 0 {
                Parsed::Panics
            } else {
                let operator = members@[0].0@;
                match parse_constraint_spec(members@[0].1) {
                    Parsed::Value(ConstraintView::Equal(bytes)) => {
                        if operator == "$lt"@ {
                            Parsed::Value(ConstraintView::LowerThan(bytes))
                        } else if operator == "$gt"@ {
                            Parsed::Value(ConstraintView::GreaterThan(bytes))
                        } else {
                            Parsed::Refused("Filter operator not known"@)
                        }
                    },
                    Parsed::Value(_) => Parsed::Refused(
                        "Filter contains an operator that cannot be parsed"@,
                    ),
                    _ => Parsed::Panics,
                }
            }
        },
        JsonValue::Number(JsonNumber::PosInt(n)) => Parsed::Value(
            ConstraintView::Equal(le_bytes(n as nat, 8)),
        ),
        JsonValue::Number(JsonNumber::NegInt(n)) => Parsed::Value(
            ConstraintView::Equal(le_bytes((n as u64) as nat, 8)),
        ),
        JsonValue::Number(JsonNumber::Float(bits)) => Parsed::Value(
            ConstraintView::Equal(le_bytes(bits as nat, 8)),
        ),
        JsonValue::String(s) => Parsed::Value(
            ConstraintView::Equal(vstd::utf8::encode_utf8(s@)),
        ),
        _ => Parsed::Refused("Filter contains field not allowed"@),
    }
}

/// The number a JSON number stands for.
pub open spec fn number_value(n: JsonNumber) -> int {
    match n {
        JsonNumber::PosInt(u) => u as int,
        JsonNumber::NegInt(i) => i as int,
        JsonNumber::Float(bits) => bits as int,
    }
}

/// Whether `bytes` are the eight little-endian bytes of the 64-bit form of the
/// number: a non-negative integer as it is, a negative one in two's
/// complement, a float by its IEEE-754 bits.
pub open spec fn spells_number(bytes: Seq<u8>, n: JsonNumber) -> bool {
    &&& bytes.len() == 8
    &&& le_value(bytes) as int == if number_value(n) < 0 {
        number_value(n) + 0x1_0000_0000_0000_0000
    } else {
        number_value(n)
    }
}

proof fn lemma_eight_bytes(x: nat)
    requires
        x < 0x1_0000_0000_0000_0000,
    ensures
        le_bytes(x, 8).len() == 8,
        le_value(le_bytes(x, 8)) == x,
{
    reveal_with_fuel(le_bytes, 9);
    lemma_le_value_of_le_bytes(x, 8);
    assert(vstd::arithmetic::power::pow(256, 8) == 0x1_0000_0000_0000_0000) by {
        reveal_with_fuel(vstd::arithmetic::power::pow, 9);
    }
    vstd::arithmetic::div_mod::lemma_small_mod(x, 0x1_0000_0000_0000_0000);
}

/// Every JSON number, integer or float, reads as an equality constraint whose
/// operand is the eight little-endian bytes of its 64-bit form.
pub proof fn law_number_reads_as_equality(n: JsonNumber)
    ensures
        parse_constraint_spec(JsonValue::Number(n)) matches Parsed::Value(
            ConstraintView::Equal(bytes),
        ) && spells_number(bytes, n),
{
    match n {
        JsonNumber::PosInt(u) => lemma_eight_bytes(u as nat),
        JsonNumber::NegInt(i) => {
            let w = #[verifier::truncate] (i as u64);
            assert(i < 0 ==> #[verifier::truncate] (i as u64) == 0xffff_ffff_ffff_ffff - (-(i + 1)) as u64) by (bit_vector);
            lemma_eight_bytes(w as nat);
        },
        JsonNumber::Float(bits) => lemma_eight_bytes(bits as nat),
    }
}

/// A JSON string reads as an equality constraint whose operand is valid UTF-8
/// and decodes to the string.
pub proof fn law_string_reads_as_equality(text: String)
    ensures
        parse_constraint_spec(JsonValue::String(text)) matches Parsed::Value(
            ConstraintView::Equal(bytes),
        ) && vstd::utf8::valid_utf8(bytes) && vstd::utf8::decode_utf8(bytes) == text@,
{
    vstd::utf8::encode_utf8_valid_utf8(text@);
    vstd::utf8::encode_utf8_decode_utf8(text@);
}

/// A one-member object whose value is a number reads as an order constraint
/// on the number's eight bytes: greater-than under `$gt`, lower-than under
/// `$lt`; any other operator is refused as unknown.
pub proof fn law_operator_on_number(members: Vec<(String, JsonValue)>, n: JsonNumber)
    requires
        members@.len() == 1,
        members@[0].1 == JsonValue::Number(n),
    ensures
        match parse_constraint_spec(JsonValue::Object(members)) {
            Parsed::Value(ConstraintView::GreaterThan(bytes)) => members@[0].0@ == "$gt"@
                && spells_number(bytes, n),
            Parsed::Value(ConstraintView::LowerThan(bytes)) => members@[0].0@ == "$lt"@
                && spells_number(bytes, n),
            Parsed::Refused(m) => members@[0].0@ != "$gt"@ && members@[0].0@ != "$lt"@ && m
                == "Filter operator not known"@,
            _ => false,
        },
{
    law_number_reads_as_equality(n);
}

/// Reads the constraints of the fields of one type entry, in order; `None`
/// when one of them does not read as a constraint.
pub open spec fn parse_fields_spec(members: Seq<(String, JsonValue)>) -> Option<
    FieldConstraintsView,
>
    decreases members.len(),
{
    if members.len() == 0 {
        Some(Seq::empty())
    } else {
        match parse_fields_spec(members.drop_last()) {
            Some(prefix) => match parse_constraint_spec(members.last().1) {
                Parsed::Value(c) => Some(prefix.push((members.last().0@, c))),
                _ => None,
            },
            None => None,
        }
    }
}

/// What reading one entry of the filter array gives: its hashed `$type` and the
/// constraints of its other members.
pub open spec fn parse_type_spec(element: JsonValue) -> Parsed<(Seq<u8>, FieldConstraintsView)> {
    match element {
        JsonValue::Object(members) => {
            let i = member_index(members@, "$type"@);
            if i < 0 {
                Parsed::Refused(Seq::empty())
            } else {
                match members@[i].1 {
                    JsonValue::String(name) => match parse_fields_spec(members@.remove(i)) {
                        Some(fields) => Parsed::Value((hashed_type(name@), fields)),
                        None => Parsed::Panics,
                    },
                    _ => Parsed::Refused(Seq::empty()),
                }
            }
        },
        _ => Parsed::Refused(Seq::empty()),
    }
}

/// Reads the entries in order; the first one that is refused or panics decides.
pub open spec fn parse_types_spec(elements: Seq<JsonValue>) -> Parsed<FilterView>
    decreases elements.len(),
{
    if elements.len() == 0 {
        Parsed::Value(Seq::empty())
    } else {
        match parse_types_spec(elements.drop_last()) {
            Parsed::Value(prefix) => match parse_type_spec(elements.last()) {
                Parsed::Value(entry) => Parsed::Value(prefix.push(entry)),
                Parsed::Refused(m) => Parsed::Refused(m),
                Parsed::Panics => Parsed::Panics,
            },
            Parsed::Refused(m) => Parsed::Refused(m),
            Parsed::Panics => Parsed::Panics,
        }
    }
}

/// What reading a whole filter gives: it must be an array of type entries.
pub open spec fn parse_filter_spec(input: JsonValue) -> Parsed<FilterView> {
    match input {
        JsonValue::Array(elements) => parse_types_spec(elements@),
        _ => Parsed::Refused(Seq::empty()),
    }
}

/// Builds the filter of a subscription and what each type of it requires.
pub trait FilterBuilder: Sized {
    /// Whether reading `input` as a filter completes without a panic.
    spec fn parse_defined(input: JsonValue) -> bool;

    /// Whether reading `input` as a constraint completes without a panic.
    spec fn parse_constraint_defined(input: JsonValue) -> bool;

    fn build_checks_per_type(&self) -> ChecksRequiredPerType;

    fn parse_constraint(input: JsonValue) -> Result<Constraint, &'static str>
        requires
            Self::parse_constraint_defined(input),
    ;

    fn hash_message_type(message_type: String) -> Vec<u8>;

    fn parse(input: JsonValue) -> Result<Self, ()>
        requires
            Self::parse_defined(input),
    ;
}

/// Reads one constraint; `Panic` marks the inputs that the reading cannot
/// handle.
pub fn read_constraint(input: &JsonValue) -> (constraint: Reading<Constraint>)
    ensures
        match parse_constraint_spec(*input) {
            Parsed::Value(c) => constraint is Read && constraint->Read_0@ == c,
            Parsed::Refused(m) => constraint is Refused && constraint->Refused_0@ == m,
            Parsed::Panics => constraint is Panic,
        },
    decreases input,
{
    match input {
        JsonValue::Object(members) => {
            if members.len() > 1 {
                return Reading::Refused("Filter contains more than 1 operator");
            }
            if members.len() == 0 {
                return Reading::Panic;
            }
            let operator = &members[0].0;
            let value = &members[0].1;
            let inner = read_constraint(value);
            let bytes = match inner {
                Reading::Read(Constraint::Equal(bytes)) => bytes,
                Reading::Read(_) => {
                    return Reading::Refused("Filter contains an operator that cannot be parsed");
                },
                _ => {
                    return Reading::Panic;
                },
            };
            if str_equals(operator.as_str(), "$lt") {
                Reading::Read(Constraint::LowerThan(bytes))
            } else if str_equals(operator.as_str(), "$gt") {
                Reading::Read(Constraint::GreaterThan(bytes))
            } else {
                Reading::Refused("Filter operator not known")
            }
        },
        JsonValue::Number(JsonNumber::PosInt(n)) => Reading::Read(
            Constraint::Equal(u64_to_le(*n)),
        ),
        JsonValue::Number(JsonNumber::NegInt(n)) => Reading::Read(
            Constraint::Equal(u64_to_le(#[verifier::truncate] (*n as u64))),
        ),
        JsonValue::Number(JsonNumber::Float(bits)) => Reading::Read(
            Constraint::Equal(u64_to_le(*bits)),
        ),
        JsonValue::String(s) => {
            let mut bytes = Vec::new();
            extend_bytes(&mut bytes, s.as_str().as_bytes());
            Reading::Read(Constraint::Equal(bytes))
        },
        _ => Reading::Refused("Filter contains field not allowed"),
    }
}

pub proof fn lemma_parse_fields_stuck(members: Seq<(String, JsonValue)>, k: int)
    requires
        0 <= k <= members.len(),
        parse_fields_spec(members.take(k)) is None,
    ensures
        parse_fields_spec(members) is None,
    decreases members.len(),
{
    if k < members.len() {
        assert(members.drop_last().take(k) =~= members.take(k));
        lemma_parse_fields_stuck(members.drop_last(), k);
    } else {
        assert(members.take(k) =~= members);
    }
}

pub proof fn lemma_parse_types_stuck(elements: Seq<JsonValue>, k: int)
    requires
        0 <= k <= elements.len(),
        !(parse_types_spec(elements.take(k)) is Value),
    ensures
        parse_types_spec(elements) == parse_types_spec(elements.take(k)),
    decreases elements.len(),
{
    if k < elements.len() {
        assert(elements.drop_last().take(k) =~= elements.take(k));
        lemma_parse_types_stuck(elements.drop_last(), k);
    } else {
        assert(elements.take(k) =~= elements);
    }
}

/// Copies a byte vector.
fn copy_bytes(v: &Vec<u8>) -> (out: Vec<u8>)
    ensures
        out@ == v@,
{
    let mut out = Vec::new();
    extend_bytes(&mut out, v.as_slice());
    out
}

/// The hashed message type of a type name.
fn hash_type_name(name: &String) -> (hashed: Vec<u8>)
    ensures
        hashed@ == hashed_type(name@),
{
    let hash = xx_hash32_of(name.as_str().as_bytes());
    u32_to_le(hash)
}

/// Reads one entry of the filter array.
fn read_type(element: &JsonValue) -> (entry: Reading<TypeConstraints>)
    ensures
        match parse_type_spec(*element) {
            Parsed::Value(v) => entry is Read && (entry->Read_0.0@, field_constraints_view(
                entry->Read_0.1@,
            )) == v,
            Parsed::Refused(_) => entry is Refused,
            Parsed::Panics => entry is Panic,
        },
{
    let members = match element {
        JsonValue::Object(members) => members,
        _ => {
            return Reading::Refused("");
        },
    };
    let i = match find_member(members, "$type") {
        Some(i) => i,
        None => {
            return Reading::Refused("");
        },
    };
    let name = match &members[i].1 {
        JsonValue::String(name) => name,
        _ => {
            return Reading::Refused("");
        },
    };
    let message_type = hash_type_name(name);
    let ghost rest = members@.remove(i as int);
    let mut fields: Vec<FieldConstraint> = Vec::new();
    let mut j: usize = 0;
    while j < members.len()
        invariant
            i < members@.len(),
            j <= members@.len(),
            rest == members@.remove(i as int),
            parse_type_spec(*element) == (match parse_fields_spec(rest) {
                Some(fields) => Parsed::Value((hashed_type(name@), fields)),
                None => Parsed::<(Seq<u8>, FieldConstraintsView)>::Panics,
            }),
            message_type@ == hashed_type(name@),
            parse_fields_spec(rest.take(if j <= i { j as int } else { j - 1 })) == Some(
                field_constraints_view(fields@),
            ),
        decreases members@.len() - j,
    {
        let ghost k: int = if j <= i { j as int } else { j - 1 };
        if j != i {
            proof {
                assert(rest[k] == members@[j as int]);
                assert(rest.take(k + 1).drop_last() =~= rest.take(k));
            }
            let constraint = read_constraint(&members[j].1);
            let constraint = match constraint {
                Reading::Read(c) => c,
                _ => {
                    proof {
                        assert(parse_fields_spec(rest.take(k + 1)) is None);
                        lemma_parse_fields_stuck(rest, k + 1);
                    }
                    return Reading::Panic;
                },
            };
            let ghost before = fields@;
            fields.push((members[j].0.clone(), constraint));
            assert(field_constraints_view(fields@) =~= field_constraints_view(before).push(
                (members@[j as int].0@, constraint@),
            ));
        } else {
            assert(rest.take(k) =~= rest.take(k));
        }
        j = j + 1;
    }
    proof {
        assert(rest.take(members@.len() - 1) =~= rest);
    }
    Reading::Read((message_type, fields))
}

/// Reads a whole filter; `Panic` marks the inputs that the reading cannot
/// handle.
pub fn read_filter(input: &JsonValue) -> (filter: Reading<Filter>)
    ensures
        match parse_filter_spec(*input) {
            Parsed::Value(v) => filter is Read && filter_view(filter->Read_0@) == v,
            Parsed::Refused(_) => filter is Refused,
            Parsed::Panics => filter is Panic,
        },
{
    let elements = match input {
        JsonValue::Array(elements) => elements,
        _ => {
            return Reading::Refused("");
        },
    };
    let mut filter: Filter = Vec::new();
    let mut i: usize = 0;
    assert(elements@.take(0) =~= Seq::<JsonValue>::empty());
    assert(filter_view(filter@) =~= Seq::empty());
    while i < elements.len()
        invariant
            i <= elements@.len(),
            parse_filter_spec(*input) == parse_types_spec(elements@),
            parse_types_spec(elements@.take(i as int)) == Parsed::<FilterView>::Value(
                filter_view(filter@),
            ),
        decreases elements@.len() - i,
    {
        assert(elements@.take(i + 1).drop_last() =~= elements@.take(i as int));
        assert(elements@.take(i + 1).last() == elements@[i as int]);
        let entry = read_type(&elements[i]);
        match entry {
            Reading::Read(entry) => {
                let ghost before = filter@;
                filter.push(entry);
                assert(filter_view(filter@) =~= filter_view(before).push(
                    (entry.0@, field_constraints_view(entry.1@)),
                ));
            },
            Reading::Refused(_) => {
                proof {
                    assert(parse_types_spec(elements@.take(i + 1)) is Refused);
                    lemma_parse_types_stuck(elements@, i + 1);
                }
                return Reading::Refused("");
            },
            Reading::Panic => {
                proof {
                    assert(parse_types_spec(elements@.take(i + 1)) is Panics);
                    lemma_parse_types_stuck(elements@, i + 1);
                }
                return Reading::Panic;
            },
        }
        i = i + 1;
    }
    assert(elements@.take(i as int) =~= elements@);
    Reading::Read(filter)
}

/// Stores `count` for `key` in `checks`: replaces the entry for the key, or
/// appends one.
fn upsert_checks(checks: &mut ChecksRequiredPerType, key: &Vec<u8>, count: usize)
    ensures
        checks_view(final(checks)@) == upsert(checks_view(old(checks)@), key@, count as nat),
{
    let ghost old_view = checks_view(checks@);
    assert(keys(old_view) =~= byte_keys(checks@));
    match find_bytes_key(checks, key.as_slice()) {
        Some(i) => {
            checks[i] = (copy_bytes(key), count);
        },
        None => {
            checks.push((copy_bytes(key), count));
        },
    }
    assert(checks_view(checks@) =~= upsert(old_view, key@, count as nat));
}

impl FilterBuilder for Filter {
    open spec fn parse_defined(input: JsonValue) -> bool {
        !(parse_filter_spec(input) is Panics)
    }

    open spec fn parse_constraint_defined(input: JsonValue) -> bool {
        !(parse_constraint_spec(input) is Panics)
    }

    fn build_checks_per_type(&self) -> (checks: ChecksRequiredPerType)
        ensures
            checks_view(checks@) == checks_spec(filter_view(self@)),
    {
        let mut checks: ChecksRequiredPerType = Vec::new();
        let mut i: usize = 0;
        assert(checks_view(checks@) =~= checks_spec(filter_view(self@.take(0))));
        while i < self.len()
            invariant
                i <= self@.len(),
                checks_view(checks@) == checks_spec(filter_view(self@.take(i as int))),
            decreases self@.len() - i,
        {
            assert(filter_view(self@.take(i + 1)).drop_last() =~= filter_view(
                self@.take(i as int),
            ));
            upsert_checks(&mut checks, &self[i].0, self[i].1.len());
            i = i + 1;
        }
        assert(self@.take(i as int) =~= self@);
        checks
    }

    fn parse_constraint(input: JsonValue) -> (constraint: Result<Constraint, &'static str>)
        ensures
            match parse_constraint_spec(input) {
                Parsed::Value(c) => constraint is Ok && constraint->Ok_0@ == c,
                Parsed::Refused(m) => constraint is Err && constraint->Err_0@ == m,
                Parsed::Panics => false,
            },
    {
        match read_constraint(&input) {
            Reading::Read(c) => Ok(c),
            Reading::Refused(m) => Err(m),
            Reading::Panic => {
                proof {
                    assert(false);
                }
                Err("")
            },
        }
    }

    fn hash_message_type(message_type: String) -> (hashed: Vec<u8>)
        ensures
            hashed@ == hashed_type(message_type@),
    {
        hash_type_name(&message_type)
    }

    fn parse(input: JsonValue) -> (filter: Result<Filter, ()>)
        ensures
            match parse_filter_spec(input) {
                Parsed::Value(v) => filter is Ok && filter_view(filter->Ok_0@) == v,
                Parsed::Refused(_) => filter is Err,
                Parsed::Panics => false,
            },
    {
        match read_filter(&input) {
            Reading::Read(f) => Ok(f),
            Reading::Refused(_) => Err(()),
            Reading::Panic => {
                proof {
                    assert(false);
                }
                Err(())
            },
        }
    }
}

} // verus!
