//! The XML-RPC value model: the closed set of typed values that travel on the
//! wire, together with the mathematical view that contracts are stated over.

use vstd::prelude::*;

verus! {

/// A timestamp truncated to whole-second resolution, held as plain calendar
/// and clock fields.  The wire format carries no timezone and no sub-second
/// component, so none is modelled.
#[derive(Clone, Copy, Debug, PartialEq, Eq, Structural)]
pub struct DateTime {
    pub year: u16,
    pub month: u8,
    pub day: u8,
    pub hour: u8,
    pub minute: u8,
    pub second: u8,
}

/// A leap year of the Gregorian calendar.
pub open spec fn is_leap_year(y: int) -> bool {
    (y % 4 == 0 && y % 100 != 0) || y % 400 == 0
}

/// How many days the month has in that year.
pub open spec fn days_in_month(y: int, m: int) -> int {
    if m == 2 {
        if is_leap_year(y) {
            29
        } else {
            28
        }
    } else if m == 4 || m == 6 || m == 9 || m == 11 {
        30
    } else {
        31
    }
}

/// Exec mirror of `days_in_month`.
pub fn month_days(y: u16, m: u8) -> (r: u8)
    ensures
        r as int == days_in_month(y as int, m as int),
{
    if m == 2 {
        if (y % 4 == 0 && y % 100 != 0) || y % 400 == 0 {
            29
        } else {
            28
        }
    } else if m == 4 || m == 6 || m == 9 || m == 11 {
        30
    } else {
        31
    }
}

impl DateTime {
    /// Field ranges the fixed wire format can carry, with the day bounded by
    /// the month's length in that year.
    pub open spec fn wf(self) -> bool {
        &&& self.year <= 9999
        &&& 1 <= self.month <= 12
        &&& 1 <= self.day <= days_in_month(self.year as int, self.month as int)
        &&& self.hour <= 23
        &&& self.minute <= 59
        &&& self.second <= 59
    }

    /// Constructor checking the field ranges of the wire format.
    pub fn new(year: u16, month: u8, day: u8, hour: u8, minute: u8, second: u8) -> (r: Option<
        DateTime,
    >)
        ensures
            ({
                let d = DateTime { year, month, day, hour, minute, second };
                if d.wf() {
                    r == Some(d)
                } else {
                    r is None
                }
            }),
    {
        let d = DateTime { year, month, day, hour, minute, second };
        if year <= 9999 && 1 <= month && month <= 12 && 1 <= day && hour <= 23 && minute <= 59
            && second <= 59 && day <= month_days(year, month) {
            Some(d)
        } else {
            None
        }
    }
}

/// One (name, value) pair of a struct.  Names are not required to be unique;
/// members keep their encounter order, duplicates included.
#[derive(Debug, PartialEq)]
pub struct Member {
    pub name: String,
    pub value: Value,
}

/// An ordered list of members, written on the wire as `<struct>`.
#[derive(Debug, PartialEq)]
pub struct Struct {
    pub members: Vec<Member>,
}

/// An ordered sequence of values, written on the wire as `<array>`.
#[derive(Debug, PartialEq)]
pub struct Array {
    pub values: Vec<Value>,
}

/// The closed set of XML-RPC values.
///
/// `Double` holds the decimal text of the number: the codec reads and writes
/// that text unchanged, and callers that want machine floats convert at the
/// library boundary.
#[derive(Debug, PartialEq)]
pub enum Value {
    Integer(i32),
    Long(i64),
    Boolean(bool),
    Str(String),
    Double(String),
    Date(DateTime),
    Base64(Vec<u8>),
    Struct(Struct),
    Array(Array),
    Nil,
}

/// Mathematical view of a member.
pub ghost struct MemberSpec {
    pub name: Seq<char>,
    pub value: ValueSpec,
}

/// Mathematical view of a value.
pub ghost enum ValueSpec {
    Integer(i32),
    Long(i64),
    Boolean(bool),
    Str(Seq<char>),
    Double(Seq<char>),
    Date(DateTime),
    Base64(Seq<u8>),
    Struct(Seq<MemberSpec>),
    Array(Seq<ValueSpec>),
    Nil,
}

pub open spec fn value_view(v: Value) -> ValueSpec
    decreases v,
{
    match v {
        Value::Integer(n) => ValueSpec::Integer(n),
        Value::Long(n) => ValueSpec::Long(n),
        Value::Boolean(b) => ValueSpec::Boolean(b),
        Value::Str(s) => ValueSpec::Str(s@),
        Value::Double(s) => ValueSpec::Double(s@),
        Value::Date(d) => ValueSpec::Date(d),
        Value::Base64(b) => ValueSpec::Base64(b@),
        Value::Struct(s) => ValueSpec::Struct(members_view(s.members@)),
        Value::Array(a) => ValueSpec::Array(values_view(a.values@)),
        Value::Nil => ValueSpec::Nil,
    }
}

pub open spec fn members_view(s: Seq<Member>) -> Seq<MemberSpec>
    decreases s,
{
    if s.len() == 0 {
        Seq::empty()
    } else {
        members_view(s.drop_last()).push(
            MemberSpec { name: s.last().name@, value: value_view(s.last().value) },
        )
    }
}

pub open spec fn values_view(s: Seq<Value>) -> Seq<ValueSpec>
    decreases s,
{
    if s.len() == 0 {
        Seq::empty()
    } else {
        values_view(s.drop_last()).push(value_view(s.last()))
    }
}

impl View for Value {
    type V = ValueSpec;

    open spec fn view(&self) -> ValueSpec {
        value_view(*self)
    }
}

impl View for Member {
    type V = MemberSpec;

    open spec fn view(&self) -> MemberSpec {
        MemberSpec { name: self.name@, value: value_view(self.value) }
    }
}

impl View for Struct {
    type V = Seq<MemberSpec>;

    open spec fn view(&self) -> Seq<MemberSpec> {
        members_view(self.members@)
    }
}

impl View for Array {
    type V = Seq<ValueSpec>;

    open spec fn view(&self) -> Seq<ValueSpec> {
        values_view(self.values@)
    }
}

/// A value the codec can write: double text is a valid literal and
/// timestamps are in range, recursively.
pub open spec fn wf_value(v: ValueSpec) -> bool
    decreases v,
{
    match v {
        ValueSpec::Double(t) => crate::text::is_double_text(t),
        ValueSpec::Date(d) => d.wf(),
        ValueSpec::Struct(ms) => wf_members(ms),
        ValueSpec::Array(vs) => wf_values(vs),
        _ => true,
    }
}

pub open spec fn wf_members(ms: Seq<MemberSpec>) -> bool
    decreases ms,
{
    ms.len() == 0 || (wf_members(ms.drop_last()) && wf_value(ms.last().value))
}

pub open spec fn wf_values(vs: Seq<ValueSpec>) -> bool
    decreases vs,
{
    vs.len() == 0 || (wf_values(vs.drop_last()) && wf_value(vs.last()))
}

impl Value {
    /// A 32-bit integer value, written as `<i4>`.
    pub fn i4(n: i32) -> (r: Value)
        ensures
            r@ == ValueSpec::Integer(n),
    {
        Value::Integer(n)
    }

    /// A 64-bit integer value, written as `<i8>`.
    pub fn i8(n: i64) -> (r: Value)
        ensures
            r@ == ValueSpec::Long(n),
    {
        Value::Long(n)
    }

    /// A boolean value, written as `<boolean>` with literal `1` or `0`.
    pub fn boolean(b: bool) -> (r: Value)
        ensures
            r@ == ValueSpec::Boolean(b),
    {
        Value::Boolean(b)
    }

    /// A string value.
    pub fn string(s: String) -> (r: Value)
        ensures
            r@ == ValueSpec::Str(s@),
    {
        Value::Str(s)
    }

    /// A double value, given as its decimal text; rejected unless the text is
    /// a valid double literal.
    pub fn double(text: String) -> (r: Option<Value>)
        ensures
            if crate::text::is_double_text(text@) {
                r == Some(Value::Double(text)) && r.unwrap()@ == ValueSpec::Double(text@)
            } else {
                r is None
            },
    {
        if crate::text::is_valid_double(text.as_str()) {
            Some(Value::Double(text))
        } else {
            None
        }
    }

    /// A timestamp value.
    pub fn datetime(d: DateTime) -> (r: Value)
        requires
            d.wf(),
        ensures
            r@ == ValueSpec::Date(d),
    {
        Value::Date(d)
    }

    /// A binary payload, written as `<base64>`.
    pub fn base64(b: Vec<u8>) -> (r: Value)
        ensures
            r@ == ValueSpec::Base64(b@),
    {
        Value::Base64(b)
    }

    /// The nil value, written as `<nil/>`.
    pub fn nil() -> (r: Value)
        ensures
            r@ == ValueSpec::Nil,
    {
        Value::Nil
    }

    /// A struct value.
    pub fn structure(s: Struct) -> (r: Value)
        ensures
            r@ == ValueSpec::Struct(s@),
    {
        Value::Struct(s)
    }

    /// An array value.
    pub fn array(a: Array) -> (r: Value)
        ensures
            r@ == ValueSpec::Array(a@),
    {
        Value::Array(a)
    }
}

impl Value {
    /// The 32-bit integer inside, where this is one.
    pub fn as_i4(&self) -> (r: Option<i32>)
        ensures
            match self@ {
                ValueSpec::Integer(n) => r == Some(n),
                _ => r is None,
            },
    {
        match self {
            Value::Integer(n) => Some(*n),
            _ => None,
        }
    }

    /// The 64-bit integer inside, where this is one.
    pub fn as_i8(&self) -> (r: Option<i64>)
        ensures
            match self@ {
                ValueSpec::Long(n) => r == Some(n),
                _ => r is None,
            },
    {
        match self {
            Value::Long(n) => Some(*n),
            _ => None,
        }
    }

    /// The boolean inside, where this is one.
    pub fn as_boolean(&self) -> (r: Option<bool>)
        ensures
            match self@ {
                ValueSpec::Boolean(b) => r == Some(b),
                _ => r is None,
            },
    {
        match self {
            Value::Boolean(b) => Some(*b),
            _ => None,
        }
    }

    /// The string inside, where this is one.
    pub fn as_str(&self) -> (r: Option<&String>)
        ensures
            match self@ {
                ValueSpec::Str(t) => r matches Some(s) && s@ == t,
                _ => r is None,
            },
    {
        match self {
            Value::Str(s) => Some(s),
            _ => None,
        }
    }
}

impl Member {
    /// A (name, value) pair of a struct.
    pub fn new(name: String, value: Value) -> (r: Member)
        ensures
            r@ == (MemberSpec { name: name@, value: value@ }),
    {
        Member { name, value }
    }
}

impl Struct {
    /// A struct holding exactly these members, in order.
    pub fn from_members(members: Vec<Member>) -> (r: Struct)
        ensures
            r@ == members_view(members@),
    {
        Struct { members }
    }
}

impl Array {
    /// An array holding exactly these values, in order.
    pub fn from_elements(values: Vec<Value>) -> (r: Array)
        ensures
            r@ == values_view(values@),
    {
        Array { values }
    }
}

/// Well-formedness of a member list is element-wise.
pub proof fn lemma_wf_members_index(ms: Seq<MemberSpec>)
    requires
        wf_members(ms),
    ensures
        forall|i: int| 0 <= i < ms.len() ==> wf_value(#[trigger] ms[i].value),
    decreases ms,
{
    if ms.len() > 0 {
        lemma_wf_members_index(ms.drop_last());
        assert(forall|i: int| 0 <= i < ms.len() - 1 ==> ms.drop_last()[i] == ms[i]);
    }
}

/// Well-formedness of a value list is element-wise.
pub proof fn lemma_wf_values_index(vs: Seq<ValueSpec>)
    requires
        wf_values(vs),
    ensures
        forall|i: int| 0 <= i < vs.len() ==> wf_value(#[trigger] vs[i]),
    decreases vs,
{
    if vs.len() > 0 {
        lemma_wf_values_index(vs.drop_last());
        assert(forall|i: int| 0 <= i < vs.len() - 1 ==> vs.drop_last()[i] == vs[i]);
    }
}

/// Element-wise well-formedness assembles a member list's.
pub proof fn lemma_wf_members_build(ms: Seq<MemberSpec>)
    requires
        forall|i: int| 0 <= i < ms.len() ==> wf_value(#[trigger] ms[i].value),
    ensures
        wf_members(ms),
    decreases ms,
{
    if ms.len() > 0 {
        assert(forall|i: int| 0 <= i < ms.len() - 1 ==> ms.drop_last()[i] == ms[i]);
        lemma_wf_members_build(ms.drop_last());
    }
}

/// Element-wise well-formedness assembles a value list's.
pub proof fn lemma_wf_values_build(vs: Seq<ValueSpec>)
    requires
        forall|i: int| 0 <= i < vs.len() ==> wf_value(#[trigger] vs[i]),
    ensures
        wf_values(vs),
    decreases vs,
{
    if vs.len() > 0 {
        assert(forall|i: int| 0 <= i < vs.len() - 1 ==> vs.drop_last()[i] == vs[i]);
        lemma_wf_values_build(vs.drop_last());
    }
}

/// A view sequence is indexed element by element.
pub proof fn lemma_members_view(s: Seq<Member>)
    ensures
        members_view(s).len() == s.len(),
        forall|i: int| 0 <= i < s.len() ==> members_view(s)[i] == s[i]@,
    decreases s,
{
    if s.len() > 0 {
        lemma_members_view(s.drop_last());
    }
}

/// A view sequence is indexed element by element.
pub proof fn lemma_values_view(s: Seq<Value>)
    ensures
        values_view(s).len() == s.len(),
        forall|i: int| 0 <= i < s.len() ==> values_view(s)[i] == s[i]@,
    decreases s,
{
    if s.len() > 0 {
        lemma_values_view(s.drop_last());
    }
}

} // verus!
