//! JSON values as the proxy reads and writes them.

use crate::text::same_text;
use vstd::prelude::*;

verus! {

/// A JSON number.
#[derive(Debug, Clone, PartialEq, Eq)]
pub enum JsonNumber {
    /// A whole number from zero up.
    PosInt(u64),
    /// A whole number below zero.
    NegInt(i64),
    /// Any other number, as it is written.
    Float(String),
}

impl JsonNumber {
    /// The number, if it is a whole number from zero up.
    pub open spec fn unsigned(self) -> Option<u64> {
        match self {
            JsonNumber::PosInt(n) => Some(n),
            _ => None,
        }
    }

    /// The number, if it is a whole number that fits into 64 bits with a sign.
    pub open spec fn signed(self) -> Option<i64> {
        match self {
            JsonNumber::PosInt(n) => if n <= i64::MAX {
                Some(n as i64)
            } else {
                None
            },
            JsonNumber::NegInt(n) => Some(n),
            JsonNumber::Float(_) => None,
        }
    }

    /// The 64 bits of the number: its value modulo two to the power of 64, or
    /// zero for a number that is not whole.
    pub open spec fn bits(self) -> u64 {
        match self {
            JsonNumber::PosInt(n) => n,
            JsonNumber::NegInt(n) => (n as int % 0x1_0000_0000_0000_0000) as u64,
            JsonNumber::Float(_) => 0,
        }
    }

    /// The number, if it is a whole number from zero up.
    pub fn as_u64(&self) -> (number: Option<u64>)
        ensures
            number == self.unsigned(),
    {
        match self {
            JsonNumber::PosInt(n) => Some(*n),
            _ => None,
        }
    }

    /// The number, if it is a whole number that fits into 64 bits with a sign.
    pub fn as_i64(&self) -> (number: Option<i64>)
        ensures
            number == self.signed(),
    {
        match self {
            JsonNumber::PosInt(n) => if *n <= i64::MAX as u64 {
                Some(*n as i64)
            } else {
                None
            },
            JsonNumber::NegInt(n) => Some(*n),
            JsonNumber::Float(_) => None,
        }
    }

    /// The 64 bits of the number.
    pub fn to_bits(&self) -> (bits: u64)
        ensures
            bits == self.bits(),
    {
        match self {
            JsonNumber::PosInt(n) => *n,
            JsonNumber::NegInt(n) => {
                let wide: i128 = *n as i128;
                if wide < 0 {
                    (wide + 0x1_0000_0000_0000_0000) as u64
                } else {
                    wide as u64
                }
            },
            JsonNumber::Float(_) => 0,
        }
    }
}

/// A JSON value.
#[derive(Debug, PartialEq, Eq)]
pub enum JsonValue {
    /// `null`
    Null,
    /// `true` or `false`
    Bool(bool),
    /// A number
    Number(JsonNumber),
    /// A string
    String(String),
    /// A list of values
    Array(Vec<JsonValue>),
    /// Values by name
    Object(JsonMap),
}

impl JsonValue {
    /// The value, if it is a whole number from zero up.
    pub open spec fn unsigned(self) -> Option<u64> {
        match self {
            JsonValue::Number(n) => n.unsigned(),
            _ => None,
        }
    }

    /// The value, if it is a whole number from zero up.
    pub fn as_u64(&self) -> (number: Option<u64>)
        ensures
            number == self.unsigned(),
    {
        match self {
            JsonValue::Number(n) => n.as_u64(),
            _ => None,
        }
    }
}

/// No name stands in two entries.
pub open spec fn names_unique<V>(entries: Seq<(Seq<char>, V)>) -> bool {
    forall|i: int, j: int|
        0 <= i < j < entries.len() ==> (#[trigger] entries[i]).0 != (#[trigger] entries[j]).0
}

/// The value of the first entry with a name.
pub open spec fn lookup<V>(entries: Seq<(Seq<char>, V)>, name: Seq<char>) -> Option<V>
    decreases entries.len(),
{
    if entries.len() == 0 {
        None
    } else if entries[0].0 == name {
        Some(entries[0].1)
    } else {
        lookup(entries.skip(1), name)
    }
}

/// `entries` with a value set for a name: in place where the name is there
/// already, at the end otherwise.
pub open spec fn with_entry<V>(
    entries: Seq<(Seq<char>, V)>,
    name: Seq<char>,
    value: V,
) -> Seq<(Seq<char>, V)>
    decreases entries.len(),
{
    if entries.len() == 0 {
        seq![(name, value)]
    } else if entries[0].0 == name {
        seq![(name, value)] + entries.skip(1)
    } else {
        seq![entries[0]] + with_entry(entries.skip(1), name, value)
    }
}

/// Values by name, in the order in which the names came in. A name occurs
/// once.
#[derive(Debug, PartialEq, Eq)]
pub struct JsonMap {
    entries: Vec<(String, JsonValue)>,
}

impl View for JsonMap {
    type V = Seq<(Seq<char>, JsonValue)>;

    closed spec fn view(&self) -> Seq<(Seq<char>, JsonValue)> {
        self.entries@.map_values(|e: (String, JsonValue)| (e.0@, e.1))
    }
}

impl JsonMap {
    #[verifier::type_invariant]
    closed spec fn unique(self) -> bool {
        names_unique(self@)
    }

    /// A map without entries.
    pub fn new() -> (map: Self)
        ensures
            map@ == Seq::<(Seq<char>, JsonValue)>::empty(),
    {
        let entries: Vec<(String, JsonValue)> = Vec::new();
        let map = JsonMap { entries };
        assert(map@ =~= Seq::<(Seq<char>, JsonValue)>::empty());
        map
    }

    /// The number of entries.
    pub fn len(&self) -> (count: usize)
        ensures
            count == self@.len(),
    {
        self.entries.len()
    }

    /// The name of an entry.
    pub fn name_at(&self, index: usize) -> (name: &str)
        requires
            index < self@.len(),
        ensures
            name@ == self@[index as int].0,
    {
        self.entries[index].0.as_str()
    }

    /// The value of an entry.
    pub fn value_at(&self, index: usize) -> (value: &JsonValue)
        requires
            index < self@.len(),
        ensures
            *value == self@[index as int].1,
    {
        &self.entries[index].1
    }

    /// The value for a name.
    pub fn get(&self, name: &str) -> (value: Option<&JsonValue>)
        ensures
            match value {
                Some(v) => lookup(self@, name@) == Some(*v),
                None => lookup(self@, name@) is None,
            },
    {
        let mut i: usize = 0;
        assert(self@.skip(0) =~= self@);
        while i < self.entries.len()
            invariant
                i <= self.entries@.len(),
                lookup(self@, name@) == lookup(self@.skip(i as int), name@),
            decreases self.entries@.len() - i,
        {
            assert(self@.skip(i as int).skip(1) =~= self@.skip(i + 1));
            if same_text(self.entries[i].0.as_str(), name) {
                return Some(&self.entries[i].1);
            }
            i = i + 1;
        }
        None
    }

    /// Sets the value for a name.
    pub fn insert(&mut self, name: String, value: JsonValue)
        ensures
            final(self)@ == with_entry(old(self)@, name@, value),
    {
        proof {
            use_type_invariant(&*self);
        }
        let ghost before = self@;
        let mut entries: Vec<(String, JsonValue)> = Vec::new();
        std::mem::swap(&mut entries, &mut self.entries);
        let mut i: usize = 0;
        while i < entries.len() && !same_text(entries[i].0.as_str(), name.as_str())
            invariant
                i <= entries@.len(),
                before == entries@.map_values(|e: (String, JsonValue)| (e.0@, e.1)),
                forall|j: int| 0 <= j < i ==> (#[trigger] before[j]).0 != name@,
            decreases entries@.len() - i,
        {
            assert(before[i as int].0 == entries@[i as int].0@);
            i = i + 1;
        }
        proof {
            lemma_with_entry(before, name@, value, i as int);
            lemma_with_entry_unique(before, name@, value);
        }
        if i < entries.len() {
            entries.set(i, (name, value));
        } else {
            entries.push((name, value));
        }
        proof {
            assert(entries@.map_values(|e: (String, JsonValue)| (e.0@, e.1)) =~= with_entry(
                before,
                name@,
                value,
            ));
        }
        *self = JsonMap { entries };
    }
}

/// Where a new value goes.
proof fn lemma_with_entry<V>(
    entries: Seq<(Seq<char>, V)>,
    name: Seq<char>,
    value: V,
    index: int,
)
    requires
        0 <= index <= entries.len(),
        forall|j: int| 0 <= j < index ==> (#[trigger] entries[j]).0 != name,
        index < entries.len() ==> entries[index].0 == name,
    ensures
        with_entry(entries, name, value) == (if index < entries.len() {
            entries.update(index, (name, value))
        } else {
            entries.push((name, value))
        }),
    decreases entries.len(),
{
    if entries.len() == 0 {
        assert(with_entry(entries, name, value) =~= entries.push((name, value)));
    } else if index == 0 {
        assert(with_entry(entries, name, value) =~= entries.update(index, (name, value)));
    } else {
        let rest = entries.skip(1);
        assert forall|j: int| 0 <= j < index - 1 implies (#[trigger] rest[j]).0 != name by {
            assert(entries[j + 1].0 != name);
        }
        lemma_with_entry(rest, name, value, index - 1);
        if index < entries.len() {
            assert(with_entry(entries, name, value) =~= entries.update(index, (name, value)));
        } else {
            assert(with_entry(entries, name, value) =~= entries.push((name, value)));
        }
    }
}

proof fn lemma_first_with_name<V>(
    entries: Seq<(Seq<char>, V)>,
    name: Seq<char>,
) -> (index: int)
    ensures
        0 <= index <= entries.len(),
        forall|j: int| 0 <= j < index ==> (#[trigger] entries[j]).0 != name,
        index < entries.len() ==> entries[index].0 == name,
    decreases entries.len(),
{
    if entries.len() == 0 || entries[0].0 == name {
        0
    } else {
        let rest = entries.skip(1);
        let index = lemma_first_with_name(rest, name);
        assert forall|j: int| 0 <= j < index + 1 implies (#[trigger] entries[j]).0 != name by {
            if j > 0 {
                assert(rest[j - 1].0 != name);
            }
        }
        index + 1
    }
}

proof fn lemma_lookup_at<V>(entries: Seq<(Seq<char>, V)>, name: Seq<char>, index: int)
    requires
        0 <= index <= entries.len(),
        forall|j: int| 0 <= j < index ==> (#[trigger] entries[j]).0 != name,
        index < entries.len() ==> entries[index].0 == name,
    ensures
        lookup(entries, name) == (if index < entries.len() {
            Some(entries[index].1)
        } else {
            None
        }),
    decreases entries.len(),
{
    if entries.len() > 0 && index > 0 {
        let rest = entries.skip(1);
        assert forall|j: int| 0 <= j < index - 1 implies (#[trigger] rest[j]).0 != name by {
            assert(entries[j + 1].0 != name);
        }
        lemma_lookup_at(rest, name, index - 1);
    }
}

/// Setting a value leaves every name unique.
pub proof fn lemma_with_entry_unique<V>(
    entries: Seq<(Seq<char>, V)>,
    name: Seq<char>,
    value: V,
)
    requires
        names_unique(entries),
    ensures
        names_unique(with_entry(entries, name, value)),
{
    let index = lemma_first_with_name(entries, name);
    lemma_with_entry(entries, name, value, index);
}

/// After a value is set for a name, that name has this value and every other
/// name has the value it had before.
pub proof fn lemma_lookup_with_entry<V>(
    entries: Seq<(Seq<char>, V)>,
    name: Seq<char>,
    value: V,
    other: Seq<char>,
)
    ensures
        lookup(with_entry(entries, name, value), name) == Some(value),
        other != name ==> lookup(with_entry(entries, name, value), other) == lookup(entries, other),
{
    let index = lemma_first_with_name(entries, name);
    lemma_with_entry(entries, name, value, index);
    let after = with_entry(entries, name, value);
    assert forall|j: int| 0 <= j < index implies (#[trigger] after[j]).0 != name by {
        assert(entries[j].0 != name);
    }
    lemma_lookup_at(after, name, index);
    if other != name {
        let place = lemma_first_with_name(entries, other);
        lemma_lookup_at(entries, other, place);
        let found = if place == entries.len() && index == entries.len() {
            place + 1
        } else {
            place
        };
        assert forall|j: int| 0 <= j < found implies (#[trigger] after[j]).0 != other by {
            if j < entries.len() {
                assert(entries[j].0 != other || j == index);
            }
        }
        lemma_lookup_at(after, other, found);
    }
}

/// In a map every entry is found under its name.
pub proof fn lemma_lookup_finds_entry<V>(entries: Seq<(Seq<char>, V)>, index: int)
    requires
        names_unique(entries),
        0 <= index < entries.len(),
    ensures
        lookup(entries, entries[index].0) == Some(entries[index].1),
{
    lemma_lookup_at(entries, entries[index].0, index);
}

/// The bits of a whole number differ from it by a multiple of two to the power
/// of 64, so from zero up they are the number itself. A number that is not whole
/// has none set.
pub proof fn law_number_bits(n: u64, m: i64, text: String)
    ensures
        JsonNumber::PosInt(n).bits() == n,
        m < 0 ==> JsonNumber::NegInt(m).bits() == m + 0x1_0000_0000_0000_0000,
        JsonNumber::Float(text).bits() == 0,
{
}

/// A number is unsigned exactly if it is a whole number from zero up, and
/// signed if it is whole and fits.
pub proof fn law_whole_numbers(n: u64, m: i64, text: String)
    ensures
        JsonNumber::PosInt(n).unsigned() == Some(n),
        JsonNumber::NegInt(m).unsigned() is None,
        JsonNumber::Float(text).unsigned() is None,
        n <= 0x7FFF_FFFF_FFFF_FFFF ==> (JsonNumber::PosInt(n).signed() matches Some(k) && k == n),
        n > 0x7FFF_FFFF_FFFF_FFFF ==> JsonNumber::PosInt(n).signed() is None,
        JsonNumber::NegInt(m).signed() == Some(m),
        JsonNumber::Float(text).signed() is None,
{
}

/// Only numbers are whole numbers: a string, a boolean, a list, an object and
/// `null` are none, whatever they hold.
pub proof fn law_only_numbers_are_unsigned(value: JsonValue, n: JsonNumber)
    ensures
        !(value is Number) ==> value.unsigned() is None,
        JsonValue::Number(n).unsigned() == n.unsigned(),
{
}

/// A name is found exactly if an entry has it, and the first such entry counts.
pub proof fn law_lookup<V>(front: Seq<(Seq<char>, V)>, name: Seq<char>, value: V, back: Seq<
    (Seq<char>, V),
>)
    requires
        forall|i: int| 0 <= i < front.len() ==> (#[trigger] front[i]).0 != name,
    ensures
        lookup(front, name) is None,
        lookup(front + seq![(name, value)] + back, name) == Some(value),
{
    lemma_lookup_at(front, name, front.len() as int);
    let all = front + seq![(name, value)] + back;
    assert forall|i: int| 0 <= i < front.len() implies (#[trigger] all[i]).0 != name by {
        assert(all[i] == front[i]);
    }
    assert(all[front.len() as int] == (name, value));
    lemma_lookup_at(all, name, front.len() as int);
}

/// Setting a value for a new name appends it. For a name that is there, nothing
/// but its value changes, in its place.
pub proof fn law_set_value<V>(
    front: Seq<(Seq<char>, V)>,
    name: Seq<char>,
    old_value: V,
    value: V,
    back: Seq<(Seq<char>, V)>,
)
    requires
        forall|i: int| 0 <= i < front.len() ==> (#[trigger] front[i]).0 != name,
    ensures
        with_entry(front, name, value) == front.push((name, value)),
        with_entry(front + seq![(name, old_value)] + back, name, value) == front + seq![
            (name, value),
        ] + back,
{
    lemma_with_entry(front, name, value, front.len() as int);
    let all = front + seq![(name, old_value)] + back;
    assert forall|i: int| 0 <= i < front.len() implies (#[trigger] all[i]).0 != name by {
        assert(all[i] == front[i]);
    }
    assert(all[front.len() as int] == (name, old_value));
    lemma_with_entry(all, name, value, front.len() as int);
    assert(all.update(front.len() as int, (name, value)) =~= front + seq![(name, value)] + back);
}

} // verus!
