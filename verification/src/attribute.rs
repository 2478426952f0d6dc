//! Attribute values: the primitive values an element attribute can hold, and
//! their two textual projections.

use crate::text::{
    boolean_string, boolean_text, decimal, decimal_string, joined, lemma_joined_push, same_text,
};
use vstd::prelude::*;
use vstd::std_specs::convert::FromSpecImpl;
use vstd::string::*;

verus! {

/// A value attached to an element under an attribute name.
#[derive(Debug)]
pub enum NodeAttributeValue {
    String(String),
    Number(i32),
    Boolean(bool),
}

/// The mathematical model of a [`NodeAttributeValue`].
pub enum SpecAttributeValue {
    String(Seq<char>),
    Number(int),
    Boolean(bool),
}

impl SpecAttributeValue {
    /// The plain projection: a string as it is, a number as its decimal
    /// numeral, a truth value as `true` or `false`.
    pub open spec fn text(self) -> Seq<char> {
        match self {
            SpecAttributeValue::String(s) => s,
            SpecAttributeValue::Number(n) => decimal(n),
            SpecAttributeValue::Boolean(b) => boolean_text(b),
        }
    }

    /// The markup projection: a string between double quotes, its content
    /// unescaped; a number or a truth value as in [`Self::text`].
    pub open spec fn display(self) -> Seq<char> {
        match self {
            SpecAttributeValue::String(s) => "\""@ + s + "\""@,
            SpecAttributeValue::Number(n) => decimal(n),
            SpecAttributeValue::Boolean(b) => boolean_text(b),
        }
    }
}

impl View for NodeAttributeValue {
    type V = SpecAttributeValue;

    open spec fn view(&self) -> SpecAttributeValue {
        match self {
            NodeAttributeValue::String(s) => SpecAttributeValue::String(s@),
            NodeAttributeValue::Number(n) => SpecAttributeValue::Number(*n as int),
            NodeAttributeValue::Boolean(b) => SpecAttributeValue::Boolean(*b),
        }
    }
}

/// The signed number with the same 32 bits as `x`: `x` itself up to
/// `i32::MAX`, and `x - 2^32` above it.
pub open spec fn reinterpreted(x: u32) -> int {
    if x <= i32::MAX {
        x as int
    } else {
        x - 0x1_0000_0000
    }
}

impl NodeAttributeValue {
    /// The value as plain text, for a consumer that quotes or escapes by
    /// itself.
    pub fn as_text(&self) -> (out: String)
        ensures
            out@ == self@.text(),
    {
        match self {
            NodeAttributeValue::String(x) => x.clone(),
            NodeAttributeValue::Number(x) => decimal_string(*x),
            NodeAttributeValue::Boolean(x) => boolean_string(*x),
        }
    }

    /// The value as it stands behind `name=` in an opening tag. Quotes inside
    /// a string are not escaped.
    pub fn to_display_string(&self) -> (out: String)
        ensures
            out@ == self@.display(),
    {
        match self {
            NodeAttributeValue::String(x) => {
                let mut out = String::from_str("\"");
                out.append(x.as_str());
                out.append("\"");
                out
            },
            NodeAttributeValue::Number(x) => decimal_string(*x),
            NodeAttributeValue::Boolean(x) => boolean_string(*x),
        }
    }
}

/// An owned string becomes a string value.
impl From<String> for NodeAttributeValue {
    fn from(x: String) -> (value: Self) {
        NodeAttributeValue::String(x)
    }
}

impl FromSpecImpl<String> for NodeAttributeValue {
    open spec fn obeys_from_spec() -> bool {
        true
    }

    open spec fn from_spec(x: String) -> Self {
        NodeAttributeValue::String(x)
    }
}

/// A string slice becomes a string value with the same text.
impl<'a> From<&'a str> for NodeAttributeValue {
    fn from(x: &'a str) -> (value: Self)
        ensures
            value@ == SpecAttributeValue::String(x@),
    {
        NodeAttributeValue::String(String::from_str(x))
    }
}

/// To the verifier two strings with the same text need not be the same
/// value, so this conversion is specified by its view, on `from` itself.
impl<'a> FromSpecImpl<&'a str> for NodeAttributeValue {
    open spec fn obeys_from_spec() -> bool {
        false
    }

    open spec fn from_spec(x: &'a str) -> Self {
        choose|value: NodeAttributeValue| value@ == SpecAttributeValue::String(x@)
    }
}

/// A signed number becomes a number value.
impl From<i32> for NodeAttributeValue {
    fn from(x: i32) -> (value: Self) {
        NodeAttributeValue::Number(x)
    }
}

impl FromSpecImpl<i32> for NodeAttributeValue {
    open spec fn obeys_from_spec() -> bool {
        true
    }

    open spec fn from_spec(x: i32) -> Self {
        NodeAttributeValue::Number(x)
    }
}

/// An unsigned number becomes the number value with the same 32 bits: above
/// `i32::MAX` it wraps to a negative number, and `u32::MAX` becomes `-1`.
impl From<u32> for NodeAttributeValue {
    fn from(x: u32) -> (value: Self) {
        assert(x as i32 == reinterpreted(x)) by (bit_vector);
        NodeAttributeValue::Number(x as i32)
    }
}

impl FromSpecImpl<u32> for NodeAttributeValue {
    open spec fn obeys_from_spec() -> bool {
        true
    }

    open spec fn from_spec(x: u32) -> Self {
        NodeAttributeValue::Number(reinterpreted(x) as i32)
    }
}

/// A truth value becomes a boolean value.
impl From<bool> for NodeAttributeValue {
    fn from(x: bool) -> (value: Self) {
        NodeAttributeValue::Boolean(x)
    }
}

impl FromSpecImpl<bool> for NodeAttributeValue {
    open spec fn obeys_from_spec() -> bool {
        true
    }

    open spec fn from_spec(x: bool) -> Self {
        NodeAttributeValue::Boolean(x)
    }
}

/// The mathematical model of one entry of an [`AttributeMap`].
pub struct SpecAttribute {
    pub name: Seq<char>,
    pub value: SpecAttributeValue,
}

impl SpecAttribute {
    /// The entry as it stands in an opening tag: `name=value`.
    pub open spec fn markup(self) -> Seq<char> {
        self.name + "="@ + self.value.display()
    }
}

/// No name occurs twice.
pub open spec fn distinct_names(attributes: Seq<SpecAttribute>) -> bool {
    forall|i: int, j: int|
        0 <= i < j < attributes.len() ==> (#[trigger] attributes[i]).name != (
        #[trigger] attributes[j]).name
}

/// Some entry has this name.
pub open spec fn has_name(attributes: Seq<SpecAttribute>, name: Seq<char>) -> bool {
    exists|i: int| 0 <= i < attributes.len() && (#[trigger] attributes[i]).name == name
}

/// The position of an entry with this name, where there is one.
pub open spec fn position_of(attributes: Seq<SpecAttribute>, name: Seq<char>) -> int {
    choose|i: int| 0 <= i < attributes.len() && (#[trigger] attributes[i]).name == name
}

/// The entries after `name` is set to `value`: an entry of that name keeps
/// its place and takes the new value, a new name goes to the end.
pub open spec fn with_entry(
    attributes: Seq<SpecAttribute>,
    name: Seq<char>,
    value: SpecAttributeValue,
) -> Seq<SpecAttribute> {
    if has_name(attributes, name) {
        attributes.update(position_of(attributes, name), SpecAttribute { name, value })
    } else {
        attributes.push(SpecAttribute { name, value })
    }
}

/// The attribute part of an opening tag: nothing for no entry, else each
/// entry with one space in front of it.
pub open spec fn attributes_markup(attributes: Seq<SpecAttribute>) -> Seq<char> {
    if attributes.len() == 0 {
        Seq::empty()
    } else {
        " "@ + joined(attributes.map_values(|a: SpecAttribute| a.markup()), " "@)
    }
}

/// Setting an attribute keeps the names distinct.
pub proof fn lemma_with_entry_distinct(
    attributes: Seq<SpecAttribute>,
    name: Seq<char>,
    value: SpecAttributeValue,
)
    requires
        distinct_names(attributes),
    ensures
        distinct_names(with_entry(attributes, name, value)),
{
}

/// One more entry adds a space and the entry to the attribute part.
pub proof fn lemma_attributes_markup_push(attributes: Seq<SpecAttribute>, last: SpecAttribute)
    ensures
        attributes_markup(attributes.push(last)) == attributes_markup(attributes) + " "@
            + last.markup(),
{
    let each = |a: SpecAttribute| a.markup();
    assert(attributes.push(last).map_values(each) == attributes.map_values(each).push(
        last.markup(),
    ));
    if attributes.len() > 0 {
        lemma_joined_push(attributes.map_values(each), " "@, last.markup());
        assert(" "@ + (joined(attributes.map_values(each), " "@) + " "@ + last.markup())
            == attributes_markup(attributes) + " "@ + last.markup());
    } else {
        assert(Seq::<char>::empty() + " "@ + last.markup() == " "@ + last.markup());
    }
}

/// The attributes of an element: values under names, each name at most once,
/// kept in the order in which the names were first set.
pub struct AttributeMap {
    entries: Vec<(&'static str, NodeAttributeValue)>,
}

impl View for AttributeMap {
    type V = Seq<SpecAttribute>;

    closed spec fn view(&self) -> Seq<SpecAttribute> {
        self.entries@.map_values(
            |e: (&'static str, NodeAttributeValue)| SpecAttribute { name: e.0@, value: e.1@ },
        )
    }
}

impl AttributeMap {
    /// The invariant of the type: no name occurs twice.
    #[verifier::type_invariant]
    pub open spec fn names_are_distinct(&self) -> bool {
        distinct_names(self@)
    }

    /// A map without entries.
    pub fn new() -> (map: Self)
        ensures
            map@ == Seq::<SpecAttribute>::empty(),
    {
        AttributeMap { entries: Vec::new() }
    }

    /// The number of entries.
    pub fn len(&self) -> (n: usize)
        ensures
            n == self@.len(),
    {
        self.entries.len()
    }

    /// The entries in order, each name with its value.
    pub fn entries(&self) -> (entries: &Vec<(&'static str, NodeAttributeValue)>)
        ensures
            entries@.len() == self@.len(),
            forall|i: int|
                0 <= i < entries@.len() ==> entries@[i].0@ == (#[trigger] self@[i]).name
                    && entries@[i].1@ == self@[i].value,
            distinct_names(self@),
    {
        proof {
            use_type_invariant(self);
        }
        &self.entries
    }

    /// Sets `name` to `value`.
    pub fn insert(&mut self, name: &'static str, value: NodeAttributeValue)
        ensures
            final(self)@ == with_entry(old(self)@, name@, value@),
            distinct_names(final(self)@),
    {
        proof {
            use_type_invariant(&*self);
            lemma_with_entry_distinct(self@, name@, value@);
        }
        let mut entries = Vec::new();
        core::mem::swap(&mut self.entries, &mut entries);
        let mut i: usize = 0;
        let mut found = false;
        while i < entries.len() && !found
            invariant
                i <= entries.len(),
                entries == old(self).entries,
                found ==> i < entries.len() && entries[i as int].0@ == name@,
                forall|k: int| 0 <= k < i ==> (#[trigger] old(self)@[k]).name != name@,
            decreases entries.len() - i, if found { 0int } else { 1int },
        {
            if same_text(entries[i].0, name) {
                found = true;
            } else {
                i += 1;
            }
        }
        if found {
            assert(old(self)@[i as int].name == name@);
            assert(position_of(old(self)@, name@) == i);
            entries.set(i, (name, value));
        } else {
            entries.push((name, value));
        }
        assert(entries@.map_values(
            |e: (&'static str, NodeAttributeValue)| SpecAttribute { name: e.0@, value: e.1@ },
        ) == with_entry(old(self)@, name@, value@));
        self.entries = entries;
    }

    /// The attribute part of an opening tag.
    pub fn to_html(&self) -> (out: String)
        ensures
            out@ == attributes_markup(self@),
    {
        let mut out = String::new();
        let mut i: usize = 0;
        assert(self@.take(0) == Seq::<SpecAttribute>::empty());
        while i < self.entries.len()
            invariant
                i <= self.entries.len(),
                out@ == attributes_markup(self@.take(i as int)),
            decreases self.entries.len() - i,
        {
            proof {
                lemma_attributes_markup_push(self@.take(i as int), self@[i as int]);
                assert(self@.take(i as int).push(self@[i as int]) == self@.take(i + 1));
            }
            let value = self.entries[i].1.to_display_string();
            out.append(" ");
            out.append(self.entries[i].0);
            out.append("=");
            out.append(value.as_str());
            i += 1;
        }
        assert(self@.take(self@.len() as int) == self@);
        out
    }
}

} // verus!
