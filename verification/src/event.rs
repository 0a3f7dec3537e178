//! The event that a formula is evaluated against.

use crate::decimal::decimal_of_text;
use crate::decimal::Decimal;
use crate::decimal::DecimalView;
use vstd::hash_map::StringHashMap;
use vstd::prelude::*;

verus! {

/// The value of a property: text, or a number.
#[derive(Debug, PartialEq)]
pub enum PropertyValue {
    String(String),
    Number(Decimal),
}

/// The mathematical content of a property value.
pub enum PropertyView {
    String(Seq<char>),
    Number(DecimalView),
}

impl View for PropertyValue {
    type V = PropertyView;

    open spec fn view(&self) -> PropertyView {
        match self {
            PropertyValue::String(s) => PropertyView::String(s@),
            PropertyValue::Number(d) => PropertyView::Number(d@),
        }
    }
}

impl Clone for PropertyValue {
    fn clone(&self) -> (r: Self)
        ensures
            r@ == self@,
    {
        match self {
            PropertyValue::String(s) => PropertyValue::String(s.clone()),
            PropertyValue::Number(d) => PropertyValue::Number(d.clone()),
        }
    }
}

impl Default for PropertyValue {
    fn default() -> (r: Self)
        ensures
            r@ == PropertyView::Number(DecimalView { unscaled: 0, scale: 0 }),
    {
        PropertyValue::Number(Decimal::from_i64(0))
    }
}

impl PropertyValue {
    /// A textual property.
    pub fn from_string(value: String) -> (r: Self)
        ensures
            r@ == PropertyView::String(value@),
    {
        PropertyValue::String(value)
    }

    /// A numeric property from the text of a number: `None` where the text
    /// is no decimal.
    pub fn from_number_text(text: &str) -> (r: Option<Self>)
        ensures
            match decimal_of_text(text@) {
                Some(d) => r is Some && r->Some_0@ == PropertyView::Number(d),
                None => r is None,
            },
    {
        match Decimal::parse(text) {
            Some(d) => Some(PropertyValue::Number(d)),
            None => None,
        }
    }

    /// A numeric property holding the integer `value`.
    pub fn from_u64(value: u64) -> (r: Self)
        ensures
            r@ == PropertyView::Number(DecimalView { unscaled: value as int, scale: 0 }),
    {
        PropertyValue::Number(Decimal::from_u64(value))
    }
}

/// A billing event: its code, its timestamp and its named properties.
pub struct Event {
    code: String,
    timestamp: Decimal,
    properties: StringHashMap<PropertyValue>,
}

/// The mathematical content of an event.
pub struct EventView {
    pub code: Seq<char>,
    pub timestamp: DecimalView,
    pub properties: Map<Seq<char>, PropertyView>,
}

impl View for Event {
    type V = EventView;

    closed spec fn view(&self) -> EventView {
        EventView {
            code: self.code@,
            timestamp: self.timestamp@,
            properties: Map::new(
                |name: Seq<char>| self.properties@.contains_key(name),
                |name: Seq<char>| self.properties@[name]@,
            ),
        }
    }
}

/// The timestamp that a value stands for: a number as it is, text as the
/// decimal it reads as.
pub open spec fn normalized_timestamp(value: PropertyView) -> Option<DecimalView> {
    match value {
        PropertyView::Number(d) => Some(d),
        PropertyView::String(s) => decimal_of_text(s),
    }
}

/// The views of a list of named values, in order.
pub open spec fn named_views(list: Seq<(String, PropertyValue)>) -> Seq<(Seq<char>, PropertyView)> {
    Seq::new(list.len(), |i: int| (list[i].0@, list[i].1@))
}

/// The properties that the first `n` named values make: of two values
/// under one name the later one stays.
pub open spec fn properties_from(list: Seq<(Seq<char>, PropertyView)>, n: nat) -> Map<
    Seq<char>,
    PropertyView,
>
    decreases n,
{
    if n == 0 || n > list.len() {
        Map::empty()
    } else {
        properties_from(list, (n - 1) as nat).insert(list[n - 1].0, list[n - 1].1)
    }
}

impl Default for Event {
    fn default() -> (r: Self)
        ensures
            r@ == Event::empty_view(),
    {
        let r = Event {
            code: String::new(),
            timestamp: Decimal::from_i64(0),
            properties: StringHashMap::new(),
        };
        assert(r@.properties =~= Map::empty());
        r
    }
}

impl Event {
    /// The event that `default` makes: no code, timestamp 0, no property.
    pub open spec fn empty_view() -> EventView {
        EventView {
            code: Seq::empty(),
            timestamp: DecimalView { unscaled: 0, scale: 0 },
            properties: Map::empty(),
        }
    }

    /// An event without properties.
    pub fn new(code: String, timestamp: Decimal) -> (r: Self)
        ensures
            r@ == (EventView { code: code@, timestamp: timestamp@, properties: Map::empty() }),
    {
        let r = Event { code, timestamp, properties: StringHashMap::new() };
        assert(r@.properties =~= Map::empty());
        r
    }

    /// An event from what a caller holds: the timestamp as a number or as
    /// text that reads as one, the properties as a list of named values.
    /// `None` where the timestamp is text that is no decimal.
    pub fn from_parts(
        code: String,
        timestamp: PropertyValue,
        properties: &Vec<(String, PropertyValue)>,
    ) -> (r: Option<Self>)
        ensures
            match normalized_timestamp(timestamp@) {
                None => r is None,
                Some(t) => r is Some && r->Some_0@ == (EventView {
                    code: code@,
                    timestamp: t,
                    properties: properties_from(
                        named_views(properties@),
                        properties.len() as nat,
                    ),
                }),
            },
    {
        let timestamp = match timestamp {
            PropertyValue::Number(d) => d,
            PropertyValue::String(s) => match Decimal::parse(s.as_str()) {
                Some(d) => d,
                None => { return None; },
            },
        };
        let mut event = Event::new(code, timestamp);
        let ghost list = named_views(properties@);
        let mut i: usize = 0;
        while i < properties.len()
            invariant
                i <= properties.len(),
                list == named_views(properties@),
                event@ == (EventView {
                    code: code@,
                    timestamp: timestamp@,
                    properties: properties_from(list, i as nat),
                }),
            decreases properties.len() - i,
        {
            let name = properties[i].0.clone();
            let value = properties[i].1.clone();
            event.set_property(name, value);
            i += 1;
        }
        Some(event)
    }

    /// The code of the event.
    pub fn code(&self) -> (r: &String)
        ensures
            r@ == self@.code,
    {
        &self.code
    }

    /// The timestamp of the event.
    pub fn timestamp(&self) -> (r: &Decimal)
        ensures
            r@ == self@.timestamp,
    {
        &self.timestamp
    }

    /// Sets the property `name`, replacing an earlier value of it.
    pub fn set_property(&mut self, name: String, value: PropertyValue)
        ensures
            final(self)@ == (EventView {
                properties: old(self)@.properties.insert(name@, value@),
                ..old(self)@
            }),
    {
        self.properties.insert(name, value);
        assert(self@.properties =~= old(self)@.properties.insert(name@, value@));
    }

    /// The property `name`, where the event has it.
    pub fn property(&self, name: &str) -> (r: Option<&PropertyValue>)
        ensures
            r is Some <==> self@.properties.contains_key(name@),
            r is Some ==> r->Some_0@ == self@.properties[name@],
    {
        self.properties.get(name)
    }
}

} // verus!
