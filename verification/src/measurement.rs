//! The measurement data model: a key, an optional timestamp, and tags and
//! fields kept in ascending key order.

use crate::entries::{as_map, ascending, keyed, lemma_put_map, put, put_entry};
use vstd::prelude::*;

verus! {

/// Measurement's field value.
#[derive(Debug)]
pub enum Value<'a> {
    /// String.
    String(&'a str),
    /// Floating point number, held as its decimal text.
    Float(String),
    /// Integer number.
    Integer(i64),
    /// Boolean value.
    Boolean(bool),
}

/// What a `Value` stands for.
pub enum ValueView {
    String(Seq<char>),
    Float(Seq<char>),
    Integer(i64),
    Boolean(bool),
}

impl<'a> View for Value<'a> {
    type V = ValueView;

    open spec fn view(&self) -> ValueView {
        match *self {
            Value::String(s) => ValueView::String(s@),
            Value::Float(s) => ValueView::Float(s@),
            Value::Integer(i) => ValueView::Integer(i),
            Value::Boolean(b) => ValueView::Boolean(b),
        }
    }
}

/// What a `Measurement` stands for: its key, its timestamp, and its tags and
/// fields as entries in ascending key order.
pub struct MeasurementView {
    pub key: Seq<char>,
    pub timestamp: Option<i64>,
    pub tags: Seq<(Seq<char>, Seq<char>)>,
    pub fields: Seq<(Seq<char>, ValueView)>,
}

impl MeasurementView {
    /// Tags and fields are each in strictly ascending key order.
    pub open spec fn wf(self) -> bool {
        ascending(self.tags) && ascending(self.fields)
    }

    /// The tags as a mapping from key to value.
    pub open spec fn tag_map(self) -> Map<Seq<char>, Seq<char>> {
        as_map(self.tags)
    }

    /// The fields as a mapping from key to value.
    pub open spec fn field_map(self) -> Map<Seq<char>, ValueView> {
        as_map(self.fields)
    }
}

/// Measurement model.
#[derive(Debug)]
pub struct Measurement<'a> {
    key: &'a str,
    timestamp: Option<i64>,
    fields: Vec<(String, Value<'a>)>,
    tags: Vec<(String, String)>,
}

impl<'a> View for Measurement<'a> {
    type V = MeasurementView;

    closed spec fn view(&self) -> MeasurementView {
        MeasurementView {
            key: self.key@,
            timestamp: self.timestamp,
            tags: keyed(self.tags@),
            fields: keyed(self.fields@),
        }
    }
}

impl<'a> Measurement<'a> {
    #[verifier::type_invariant]
    spec fn well_formed(self) -> bool {
        ascending(keyed(self.tags@)) && ascending(keyed(self.fields@))
    }

    /// Constructs a new `Measurement` with the given key, no timestamp, no
    /// tags and no fields.
    pub fn new(key: &'a str) -> (r: Measurement<'a>)
        ensures
            r@ == (MeasurementView {
                key: key@,
                timestamp: None,
                tags: Seq::empty(),
                fields: Seq::empty(),
            }),
            r@.wf(),
    {
        let r = Measurement { key: key, timestamp: None, fields: Vec::new(), tags: Vec::new() };
        assert(keyed(r.tags@) =~= Seq::empty());
        assert(keyed(r.fields@) =~= Seq::empty());
        r
    }

    /// Adds a field to the measurement. A field that already has this key is
    /// replaced.
    pub fn add_field(&mut self, field: &str, value: Value<'a>)
        ensures
            final(self)@ == (MeasurementView {
                fields: put(old(self)@.fields, field@, value@),
                ..old(self)@
            }),
            final(self)@.field_map() == old(self)@.field_map().insert(field@, value@),
            final(self)@.wf(),
    {
        proof {
            use_type_invariant(&*self);
            lemma_put_map(keyed(self.fields@), field@, value@);
        }
        let mut fields: Vec<(String, Value<'a>)> = Vec::new();
        core::mem::swap(&mut self.fields, &mut fields);
        put_entry(&mut fields, field.to_owned(), value);
        self.fields = fields;
    }

    /// Adds a tag to the measurement. A tag that already has this key is
    /// replaced.
    pub fn add_tag(&mut self, tag: &str, value: &str)
        ensures
            final(self)@ == (MeasurementView {
                tags: put(old(self)@.tags, tag@, value@),
                ..old(self)@
            }),
            final(self)@.tag_map() == old(self)@.tag_map().insert(tag@, value@),
            final(self)@.wf(),
    {
        proof {
            use_type_invariant(&*self);
            lemma_put_map(keyed(self.tags@), tag@, value@);
        }
        let mut tags: Vec<(String, String)> = Vec::new();
        core::mem::swap(&mut self.tags, &mut tags);
        put_entry(&mut tags, tag.to_owned(), value.to_owned());
        self.tags = tags;
    }

    /// Sets the timestamp of the measurement, by convention in nanoseconds
    /// since the epoch.
    pub fn set_timestamp(&mut self, timestamp: i64)
        ensures
            final(self)@ == (MeasurementView { timestamp: Some(timestamp), ..old(self)@ }),
            final(self)@.wf(),
    {
        proof {
            use_type_invariant(&*self);
        }
        self.timestamp = Some(timestamp);
    }

    /// The key of the measurement.
    pub fn key(&self) -> (r: &'a str)
        ensures
            r@ == self@.key,
    {
        self.key
    }

    /// The timestamp, if one was set.
    pub fn timestamp(&self) -> (r: Option<i64>)
        ensures
            r == self@.timestamp,
    {
        self.timestamp
    }

    /// The tags in ascending key order.
    pub fn tags(&self) -> (r: &Vec<(String, String)>)
        ensures
            keyed(r@) == self@.tags,
            ascending(self@.tags),
    {
        proof {
            use_type_invariant(self);
        }
        &self.tags
    }

    /// The fields in ascending key order.
    pub fn fields(&self) -> (r: &Vec<(String, Value<'a>)>)
        ensures
            keyed(r@) == self@.fields,
            ascending(self@.fields),
    {
        proof {
            use_type_invariant(self);
        }
        &self.fields
    }
}

} // verus!
