//! The line protocol: one measurement becomes one line of text.

use crate::entries::{keyed, lemma_ascending_unique, lemma_put_commutes, put};
use crate::measurement::{Measurement, MeasurementView, Value, ValueView};
use crate::serializer::Serializer;
use crate::text::{decimal, joined, push_decimal};
use vstd::prelude::*;
use vstd::string::StringExecFns;
use vstd::std_specs::iter::IteratorSpec;

verus! {

broadcast use vstd::string::group_string_axioms;

/// Line protocol `Measurement` serializer.
pub struct LineSerializer;

/// The suffix that marks a field value as an integer.
pub const INTEGER_SUFFIX: char = 'i';

/// What stands for one character of a key or a tag value: a space or a
/// comma gets a backslash in front, anything else stays as it is.
pub open spec fn escaped_char(c: char) -> Seq<char> {
    if c == ' ' || c == ',' {
        seq!['\\', c]
    } else {
        seq![c]
    }
}

/// A key or tag value with each of its characters escaped.
pub open spec fn escaped(s: Seq<char>) -> Seq<char>
    decreases s.len(),
{
    if s.len() == 0 {
        Seq::empty()
    } else {
        escaped_char(s[0]) + escaped(s.drop_first())
    }
}

/// An escaped text read back: a backslash before a space or a comma is
/// dropped, anything else stays as it is.
pub open spec fn unescaped(s: Seq<char>) -> Seq<char>
    decreases s.len(),
{
    if s.len() == 0 {
        Seq::empty()
    } else if s.len() >= 2 && s[0] == '\\' && (s[1] == ' ' || s[1] == ',') {
        seq![s[1]] + unescaped(s.skip(2))
    } else {
        seq![s[0]] + unescaped(s.drop_first())
    }
}

/// In an escaped text every space and every comma has a backslash in front
/// of it.
pub proof fn lemma_escaped_guards(s: Seq<char>, i: int)
    requires
        0 <= i < escaped(s).len(),
        escaped(s)[i] == ' ' || escaped(s)[i] == ',',
    ensures
        i > 0,
        escaped(s)[i - 1] == '\\',
    decreases s.len(),
{
    let head = escaped_char(s[0]);
    let tail = escaped(s.drop_first());
    assert(escaped(s) =~= head + tail);
    if i >= head.len() {
        assert(escaped(s)[i] == tail[i - head.len()]);
        lemma_escaped_guards(s.drop_first(), i - head.len());
        if i - head.len() - 1 >= 0 {
            assert(escaped(s)[i - 1] == tail[i - head.len() - 1]);
        }
    }
}

/// Escaping loses nothing: reading an escaped text back gives the text that
/// was escaped.
pub proof fn lemma_escape_round_trip(s: Seq<char>)
    ensures
        unescaped(escaped(s)) == s,
    decreases s.len(),
{
    if s.len() == 0 {
        assert(unescaped(escaped(s)) =~= s);
    } else {
        let c = s[0];
        let rest = s.drop_first();
        let tail = escaped(rest);
        lemma_escape_round_trip(rest);
        assert(s =~= seq![c] + rest);
        if c == ' ' || c == ',' {
            assert(escaped(s) =~= seq!['\\', c] + tail);
            assert(escaped(s).skip(2) =~= tail);
        } else {
            assert(escaped(s) =~= seq![c] + tail);
            assert(escaped(s).drop_first() =~= tail);
            if tail.len() > 0 && (tail[0] == ' ' || tail[0] == ',') {
                lemma_escaped_guards(rest, 0);
            }
        }
    }
}

/// What stands for one character inside a quoted string: a double quote
/// gets a backslash in front.
pub open spec fn quoted_char(c: char) -> Seq<char> {
    if c == '"' {
        seq!['\\', c]
    } else {
        seq![c]
    }
}

/// The inside of a quoted string.
pub open spec fn quoted_body(s: Seq<char>) -> Seq<char>
    decreases s.len(),
{
    if s.len() == 0 {
        Seq::empty()
    } else {
        quoted_char(s[0]) + quoted_body(s.drop_first())
    }
}

/// A string field value: the text between double quotes.
pub open spec fn quoted(s: Seq<char>) -> Seq<char> {
    seq!['"'] + quoted_body(s) + seq!['"']
}

/// An integer field value: its decimal rendering and the integer suffix.
pub open spec fn integer_text(i: i64) -> Seq<char> {
    decimal(i as int).push(INTEGER_SUFFIX)
}

/// A boolean field value: `t` or `f`.
pub open spec fn boolean_text(b: bool) -> Seq<char> {
    if b {
        seq!['t']
    } else {
        seq!['f']
    }
}

/// A field value as it stands in the line.
pub open spec fn value_text(v: ValueView) -> Seq<char> {
    match v {
        ValueView::String(s) => quoted(s),
        ValueView::Float(s) => s,
        ValueView::Integer(i) => integer_text(i),
        ValueView::Boolean(b) => boolean_text(b),
    }
}

/// One tag as it stands in the line, with the comma that leads it.
pub open spec fn tag_text(tag: (Seq<char>, Seq<char>)) -> Seq<char> {
    seq![','] + escaped(tag.0) + seq!['='] + escaped(tag.1)
}

/// All tags, in the order of the sequence.
pub open spec fn tags_text(tags: Seq<(Seq<char>, Seq<char>)>) -> Seq<char>
    decreases tags.len(),
{
    if tags.len() == 0 {
        Seq::empty()
    } else {
        tags_text(tags.drop_last()) + tag_text(tags.last())
    }
}

/// One field as it stands in the line.
pub open spec fn field_text(field: (Seq<char>, ValueView)) -> Seq<char> {
    escaped(field.0) + seq!['='] + value_text(field.1)
}

/// All fields, in the order of the sequence: a space, then the fields with
/// commas between them. Nothing at all where there is no field.
pub open spec fn fields_text(fields: Seq<(Seq<char>, ValueView)>) -> Seq<char> {
    if fields.len() == 0 {
        Seq::empty()
    } else {
        seq![' '] + joined(fields.map_values(|f: (Seq<char>, ValueView)| field_text(f)), seq![','])
    }
}

/// The timestamp as it stands in the line: a space and the decimal number,
/// or nothing where there is no timestamp.
pub open spec fn timestamp_text(timestamp: Option<i64>) -> Seq<char> {
    match timestamp {
        Some(t) => seq![' '] + decimal(t as int),
        None => Seq::empty(),
    }
}

/// The line of a measurement: the escaped key, the tags, the fields and the
/// timestamp.
pub open spec fn line(m: MeasurementView) -> Seq<char> {
    escaped(m.key) + tags_text(m.tags) + fields_text(m.fields) + timestamp_text(m.timestamp)
}

/// The line of a measurement depends on what its tags and fields map to, not
/// on the order in which they were added: two measurements with the same
/// key, timestamp, tags and fields have the same line, in which tags and
/// fields stand in ascending key order.
pub proof fn lemma_line_ignores_insertion_order(a: MeasurementView, b: MeasurementView)
    requires
        a.wf(),
        b.wf(),
        a.key == b.key,
        a.timestamp == b.timestamp,
        a.tag_map() == b.tag_map(),
        a.field_map() == b.field_map(),
    ensures
        a == b,
        line(a) == line(b),
{
    lemma_ascending_unique(a.tags, b.tags);
    lemma_ascending_unique(a.fields, b.fields);
}

/// Two tags with different keys can be added in either order, and so can two
/// fields: the line is the same.
pub proof fn lemma_line_of_either_order(
    m: MeasurementView,
    t1: (Seq<char>, Seq<char>),
    t2: (Seq<char>, Seq<char>),
    f1: (Seq<char>, ValueView),
    f2: (Seq<char>, ValueView),
)
    requires
        m.wf(),
        t1.0 != t2.0,
        f1.0 != f2.0,
    ensures
        line(
            MeasurementView {
                tags: put(put(m.tags, t1.0, t1.1), t2.0, t2.1),
                fields: put(put(m.fields, f1.0, f1.1), f2.0, f2.1),
                ..m
            },
        ) == line(
            MeasurementView {
                tags: put(put(m.tags, t2.0, t2.1), t1.0, t1.1),
                fields: put(put(m.fields, f2.0, f2.1), f1.0, f1.1),
                ..m
            },
        ),
{
    lemma_put_commutes(m.tags, t1.0, t1.1, t2.0, t2.1);
    lemma_put_commutes(m.fields, f1.0, f1.1, f2.0, f2.1);
}

/// Escapes spaces and commas of a key or tag value.
pub fn escape(s: &str) -> (r: String)
    ensures
        r@ == escaped(s@),
{
    let mut out = String::new();
    let mut it = s.chars();
    loop
        invariant
            out@ + escaped(it.remaining()) == escaped(s@),
            it.decrease() is Some,
        decreases it.decrease()->0,
    {
        let ghost rest = it.remaining();
        let ghost before = out@;
        match it.next() {
            None => {
                assert(out@ + Seq::<char>::empty() =~= out@);
                return out;
            },
            Some(c) => {
                if c == ' ' || c == ',' {
                    out.push('\\');
                }
                out.push(c);
                assert(out@ + escaped(rest.drop_first()) =~= before + escaped(rest));
            },
        }
    }
}

/// Renders a string field value: double quotes around the text, a backslash
/// before each double quote inside.
pub fn as_string(s: &str) -> (r: String)
    ensures
        r@ == quoted(s@),
{
    let mut out = String::new();
    out.push('"');
    let mut it = s.chars();
    loop
        invariant
            out@ + quoted_body(it.remaining()) == seq!['"'] + quoted_body(s@),
            it.decrease() is Some,
        decreases it.decrease()->0,
    {
        let ghost rest = it.remaining();
        let ghost before = out@;
        match it.next() {
            None => {
                assert(out@ + Seq::<char>::empty() =~= out@);
                out.push('"');
                return out;
            },
            Some(c) => {
                if c == '"' {
                    out.push('\\');
                }
                out.push(c);
                assert(out@ + quoted_body(rest.drop_first()) =~= before + quoted_body(rest));
            },
        }
    }
}

/// Renders an integer field value.
pub fn as_integer(i: &i64) -> (r: String)
    ensures
        r@ == integer_text(*i),
{
    let mut out = String::new();
    push_decimal(&mut out, *i);
    out.push(INTEGER_SUFFIX);
    out
}

/// Renders a boolean field value.
pub fn as_boolean(b: &bool) -> (r: String)
    ensures
        r@ == boolean_text(*b),
{
    let mut out = String::new();
    if *b {
        out.push('t');
    } else {
        out.push('f');
    }
    out
}

/// Renders a field value of any kind.
pub fn as_value(value: &Value) -> (r: String)
    ensures
        r@ == value_text(value@),
{
    match value {
        Value::String(s) => as_string(s),
        Value::Integer(i) => as_integer(i),
        Value::Float(f) => f.clone(),
        Value::Boolean(b) => as_boolean(b),
    }
}

impl LineSerializer {
    /// Constructs new `LineSerializer`.
    pub fn new() -> (r: LineSerializer) {
        LineSerializer
    }
}

impl Serializer for LineSerializer {
    open spec fn writes(&self, measurement: MeasurementView, text: Seq<char>) -> bool {
        text == line(measurement)
    }

    /// Writes the line of the measurement. Tags and fields stand in the line
    /// in ascending key order.
    fn serialize(&self, measurement: &Measurement) -> (r: String)
        ensures
            r@ == line(measurement@),
            measurement@.wf(),
    {
        let mut out = escape(measurement.key());
        let ghost m = measurement@;

        let tags = measurement.tags();
        let mut i: usize = 0;
        while i < tags.len()
            invariant
                i <= tags.len(),
                keyed(tags@) == m.tags,
                out@ == escaped(m.key) + tags_text(m.tags.take(i as int)),
            decreases tags.len() - i,
        {
            out.push(',');
            let tag = escape(tags[i].0.as_str());
            out.append(tag.as_str());
            out.push('=');
            let value = escape(tags[i].1.as_str());
            out.append(value.as_str());
            proof {
                assert(m.tags.take(i + 1).drop_last() =~= m.tags.take(i as int));
                assert(m.tags.take(i + 1).last() == (tags@[i as int].0@, tags@[i as int].1@));
            }
            i = i + 1;
        }
        proof {
            assert(m.tags.take(tags.len() as int) =~= m.tags);
        }

        let fields = measurement.fields();
        let ghost head = out@;
        let ghost texts = m.fields.map_values(|f: (Seq<char>, ValueView)| field_text(f));
        let mut j: usize = 0;
        while j < fields.len()
            invariant
                j <= fields.len(),
                keyed(fields@) == m.fields,
                texts == m.fields.map_values(|f: (Seq<char>, ValueView)| field_text(f)),
                j == 0 ==> out@ == head,
                j > 0 ==> out@ == head + seq![' '] + joined(texts.take(j as int), seq![',']),
            decreases fields.len() - j,
        {
            if j == 0 {
                out.push(' ');
            } else {
                out.push(',');
            }
            let field = escape(fields[j].0.as_str());
            out.append(field.as_str());
            out.push('=');
            let value = as_value(&fields[j].1);
            out.append(value.as_str());
            proof {
                assert(texts.take(j + 1).drop_last() =~= texts.take(j as int));
                assert(texts.take(j + 1).last() == field_text(
                    (fields@[j as int].0@, fields@[j as int].1@),
                ));
            }
            j = j + 1;
        }
        proof {
            assert(texts.take(fields.len() as int) =~= texts);
            assert(out@ == head + fields_text(m.fields));
        }

        match measurement.timestamp() {
            Some(t) => {
                out.push(' ');
                push_decimal(&mut out, t);
            },
            None => {},
        }
        assert(out@ =~= line(m));
        out
    }
}

} // verus!
