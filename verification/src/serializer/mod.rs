//! Serializers turn a measurement into the text that is sent to the database.

use crate::measurement::{Measurement, MeasurementView};
use crate::text::texts;
use vstd::prelude::*;

pub mod line;

verus! {

/// `Measurement` serializer.
pub trait Serializer {
    /// What holds of the line that this serializer writes for a measurement.
    /// A serializer that says nothing of its lines leaves this as it is.
    open spec fn writes(&self, measurement: MeasurementView, line: Seq<char>) -> bool {
        true
    }

    /// Serializes measurement to String.
    fn serialize(&self, measurement: &Measurement) -> (line: String)
        ensures
            self.writes(measurement@, line@),
    ;
}

impl<T: Serializer + ?Sized> Serializer for Box<T> {
    open spec fn writes(&self, measurement: MeasurementView, line: Seq<char>) -> bool {
        (**self).writes(measurement, line)
    }

    fn serialize(&self, measurement: &Measurement) -> (line: String) {
        (**self).serialize(measurement)
    }
}

/// The views of a sequence of measurements.
pub open spec fn measured(chunk: Seq<Measurement<'_>>) -> Seq<MeasurementView> {
    chunk.map_values(|m: Measurement<'_>| m@)
}

/// The lines are what the serializer writes for the measurements: one line
/// for each, in their order.
pub open spec fn serialized<S: Serializer + ?Sized>(
    serializer: &S,
    chunk: Seq<MeasurementView>,
    lines: Seq<Seq<char>>,
) -> bool {
    &&& lines.len() == chunk.len()
    &&& forall|k: int| 0 <= k < chunk.len() ==> serializer.writes(chunk[k], #[trigger] lines[k])
}

/// Serializes the measurements of one chunk, one line for each, in their
/// order.
pub fn serialize_all<S: Serializer + ?Sized>(serializer: &S, chunk: &[Measurement<'_>]) -> (r: Vec<
    String,
>)
    ensures
        serialized(serializer, measured(chunk@), texts(r@)),
{
    let mut lines: Vec<String> = Vec::new();
    let mut i: usize = 0;
    while i < chunk.len()
        invariant
            i <= chunk.len(),
            lines@.len() == i,
            forall|k: int|
                0 <= k < i ==> serializer.writes(measured(chunk@)[k], #[trigger] texts(lines@)[k]),
        decreases chunk.len() - i,
    {
        let line = serializer.serialize(&chunk[i]);
        let ghost before = texts(lines@);
        lines.push(line);
        proof {
            assert(texts(lines@) =~= before.push(line@));
            assert(measured(chunk@)[i as int] == chunk@[i as int]@);
        }
        i = i + 1;
    }
    lines
}

} // verus!
