//! Batching: a write is split into chunks of bounded size.

use crate::measurement::Measurement;
use crate::serializer::measured;
use vstd::prelude::*;
use vstd::slice::slice_subrange;

verus! {

/// The pieces of `items`, each of `max` items but the last, which holds what
/// is left: the items in their order, none twice, none lost.
pub open spec fn chunks<T>(items: Seq<T>, max: int) -> Seq<Seq<T>>
    decreases items.len(),
{
    if max <= 0 || items.len() == 0 {
        Seq::empty()
    } else if items.len() <= max {
        seq![items]
    } else {
        seq![items.take(max)] + chunks(items.skip(max), max)
    }
}

/// No chunk is empty, none is longer than `max`, and only the last one may be
/// shorter.
pub proof fn lemma_chunks_sizes<T>(items: Seq<T>, max: int)
    requires
        max > 0,
    ensures
        forall|i: int|
            0 <= i < chunks(items, max).len() ==> 0 < (#[trigger] chunks(items, max)[i]).len()
                <= max,
        forall|i: int|
            0 <= i < chunks(items, max).len() - 1 ==> (#[trigger] chunks(items, max)[i]).len()
                == max,
    decreases items.len(),
{
    if items.len() > max {
        lemma_chunks_sizes(items.skip(max), max);
        let rest = chunks(items.skip(max), max);
        assert forall|i: int| 0 <= i < chunks(items, max).len() implies 0 < (#[trigger] chunks(
            items,
            max,
        )[i]).len() <= max by {
            if i > 0 {
                assert(chunks(items, max)[i] == rest[i - 1]);
            }
        }
        assert forall|i: int| 0 <= i < chunks(items, max).len() - 1 implies (#[trigger] chunks(
            items,
            max,
        )[i]).len() == max by {
            if i > 0 {
                assert(chunks(items, max)[i] == rest[i - 1]);
            }
        }
    }
}

/// The chunks one after the other are the items again, in their order.
pub proof fn lemma_chunks_keep_order<T>(items: Seq<T>, max: int)
    requires
        max > 0,
    ensures
        chunks(items, max).flatten() == items,
    decreases items.len(),
{
    let all = chunks(items, max);
    if items.len() == 0 {
        assert(all.flatten() =~= items);
    } else if items.len() <= max {
        assert(all.drop_first() =~= Seq::<Seq<T>>::empty());
        assert(all.drop_first().flatten() =~= Seq::<T>::empty());
        assert(all.flatten() =~= items);
    } else {
        lemma_chunks_keep_order(items.skip(max), max);
        assert(all.drop_first() =~= chunks(items.skip(max), max));
        assert(all.flatten() =~= items.take(max) + items.skip(max));
        assert(items.take(max) + items.skip(max) =~= items);
    }
}

/// There are as many chunks as `max` goes into the number of items, rounded
/// up.
pub proof fn lemma_chunks_count<T>(items: Seq<T>, max: int)
    requires
        max > 0,
    ensures
        chunks(items, max).len() == (items.len() + max - 1) / max,
    decreases items.len(),
{
    let n = items.len() as int;
    if n == 0 {
        assert((n + max - 1) / max == 0) by (nonlinear_arith)
            requires
                n == 0,
                max > 0,
        ;
    } else if n <= max {
        assert((n + max - 1) / max == 1) by (nonlinear_arith)
            requires
                0 < n <= max,
        ;
    } else {
        lemma_chunks_count(items.skip(max), max);
        assert((n + max - 1) / max == 1 + (n - max + max - 1) / max) by (nonlinear_arith)
            requires
                n > max,
                max > 0,
        ;
    }
}

/// The views of a sequence of slices.
pub open spec fn slices<'m, T>(pieces: Seq<&'m [T]>) -> Seq<Seq<T>> {
    pieces.map_values(|p: &'m [T]| p@)
}

/// Splits `items` into chunks of at most `max` items.
pub fn batch<'m, T>(items: &'m [T], max: usize) -> (r: Vec<&'m [T]>)
    requires
        max > 0,
    ensures
        slices(r@) == chunks(items@, max as int),
{
    let mut out: Vec<&'m [T]> = Vec::new();
    let mut start: usize = 0;
    proof {
        assert(items@.skip(0) =~= items@);
        assert(slices(out@) =~= Seq::<Seq<T>>::empty());
    }
    while start < items.len()
        invariant
            max > 0,
            start <= items.len(),
            slices(out@) + chunks(items@.skip(start as int), max as int) == chunks(
                items@,
                max as int,
            ),
        decreases items.len() - start,
    {
        let ghost rest = items@.skip(start as int);
        let ghost done = slices(out@);
        let end: usize = if items.len() - start <= max {
            items.len()
        } else {
            start + max
        };
        let piece = slice_subrange(items, start, end);
        out.push(piece);
        proof {
            assert(slices(out@) =~= done.push(piece@));
            if items.len() - start <= max {
                assert(piece@ =~= rest);
                assert(items@.skip(end as int) =~= Seq::<T>::empty());
                assert(done.push(piece@) + Seq::<Seq<T>>::empty() =~= done + seq![rest]);
            } else {
                assert(piece@ =~= rest.take(max as int));
                assert(items@.skip(end as int) =~= rest.skip(max as int));
                assert(done.push(piece@) + chunks(rest.skip(max as int), max as int) =~= done + (
                seq![rest.take(max as int)] + chunks(rest.skip(max as int), max as int)));
            }
        }
        start = end;
    }
    proof {
        assert(items@.skip(start as int) =~= Seq::<T>::empty());
        assert(slices(out@) + Seq::<Seq<T>>::empty() =~= slices(out@));
    }
    out
}

/// The chunks of the views are the views of the chunks.
pub proof fn lemma_chunks_of_views(measurements: Seq<Measurement<'_>>, max: int)
    ensures
        chunks(measured(measurements), max).len() == chunks(measurements, max).len(),
        forall|c: int|
            0 <= c < chunks(measurements, max).len() ==> measured(
                #[trigger] chunks(measurements, max)[c],
            ) == chunks(measured(measurements), max)[c],
    decreases measurements.len(),
{
    let views = measured(measurements);
    if max <= 0 || measurements.len() == 0 {
    } else if measurements.len() <= max {
    } else {
        lemma_chunks_of_views(measurements.skip(max), max);
        assert(measured(measurements.skip(max)) =~= views.skip(max));
        assert(measured(measurements.take(max)) =~= views.take(max));
        let rest = chunks(measurements.skip(max), max);
        let rest_views = chunks(views.skip(max), max);
        assert forall|c: int| 0 <= c < chunks(measurements, max).len() implies measured(
            #[trigger] chunks(measurements, max)[c],
        ) == chunks(views, max)[c] by {
            if c > 0 {
                assert(chunks(measurements, max)[c] == rest[c - 1]);
                assert(chunks(views, max)[c] == rest_views[c - 1]);
            }
        }
    }
}

} // verus!
