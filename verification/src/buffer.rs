//! The shared buffer protocol: how values that do not fit in scalar registers
//! cross the sandbox boundary.
//!
//! The sandboxed side reserves one fixed-size buffer in its linear memory and
//! tells where it is and how large. The host lays the encoded arguments out in
//! that buffer one behind the other and hands the module one pointer/length
//! pair per argument. A reply comes back at the base of the same buffer.

use vstd::prelude::*;

verus! {

/// The buffer that a module advertises: where it starts in the module's
/// linear memory and how many bytes it holds.
#[derive(Copy, Clone, Debug, PartialEq, Eq, Structural)]
pub struct SharedBuffer {
    pub address: u32,
    pub capacity: u32,
}

/// One pointer/length pair: where an argument stands in linear memory.
#[derive(Copy, Clone, Debug, PartialEq, Eq, Structural)]
pub struct Span {
    pub address: u64,
    pub length: u64,
}

/// Why arguments cannot be laid out.
#[derive(Copy, Clone, Debug, PartialEq, Eq, Structural)]
pub enum LayoutError {
    /// The arguments need more room than the buffer has.
    BufferTooSmall,
    /// The arguments fit the buffer as advertised, but the buffer does not
    /// lie within the module's memory.
    OutOfBounds,
}

/// The room that arguments of the given lengths need together.
pub open spec fn total_length(lengths: Seq<usize>) -> nat
    decreases lengths.len(),
{
    if lengths.len() == 0 {
        0
    } else {
        total_length(lengths.drop_last()) + lengths.last() as nat
    }
}

/// Where the argument with the given index goes: right behind the ones
/// before it.
pub open spec fn span_at(buffer: SharedBuffer, lengths: Seq<usize>, index: int) -> Span {
    Span {
        address: (buffer.address + total_length(lengths.take(index))) as u64,
        length: lengths[index] as u64,
    }
}

/// The layout of all arguments.
pub open spec fn spans_of(buffer: SharedBuffer, lengths: Seq<usize>) -> Seq<Span> {
    Seq::new(lengths.len(), |index: int| span_at(buffer, lengths, index))
}

/// What laying out arguments must answer.
pub open spec fn layout_of(buffer: SharedBuffer, memory_size: usize, lengths: Seq<usize>) -> Result<
    Seq<Span>,
    LayoutError,
> {
    if total_length(lengths) > buffer.capacity {
        Err(LayoutError::BufferTooSmall)
    } else if buffer.address + total_length(lengths) > memory_size {
        Err(LayoutError::OutOfBounds)
    } else {
        Ok(spans_of(buffer, lengths))
    }
}

/// The first arguments never need more room than all of them.
pub proof fn lemma_total_length_grows(lengths: Seq<usize>, count: int)
    requires
        0 <= count <= lengths.len(),
    ensures
        total_length(lengths.take(count)) <= total_length(lengths),
    decreases lengths.len(),
{
    if count == lengths.len() {
        assert(lengths.take(count) =~= lengths);
    } else {
        lemma_total_length_grows(lengths.drop_last(), count);
        assert(lengths.drop_last().take(count) =~= lengths.take(count));
    }
}

/// The room for one more argument.
pub proof fn lemma_total_length_step(lengths: Seq<usize>, count: int)
    requires
        0 <= count < lengths.len(),
    ensures
        total_length(lengths.take(count + 1)) == total_length(lengths.take(count))
            + lengths[count] as nat,
{
    assert(lengths.take(count + 1).drop_last() =~= lengths.take(count));
}

/// Within a layout, every argument lies inside the buffer and inside the
/// memory, and behind the arguments before it.
pub proof fn lemma_spans_within(
    buffer: SharedBuffer,
    memory_size: usize,
    lengths: Seq<usize>,
    index: int,
)
    requires
        layout_of(buffer, memory_size, lengths) is Ok,
        0 <= index < lengths.len(),
    ensures
        span_at(buffer, lengths, index).address == buffer.address + total_length(
            lengths.take(index),
        ),
        span_at(buffer, lengths, index).length == lengths[index],
        span_at(buffer, lengths, index).address + span_at(buffer, lengths, index).length
            <= buffer.address + buffer.capacity,
        span_at(buffer, lengths, index).address + span_at(buffer, lengths, index).length
            <= memory_size,
{
    lemma_total_length_step(lengths, index);
    lemma_total_length_grows(lengths, index + 1);
}

/// Within a layout, an earlier argument ends before a later one starts.
pub proof fn lemma_spans_ordered(
    buffer: SharedBuffer,
    memory_size: usize,
    lengths: Seq<usize>,
    earlier: int,
    later: int,
)
    requires
        layout_of(buffer, memory_size, lengths) is Ok,
        0 <= earlier < later < lengths.len(),
    ensures
        span_at(buffer, lengths, earlier).address + span_at(buffer, lengths, earlier).length
            <= span_at(buffer, lengths, later).address,
{
    lemma_spans_within(buffer, memory_size, lengths, earlier);
    lemma_spans_within(buffer, memory_size, lengths, later);
    lemma_total_length_step(lengths, earlier);
    lemma_total_length_grows(lengths.take(later), earlier + 1);
    assert(lengths.take(later).take(earlier + 1) =~= lengths.take(earlier + 1));
}

/// Lays arguments of the given lengths out in the buffer, first to last, or
/// says why that cannot be done. Nothing is written: the answer is a plan.
pub fn layout(buffer: SharedBuffer, memory_size: usize, lengths: &Vec<usize>) -> (plan: Result<
    Vec<Span>,
    LayoutError,
>)
    ensures
        match layout_of(buffer, memory_size, lengths@) {
            Ok(spans) => plan matches Ok(found) && found@ == spans,
            Err(error) => plan == Err::<Vec<Span>, LayoutError>(error),
        },
{
    let mut spans: Vec<Span> = Vec::new();
    let mut used: u64 = 0;
    let mut i: usize = 0;
    assert(lengths@.take(0) =~= Seq::empty());
    while i < lengths.len()
        invariant
            i <= lengths@.len(),
            used == total_length(lengths@.take(i as int)),
            used <= buffer.capacity,
            spans@.len() == i,
            forall|j: int| 0 <= j < i ==> spans@[j] == span_at(buffer, lengths@, j),
        decreases lengths@.len() - i,
    {
        let length = lengths[i];
        proof {
            lemma_total_length_step(lengths@, i as int);
            lemma_total_length_grows(lengths@, i + 1);
        }
        if length as u64 > buffer.capacity as u64 - used {
            return Err(LayoutError::BufferTooSmall);
        }
        spans.push(Span { address: buffer.address as u64 + used, length: length as u64 });
        used = used + length as u64;
        i = i + 1;
    }
    assert(lengths@.take(i as int) =~= lengths@);
    if buffer.address as u64 + used > memory_size as u64 {
        return Err(LayoutError::OutOfBounds);
    }
    assert(spans@ =~= spans_of(buffer, lengths@));
    Ok(spans)
}

/// Arguments that need more room than the buffer advertises are never laid
/// out: the answer is always that the buffer is too small.
pub proof fn law_buffer_capacity(buffer: SharedBuffer, memory_size: usize, lengths: Seq<usize>)
    requires
        total_length(lengths) > buffer.capacity,
    ensures
        layout_of(buffer, memory_size, lengths) == Err::<Seq<Span>, LayoutError>(
            LayoutError::BufferTooSmall,
        ),
{
}

} // verus!
