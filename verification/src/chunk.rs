//! Splitting a resource into the two byte ranges that are fetched side by side.

use vstd::prelude::*;

verus! {

/// A range of byte positions, both ends included.
#[derive(Debug, Clone, Copy, PartialEq, Eq, Structural)]
pub struct Chunk {
    pub start: u64,
    pub end: u64,
}

impl Chunk {
    /// How many positions the range covers.
    pub open spec fn size(self) -> int {
        self.end - self.start + 1
    }

    /// Whether the range covers at least one position and its size is a 64-bit number.
    pub open spec fn is_range(self) -> bool {
        1 <= self.size() <= u64::MAX
    }

    /// The part of `data` that the range covers.
    pub open spec fn part<T>(self, data: Seq<T>) -> Seq<T> {
        data.subrange(self.start as int, self.end + 1)
    }

    /// The number of bytes in the range.
    pub fn len(self) -> (len: u64)
        requires
            self.is_range(),
        ensures
            len == self.size(),
    {
        self.end - self.start + 1
    }
}

/// The first half of `total_size` bytes, the smaller one where the halves differ.
pub open spec fn first_half(total_size: u64) -> Chunk {
    Chunk { start: 0, end: (total_size / 2 - 1) as u64 }
}

/// What is left of `total_size` bytes behind the first half.
pub open spec fn second_half(total_size: u64) -> Chunk {
    Chunk { start: total_size / 2, end: (total_size - 1) as u64 }
}

/// Splits `total_size` bytes in the middle. With an odd size the second range is one longer.
pub fn split_in_half(total_size: u64) -> (chunks: [Chunk; 2])
    requires
        total_size >= 2,
    ensures
        chunks@ == seq![first_half(total_size), second_half(total_size)],
{
    let mid: u64 = total_size / 2;
    let chunks = [
        Chunk { start: 0, end: mid - 1 },
        Chunk { start: mid, end: total_size - 1 },
    ];
    assert(chunks@ =~= seq![first_half(total_size), second_half(total_size)]);
    chunks
}

/// The two halves cover every position of the resource once, the first half before the second,
/// and the second is longer by the byte that is left over where the size is odd.
pub proof fn halves_partition(total_size: u64)
    requires
        total_size >= 2,
    ensures
        first_half(total_size).is_range(),
        second_half(total_size).is_range(),
        first_half(total_size).start == 0,
        first_half(total_size).end + 1 == second_half(total_size).start,
        second_half(total_size).end + 1 == total_size,
        first_half(total_size).size() + second_half(total_size).size() == total_size,
        second_half(total_size).size() == first_half(total_size).size() + total_size % 2,
{
}

/// The parts of a resource that the two halves cover, put one behind the other, are the resource.
pub proof fn halves_rejoin<T>(data: Seq<T>, total_size: u64)
    requires
        total_size >= 2,
        data.len() == total_size,
    ensures
        first_half(total_size).part(data) + second_half(total_size).part(data) == data,
{
    assert(first_half(total_size).part(data) + second_half(total_size).part(data) =~= data);
}

} // verus!
