//! The buffer that the blocks of a piece are placed into, and why the order
//! of placing does not matter.

use vstd::prelude::*;

verus! {

/// A buffer of `len` zero bytes.
pub open spec fn zeros(len: int) -> Seq<u8> {
    Seq::new(len as nat, |k: int| 0u8)
}

/// The buffer after `block` is written at offset `begin`. A block that does
/// not lie inside the buffer leaves it as it is.
pub open spec fn placed(buf: Seq<u8>, begin: int, block: Seq<u8>) -> Seq<u8> {
    if 0 <= begin && begin + block.len() <= buf.len() {
        Seq::new(
            buf.len(),
            |k: int|
                if begin <= k < begin + block.len() {
                    block[k - begin]
                } else {
                    buf[k]
                },
        )
    } else {
        buf
    }
}

/// The buffer after each block of `blocks`, an offset and the bytes to write
/// there, is placed in turn.
pub open spec fn placed_all(buf: Seq<u8>, blocks: Seq<(int, Seq<u8>)>) -> Seq<u8>
    decreases blocks.len(),
{
    if blocks.len() == 0 {
        buf
    } else {
        placed(placed_all(buf, blocks.drop_last()), blocks.last().0, blocks.last().1)
    }
}

/// Whether `block` writes the byte at offset `k`.
pub open spec fn covers(block: (int, Seq<u8>), k: int) -> bool {
    block.0 <= k < block.0 + block.1.len()
}

/// Whether two blocks write no byte in common.
pub open spec fn apart(a: (int, Seq<u8>), b: (int, Seq<u8>)) -> bool {
    a.0 + a.1.len() <= b.0 || b.0 + b.1.len() <= a.0
}

/// Whether no two blocks of `blocks` write a byte in common.
pub open spec fn non_overlapping(blocks: Seq<(int, Seq<u8>)>) -> bool {
    forall|i: int, j: int|
        0 <= i < blocks.len() && 0 <= j < blocks.len() && i != j ==> apart(
            #[trigger] blocks[i],
            #[trigger] blocks[j],
        )
}

/// Whether every block of `blocks` lies inside a buffer of `len` bytes.
pub open spec fn within(len: int, blocks: Seq<(int, Seq<u8>)>) -> bool {
    forall|i: int|
        0 <= i < blocks.len() ==> 0 <= (#[trigger] blocks[i]).0 && blocks[i].0
            + blocks[i].1.len() <= len
}

/// Placing blocks never changes the length of the buffer.
pub proof fn lemma_placed_all_len(buf: Seq<u8>, blocks: Seq<(int, Seq<u8>)>)
    ensures
        placed_all(buf, blocks).len() == buf.len(),
    decreases blocks.len(),
{
    if blocks.len() > 0 {
        lemma_placed_all_len(buf, blocks.drop_last());
    }
}

/// Placing a block a second time changes nothing.
pub proof fn lemma_placed_twice(buf: Seq<u8>, begin: int, block: Seq<u8>)
    ensures
        placed(placed(buf, begin, block), begin, block) == placed(buf, begin, block),
{
    assert(placed(placed(buf, begin, block), begin, block) =~= placed(buf, begin, block));
}

/// Two blocks that write no byte in common can be placed in either order.
pub proof fn lemma_placed_commutes(
    buf: Seq<u8>,
    first: (int, Seq<u8>),
    second: (int, Seq<u8>),
)
    requires
        apart(first, second),
    ensures
        placed(placed(buf, first.0, first.1), second.0, second.1) == placed(
            placed(buf, second.0, second.1),
            first.0,
            first.1,
        ),
{
    assert(placed(placed(buf, first.0, first.1), second.0, second.1) =~= placed(
        placed(buf, second.0, second.1),
        first.0,
        first.1,
    ));
}

/// The byte that the blocks of `family` leave at offset `k`: the byte of the
/// block that covers `k`, or the byte of `buf` where none does.
pub open spec fn settled(buf: Seq<u8>, family: Seq<(int, Seq<u8>)>, k: int) -> u8 {
    if exists|j: int| 0 <= j < family.len() && covers(#[trigger] family[j], k) {
        let j = choose|j: int| 0 <= j < family.len() && covers(#[trigger] family[j], k);
        family[j].1[k - family[j].0]
    } else {
        buf[k]
    }
}

/// Placing blocks drawn from a non-overlapping family, in whatever order and
/// however often, leaves at each offset what the family settles there, or
/// the byte of `buf` where none of the blocks placed covers the offset.
pub proof fn lemma_placed_all_at(
    buf: Seq<u8>,
    family: Seq<(int, Seq<u8>)>,
    drawn: Seq<(int, Seq<u8>)>,
    k: int,
)
    requires
        non_overlapping(family),
        within(buf.len() as int, family),
        forall|i: int| 0 <= i < drawn.len() ==> family.contains(#[trigger] drawn[i]),
        0 <= k < buf.len(),
    ensures
        placed_all(buf, drawn).len() == buf.len(),
        placed_all(buf, drawn)[k] == (if exists|i: int|
            0 <= i < drawn.len() && covers(#[trigger] drawn[i], k) {
            settled(buf, family, k)
        } else {
            buf[k]
        }),
    decreases drawn.len(),
{
    if drawn.len() > 0 {
        let rest = drawn.drop_last();
        let last = drawn.last();
        assert forall|i: int| 0 <= i < rest.len() implies family.contains(#[trigger] rest[i]) by {
            assert(rest[i] == drawn[i]);
        }
        lemma_placed_all_at(buf, family, rest, k);
        assert(family.contains(drawn[drawn.len() - 1]));
        let at = choose|j: int| 0 <= j < family.len() && family[j] == last;
        assert(0 <= family[at].0 && family[at].0 + family[at].1.len() <= buf.len());
        if covers(last, k) {
            assert(covers(family[at], k));
            let j = choose|j: int| 0 <= j < family.len() && covers(#[trigger] family[j], k);
            if j != at {
                assert(apart(family[j], family[at]));
            }
            assert(covers(drawn[drawn.len() - 1], k));
        } else {
            if exists|i: int| 0 <= i < drawn.len() && covers(#[trigger] drawn[i], k) {
                let i = choose|i: int| 0 <= i < drawn.len() && covers(#[trigger] drawn[i], k);
                assert(i < rest.len());
                assert(covers(rest[i], k));
            } else {
                assert forall|i: int| 0 <= i < rest.len() implies !covers(#[trigger] rest[i], k) by {
                    assert(rest[i] == drawn[i]);
                }
            }
            if exists|i: int| 0 <= i < rest.len() && covers(#[trigger] rest[i], k) {
                let i = choose|i: int| 0 <= i < rest.len() && covers(#[trigger] rest[i], k);
                assert(covers(drawn[i], k));
            }
        }
    }
}

/// Blocks that write no byte in common leave the same buffer in whatever
/// order they are placed, and however often each is placed: a sequence that
/// holds the blocks of `blocks` and no others gives what `blocks` gives.
pub proof fn lemma_placement_order(
    buf: Seq<u8>,
    blocks: Seq<(int, Seq<u8>)>,
    other: Seq<(int, Seq<u8>)>,
)
    requires
        non_overlapping(blocks),
        within(buf.len() as int, blocks),
        forall|i: int| 0 <= i < other.len() ==> blocks.contains(#[trigger] other[i]),
        forall|j: int| 0 <= j < blocks.len() ==> other.contains(#[trigger] blocks[j]),
    ensures
        placed_all(buf, other) == placed_all(buf, blocks),
{
    assert forall|i: int| 0 <= i < blocks.len() implies blocks.contains(#[trigger] blocks[i]) by {}
    lemma_placed_all_len(buf, other);
    lemma_placed_all_len(buf, blocks);
    assert forall|k: int| 0 <= k < buf.len() implies placed_all(buf, other)[k] == placed_all(
        buf,
        blocks,
    )[k] by {
        lemma_placed_all_at(buf, blocks, other, k);
        lemma_placed_all_at(buf, blocks, blocks, k);
        if exists|i: int| 0 <= i < other.len() && covers(#[trigger] other[i], k) {
            let i = choose|i: int| 0 <= i < other.len() && covers(#[trigger] other[i], k);
            assert(blocks.contains(other[i]));
            let j = choose|j: int| 0 <= j < blocks.len() && blocks[j] == other[i];
            assert(covers(blocks[j], k));
        }
        if exists|j: int| 0 <= j < blocks.len() && covers(#[trigger] blocks[j], k) {
            let j = choose|j: int| 0 <= j < blocks.len() && covers(#[trigger] blocks[j], k);
            assert(other.contains(blocks[j]));
            let i = choose|i: int| 0 <= i < other.len() && other[i] == blocks[j];
            assert(covers(other[i], k));
        }
    }
    assert(placed_all(buf, other) =~= placed_all(buf, blocks));
}

/// Placing the blocks of a piece in any permutation of their offsets gives
/// the same buffer as placing them in ascending order.
pub proof fn lemma_placement_permuted(
    buf: Seq<u8>,
    blocks: Seq<(int, Seq<u8>)>,
    shuffled: Seq<(int, Seq<u8>)>,
)
    requires
        non_overlapping(blocks),
        within(buf.len() as int, blocks),
        shuffled.to_multiset() == blocks.to_multiset(),
    ensures
        placed_all(buf, shuffled) == placed_all(buf, blocks),
{
    blocks.to_multiset_ensures();
    shuffled.to_multiset_ensures();
    assert forall|i: int| 0 <= i < shuffled.len() implies blocks.contains(
        #[trigger] shuffled[i],
    ) by {
        assert(shuffled.contains(shuffled[i]));
        assert(shuffled.to_multiset().count(shuffled[i]) > 0);
        assert(blocks.to_multiset().count(shuffled[i]) > 0);
    }
    assert forall|j: int| 0 <= j < blocks.len() implies shuffled.contains(#[trigger] blocks[j]) by {
        assert(blocks.contains(blocks[j]));
        assert(blocks.to_multiset().count(blocks[j]) > 0);
        assert(shuffled.to_multiset().count(blocks[j]) > 0);
    }
    lemma_placement_order(buf, blocks, shuffled);
}

/// The buffer that the blocks of one piece are placed into.
pub struct PieceBuffer {
    data: Vec<u8>,
}

impl View for PieceBuffer {
    type V = Seq<u8>;

    closed spec fn view(&self) -> Seq<u8> {
        self.data@
    }
}

impl PieceBuffer {
    /// A buffer of `len` zero bytes.
    pub fn new(len: usize) -> (buffer: PieceBuffer)
        ensures
            buffer@ == zeros(len as int),
    {
        let mut data: Vec<u8> = Vec::new();
        data.resize(len, 0u8);
        assert(data@ =~= zeros(len as int));
        PieceBuffer { data }
    }

    /// The number of bytes in the buffer.
    pub fn len(&self) -> (len: usize)
        ensures
            len == self@.len(),
    {
        self.data.len()
    }

    /// Writes `block` at offset `begin`, and says whether it did: a block that
    /// does not lie inside the buffer is not written, not even in part.
    pub fn place(&mut self, begin: usize, block: &[u8]) -> (fits: bool)
        ensures
            fits == (begin + block@.len() <= old(self)@.len()),
            final(self)@ == placed(old(self)@, begin as int, block@),
    {
        let ghost before = self.data@;
        if block.len() > self.data.len() || begin > self.data.len() - block.len() {
            return false;
        }
        let mut i: usize = 0;
        while i < block.len()
            invariant
                i <= block@.len(),
                begin + block@.len() <= before.len() <= usize::MAX,
                self.data@.len() == before.len(),
                self.data@ == placed(before, begin as int, block@.subrange(0, i as int)),
            decreases block@.len() - i,
        {
            self.data.set(begin + i, block[i]);
            i += 1;
            assert(self.data@ =~= placed(before, begin as int, block@.subrange(0, i as int)));
        }
        assert(block@.subrange(0, i as int) =~= block@);
        true
    }

    /// Gives up the buffer for its bytes.
    pub fn into_bytes(self) -> (bytes: Vec<u8>)
        ensures
            bytes@ == self@,
    {
        self.data
    }
}

} // verus!
