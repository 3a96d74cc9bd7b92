use vstd::prelude::*;
use crate::layout::DEFAULT_KEY;
use crate::link::CardLink;

verus! {

/// Number of blocks of an in-memory card: sixteen sectors of four blocks.
pub const CARD_BLOCKS: usize = 64;

/// A card held in memory, with the keyed sector semantics of a contactless
/// card: a sector opens to the key A in its trailer, and only the open
/// sector can be read or written. It stands in for a reader and a card
/// where the protocol is exercised without hardware.
pub struct MemoryCard {
    blocks: Vec<[u8; 16]>,
    present: bool,
    selected: bool,
    open_sector: Option<u8>,
}

/// Whether `key` equals the first six bytes of `trailer`.
fn key_opens(trailer: &[u8; 16], key: &[u8; 6]) -> (r: bool)
    ensures
        r == (trailer@.subrange(0, 6) == key@),
{
    let mut i: usize = 0;
    while i < 6
        invariant
            i <= 6,
            forall|j: int| 0 <= j < i ==> trailer@[j] == key@[j],
        decreases 6 - i,
    {
        if trailer[i] != key[i] {
            assert(trailer@.subrange(0, 6)[i as int] != key@[i as int]);
            return false;
        }
        i += 1;
    }
    assert(trailer@.subrange(0, 6) =~= key@);
    true
}

/// Block `i` of a factory-fresh card: a trailer with the default key as
/// key A and key B around the transport access bits, or sixteen zeros.
pub open spec fn blank_block(i: int) -> Seq<u8> {
    if i % 4 == 3 {
        DEFAULT_KEY@ + seq![0xFFu8, 0x07u8, 0x80u8, 0x69u8] + DEFAULT_KEY@
    } else {
        Seq::new(16, |k: int| 0u8)
    }
}

impl MemoryCard {
    /// The blocks of the card.
    pub closed spec fn contents(&self) -> Seq<[u8; 16]> {
        self.blocks@
    }

    /// A factory-fresh card in the field: data blocks zero, every trailer
    /// holding the default key as key A and key B.
    pub fn blank() -> (r: Self)
        ensures
            r.contents().len() == CARD_BLOCKS,
            forall|i: int| 0 <= i < CARD_BLOCKS ==> (#[trigger] r.contents()[i])@ == blank_block(i),
            r.is_present(),
    {
        let k = DEFAULT_KEY;
        let trailer: [u8; 16] = [
            k[0], k[1], k[2], k[3], k[4], k[5],
            0xFF, 0x07, 0x80, 0x69,
            k[0], k[1], k[2], k[3], k[4], k[5],
        ];
        assert(trailer@ =~= blank_block(3));
        let zeros = [0u8; 16];
        assert(zeros@ =~= blank_block(0));
        let mut blocks: Vec<[u8; 16]> = Vec::new();
        let mut i: usize = 0;
        while i < CARD_BLOCKS
            invariant
                i <= CARD_BLOCKS,
                blocks@.len() == i,
                trailer@ == blank_block(3),
                zeros@ == blank_block(0),
                forall|j: int| 0 <= j < i ==> (#[trigger] blocks@[j])@ == blank_block(j),
            decreases CARD_BLOCKS - i,
        {
            if i % 4 == 3 {
                blocks.push(trailer);
            } else {
                blocks.push(zeros);
            }
            i += 1;
        }
        MemoryCard { blocks, present: true, selected: false, open_sector: None }
    }

    /// One block of the card, or `None` past its last block.
    pub fn block(&self, block: u8) -> (r: Option<[u8; 16]>)
        ensures
            (block as int) < self.contents().len() ==> r == Some(self.contents()[block as int]),
            (block as int) >= self.contents().len() ==> r is None,
    {
        if (block as usize) < self.blocks.len() {
            Some(self.blocks[block as usize])
        } else {
            None
        }
    }

    /// Stores `data` in a block, as a card would be prepared beforehand.
    pub fn set_block(&mut self, block: u8, data: [u8; 16])
        ensures
            (block as int) < old(self).contents().len() ==> final(self).contents() == old(
                self,
            ).contents().update(block as int, data),
            (block as int) >= old(self).contents().len() ==> final(self).contents() == old(
                self,
            ).contents(),
    {
        if (block as usize) < self.blocks.len() {
            self.blocks.set(block as usize, data);
        }
    }

    /// Whether the card is in the field.
    pub closed spec fn is_present(&self) -> bool {
        self.present
    }

    /// Takes the card out of the field: it no longer answers.
    pub fn remove(&mut self)
        ensures
            final(self).contents() == old(self).contents(),
            !final(self).is_present(),
    {
        self.present = false;
        self.selected = false;
        self.open_sector = None;
    }

    /// Whether the card is in the field.
    pub fn present(&self) -> (r: bool)
        ensures
            r == self.is_present(),
    {
        self.present
    }
}

impl CardLink for MemoryCard {
    fn request(&mut self) -> bool {
        self.present
    }

    fn settle(&mut self) {
    }

    fn select(&mut self) -> bool {
        self.selected = self.present;
        self.open_sector = None;
        self.selected
    }

    fn authenticate(&mut self, block: u8, key: &[u8; 6]) -> bool {
        self.open_sector = None;
        if !self.selected {
            return false;
        }
        let trailer_block = (block / 4) as usize * 4 + 3;
        if trailer_block >= self.blocks.len() {
            return false;
        }
        if key_opens(&self.blocks[trailer_block], key) {
            self.open_sector = Some(block / 4);
            true
        } else {
            false
        }
    }

    fn read(&mut self, block: u8) -> Option<[u8; 16]> {
        if self.selected && self.open_sector == Some(block / 4) && (block as usize)
            < self.blocks.len() {
            Some(self.blocks[block as usize])
        } else {
            None
        }
    }

    fn write(&mut self, block: u8, data: &[u8; 16]) -> bool {
        if self.selected && self.open_sector == Some(block / 4) && (block as usize)
            < self.blocks.len() {
            self.blocks.set(block as usize, *data);
            true
        } else {
            false
        }
    }

    fn halt(&mut self) -> bool {
        self.selected = false;
        self.open_sector = None;
        self.present
    }

    fn stop_crypto(&mut self) -> bool {
        self.open_sector = None;
        true
    }
}

} // verus!
