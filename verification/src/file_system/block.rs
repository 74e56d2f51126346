use vstd::prelude::*;

verus! {

/// Number of bytes in one disk block.
pub const BLOCK_SIZE: usize = 512;

/// Number of blocks on the disk.
pub const NUM_BLOCKS: usize = 64;

/// A block made only of zero bytes.
pub open spec fn zero_block() -> Seq<u8> {
    Seq::new(BLOCK_SIZE as nat, |i: int| 0u8)
}

/// The shape every disk has: `NUM_BLOCKS` blocks of `BLOCK_SIZE` bytes each.
pub open spec fn disk_shape(d: Seq<Seq<u8>>) -> bool {
    &&& d.len() == NUM_BLOCKS
    &&& forall|i: int| 0 <= i < d.len() ==> (#[trigger] d[i]).len() == BLOCK_SIZE
}

/// An in-memory block device.
pub struct Disk {
    data: Vec<[u8; BLOCK_SIZE]>,
}

impl Disk {
    /// The bytes of each block.
    pub closed spec fn view(&self) -> Seq<Seq<u8>> {
        Seq::new(self.data@.len(), |i: int| self.data@[i]@)
    }

    /// The disk has the shape of `NUM_BLOCKS` blocks of `BLOCK_SIZE` bytes.
    pub open spec fn wf(&self) -> bool {
        disk_shape(self@)
    }

    /// A disk whose every byte is zero.
    pub fn new() -> (disk: Self)
        ensures
            disk.wf(),
            disk@ == Seq::new(NUM_BLOCKS as nat, |i: int| zero_block()),
    {
        let mut data: Vec<[u8; BLOCK_SIZE]> = Vec::new();
        let mut i: usize = 0;
        while i < NUM_BLOCKS
            invariant
                i <= NUM_BLOCKS,
                data@.len() == i,
                forall|k: int| 0 <= k < i ==> (#[trigger] data@[k])@ == zero_block(),
            decreases NUM_BLOCKS - i,
        {
            let block = [0u8; BLOCK_SIZE];
            assert(block@ =~= zero_block());
            data.push(block);
            i = i + 1;
        }
        let disk = Disk { data };
        assert(disk@ =~= Seq::new(NUM_BLOCKS as nat, |i: int| zero_block()));
        disk
    }

    /// Whether the disk has `NUM_BLOCKS` blocks of `BLOCK_SIZE` bytes.
    pub fn is_well_formed(&self) -> (ok: bool)
        ensures
            ok == self.wf(),
    {
        self.data.len() == NUM_BLOCKS
    }

    /// Copies block `block` out of the disk.
    pub fn read_block(&self, block: usize) -> (bytes: [u8; BLOCK_SIZE])
        requires
            self.wf(),
            block < NUM_BLOCKS,
        ensures
            bytes@ == self@[block as int],
    {
        self.data[block]
    }

    /// Replaces block `block` by `bytes`.
    pub fn write_block(&mut self, block: usize, bytes: [u8; BLOCK_SIZE])
        requires
            old(self).wf(),
            block < NUM_BLOCKS,
        ensures
            final(self).wf(),
            final(self)@ == old(self)@.update(block as int, bytes@),
    {
        self.data.set(block, bytes);
        assert(self@ =~= old(self)@.update(block as int, bytes@));
    }
}

} // verus!
