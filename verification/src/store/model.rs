//! What a storage node holds, and what each request makes of it.

use vstd::prelude::*;

use crate::error::{Code, StatusView};
use crate::proto::ProtoBlockKey;

verus! {

/// What a storage node holds.
#[verifier::ext_equal]
pub struct StoreView {
    pub blocks: Map<(u64, u64, u64), Seq<u8>>,
    pub high_water: Map<(u64, u64), u64>,
    pub ram_budget: u64,
    pub ram_used: u64,
}

/// `a + b` as a counter of 64 bits counts.
pub open spec fn wrap_plus(a: u64, b: int) -> u64 {
    ((a + b) % 0x1_0000_0000_0000_0000) as u64
}

/// `a - b` as a counter of 64 bits counts.
pub open spec fn wrap_minus(a: u64, b: int) -> u64 {
    ((a - b) % 0x1_0000_0000_0000_0000) as u64
}

/// How a block is found: by inode, position and generation.
pub open spec fn full_key(k: ProtoBlockKey) -> (u64, u64, u64) {
    (k.ino, k.block_idx, k.generation)
}

/// The block that a key names, whatever its generation.
pub open spec fn logical_key(k: ProtoBlockKey) -> (u64, u64) {
    (k.ino, k.block_idx)
}

pub open spec fn missing_key() -> StatusView {
    StatusView { code: Code::InvalidArgument, message: "missing key"@ }
}

impl StoreView {
    /// The node when it starts: it holds nothing.
    pub open spec fn initial(ram_budget: u64) -> StoreView {
        StoreView { blocks: Map::empty(), high_water: Map::empty(), ram_budget, ram_used: 0 }
    }

    /// The size of the block under a key; nothing where there is none.
    pub open spec fn block_len(self, k: (u64, u64, u64)) -> int {
        if self.blocks.contains_key(k) {
            self.blocks[k].len() as int
        } else {
            0
        }
    }

    pub open spec fn read(self, key: Option<ProtoBlockKey>) -> Result<Seq<u8>, StatusView> {
        match key {
            None => Err(missing_key()),
            Some(k) => if self.blocks.contains_key(full_key(k)) {
                Ok(self.blocks[full_key(k)])
            } else {
                Err(StatusView { code: Code::NotFound, message: "block not found"@ })
            },
        }
    }

    /// Whether a block of a later generation was written before.
    pub open spec fn stale(self, k: ProtoBlockKey) -> bool {
        self.high_water.contains_key(logical_key(k)) && k.generation < self.high_water[logical_key(
            k,
        )]
    }

    /// The latest generation of a block, with one more written.
    pub open spec fn mark_after(self, k: ProtoBlockKey) -> u64 {
        if self.high_water.contains_key(logical_key(k)) && self.high_water[logical_key(k)]
            > k.generation {
            self.high_water[logical_key(k)]
        } else {
            k.generation
        }
    }

    /// Whether the count of the bytes in use can take `len` more.
    pub open spec fn counts(self, key: Option<ProtoBlockKey>, len: nat) -> bool {
        key matches Some(k) ==> (!self.stale(k) ==> self.ram_used + len <= u64::MAX)
    }

    pub open spec fn write(self, key: Option<ProtoBlockKey>, data: Seq<u8>) -> (
        StoreView,
        Result<(), StatusView>,
    ) {
        match key {
            None => (self, Err(missing_key())),
            Some(k) => if self.stale(k) {
                (
                    self,
                    Err(
                        StatusView { code: Code::FailedPrecondition, message: "stale generation"@ },
                    ),
                )
            } else if self.ram_used + data.len() > self.ram_budget {
                (
                    self,
                    Err(
                        StatusView {
                            code: Code::ResourceExhausted,
                            message: "ram budget exceeded"@,
                        },
                    ),
                )
            } else {
                (
                    StoreView {
                        blocks: self.blocks.insert(full_key(k), data),
                        high_water: self.high_water.insert(logical_key(k), self.mark_after(k)),
                        ram_used: wrap_minus(
                            (self.ram_used + data.len()) as u64,
                            self.block_len(full_key(k)),
                        ),
                        ..self
                    },
                    Ok(()),
                )
            },
        }
    }

    pub open spec fn delete(self, key: Option<ProtoBlockKey>) -> (
        StoreView,
        Result<(), StatusView>,
    ) {
        match key {
            None => (self, Err(missing_key())),
            Some(k) => (
                StoreView {
                    blocks: self.blocks.remove(full_key(k)),
                    high_water: self.high_water.remove(logical_key(k)),
                    ram_used: wrap_minus(self.ram_used, self.block_len(full_key(k))),
                    ..self
                },
                Ok(()),
            ),
        }
    }

    /// The node with a copy of a block that it got from another node.
    pub open spec fn copied(self, k: ProtoBlockKey, data: Seq<u8>) -> StoreView {
        StoreView {
            blocks: self.blocks.insert(full_key(k), data),
            ram_used: wrap_plus(self.ram_used, data.len() as int),
            ..self
        }
    }
}

} // verus!
