//! The console's address space: 64 KiB of bytes with fixed regions.

use vstd::prelude::*;
use vstd::slice::slice_subrange;
use crate::rom_loader::Cartridge;

verus! {

pub const MEM_START: usize = 0x0000;
pub const MEM_SIZE: usize = 0x10000;
pub const SPRITE_SHEET_1_START: usize = 0x0000;
pub const SPRITE_SHEET_1_END: usize = 0x0fff;
pub const SPRITE_SHEET_2_START: usize = 0x1000;
pub const SPRITE_SHEET_2_END: usize = 0x2000;
pub const MAP_ROWS_0_31_START: usize = 0x2000;
pub const MAP_ROWS_0_31_END: usize = 0x3000;
pub const SPRITE_FLAGS_START: usize = 0x3000;
pub const SPRITE_FLAGS_END: usize = 0x3100;
pub const MUSIC_START: usize = 0x3100;
pub const MUSIC_END: usize = 0x3200;
pub const SFX_START: usize = 0x3200;
pub const SFX_END: usize = 0x4300;
pub const WORK_RAM_START: usize = 0x4300;
pub const WORK_RAM_END: usize = 0x5600;
pub const CUSTOM_FONT_START: usize = 0x5600;
pub const CUSTOM_FONT_END: usize = 0x5e00;
pub const CART_DATA_START: usize = 0x5e00;
pub const CART_DATA_END: usize = 0x5f00;
pub const DRAW_STATE_START: usize = 0x5f00;
pub const DRAW_STATE_END: usize = 0x5f40;
pub const HARDWARE_STATE_START: usize = 0x5f40;
pub const HARDWARE_STATE_END: usize = 0x5f80;
pub const GPIO_START: usize = 0x5f80;
pub const GPIO_END: usize = 0x6000;
pub const SCREEN_START: usize = 0x6000;
pub const SCREEN_END: usize = 0x8000;
pub const EXTENDED_RAM_START: usize = 0x8000;
pub const EXTENDED_RAM_END: usize = 0x10000;

/// Why a cartridge could not be put into memory.
#[derive(Clone, Copy, Debug, PartialEq, Eq, Structural)]
pub enum MemoryError {
    /// The data block is larger than the region it is copied to.
    DataTooLarge,
}

/// Address of the first byte of sprite number `sprite`: sprites lie 16 to
/// a row, 4 bytes apart, and rows are 512 bytes apart.
pub open spec fn sprite_addr(sprite: int) -> int {
    512 * (sprite / 16) + 4 * (sprite % 16)
}

/// Address of the map tile in column `x` of row `y`. Rows from 32 on are
/// addressed from the second sprite sheet, which they share.
pub open spec fn map_addr(x: int, y: int) -> int {
    if y < 32 {
        MAP_ROWS_0_31_START + y * 128 + x
    } else {
        SPRITE_SHEET_2_START + y * 128 + x
    }
}

/// Tells whether `len` bytes from `addr` on lie within memory.
pub fn in_memory(addr: usize, len: usize) -> (ok: bool)
    ensures
        ok == (addr + len <= MEM_SIZE),
{
    addr <= MEM_SIZE && len <= MEM_SIZE - addr
}

/// Tells whether the 64 bytes read for sprite number `sprite` lie within
/// memory.
pub fn sprite_in_memory(sprite: usize) -> (ok: bool)
    ensures
        ok == (sprite_addr(sprite as int) + 64 <= MEM_SIZE),
{
    sprite < 2048
}

/// Tells whether the map tile in column `x` of row `y` lies within memory.
pub fn tile_in_memory(x: usize, y: usize) -> (ok: bool)
    ensures
        ok == (map_addr(x as int, y as int) < MEM_SIZE),
{
    if y >= 512 || x >= MEM_SIZE {
        return false;
    }
    let offset: usize = y * 128 + x;
    if y < 32 {
        MAP_ROWS_0_31_START + offset < MEM_SIZE
    } else {
        SPRITE_SHEET_2_START + offset < MEM_SIZE
    }
}

/// The address space.
pub struct Memory {
    pub mem: Box<[u8; MEM_SIZE]>,
}

impl View for Memory {
    type V = Seq<u8>;

    open spec fn view(&self) -> Seq<u8> {
        self.mem@
    }
}

impl Memory {
    /// Memory filled with zeros.
    pub fn new() -> (m: Self)
        ensures
            m@.len() == MEM_SIZE,
            forall|i: int| 0 <= i < MEM_SIZE ==> #[trigger] m@[i] == 0,
    {
        Memory { mem: Box::new([0u8;MEM_SIZE]) }
    }

    /// Copies the data block of `cart` to the start of memory. A block
    /// that does not fit below the work RAM is refused and memory stays
    /// as it was.
    pub fn init(&mut self, cart: &Cartridge) -> (r: Result<(), MemoryError>)
        ensures
            final(self)@.len() == MEM_SIZE,
            match r {
                Ok(_) => {
                    &&& cart@.data.len() <= SFX_END
                    &&& forall|i: int|
                        0 <= i < cart@.data.len() ==> #[trigger] final(self)@[i] == cart@.data[i]
                    &&& forall|i: int|
                        cart@.data.len() <= i < MEM_SIZE ==> #[trigger] final(self)@[i] == old(
                            self,
                        )@[i]
                },
                Err(e) => {
                    &&& e == MemoryError::DataTooLarge
                    &&& cart@.data.len() > SFX_END
                    &&& final(self)@ == old(self)@
                },
            },
    {
        let data = cart.data();
        if data.len() > SFX_END - SPRITE_SHEET_1_START {
            return Err(MemoryError::DataTooLarge);
        }
        let mut i: usize = 0;
        while i < data.len()
            invariant
                i <= data@.len() <= SFX_END,
                data@ == cart@.data,
                forall|j: int| 0 <= j < i ==> #[trigger] self@[j] == data@[j],
                forall|j: int| i <= j < MEM_SIZE ==> #[trigger] self@[j] == old(self)@[j],
            decreases data@.len() - i,
        {
            self.write(i, data[i]);
            i = i + 1;
        }
        Ok(())
    }

    /// The byte at `addr`.
    pub fn read(&self, addr: usize) -> (val: u8)
        requires
            addr < MEM_SIZE,
        ensures
            val == self@[addr as int],
    {
        self.mem[addr]
    }

    /// Stores `val` at `addr`.
    pub fn write(&mut self, addr: usize, val: u8)
        requires
            addr < MEM_SIZE,
        ensures
            final(self)@ == old(self)@.update(addr as int, val),
    {
        self.mem[addr] = val;
    }

    /// Fills `len` bytes from `addr` on with `val`.
    pub fn set(&mut self, addr: usize, val: u8, len: usize)
        requires
            addr + len <= MEM_SIZE,
        ensures
            forall|i: int| addr <= i < addr + len ==> #[trigger] final(self)@[i] == val,
            forall|i: int|
                0 <= i < MEM_SIZE && !(addr <= i < addr + len) ==> #[trigger] final(self)@[i]
                    == old(self)@[i],
    {
        let mut i: usize = 0;
        while i < len
            invariant
                i <= len,
                addr + len <= MEM_SIZE,
                forall|j: int| addr <= j < addr + i ==> #[trigger] self@[j] == val,
                forall|j: int|
                    0 <= j < MEM_SIZE && !(addr <= j < addr + i) ==> #[trigger] self@[j] == old(
                        self,
                    )@[j],
            decreases len - i,
        {
            self.write(addr + i, val);
            i = i + 1;
        }
    }

    /// Copies `len` bytes from `src` to `dest`. The ranges may overlap:
    /// the destination receives what the source held before the call.
    pub fn copy(&mut self, dest: usize, src: usize, len: usize)
        requires
            src + len <= MEM_SIZE,
            dest + len <= MEM_SIZE,
        ensures
            forall|i: int|
                dest <= i < dest + len ==> #[trigger] final(self)@[i] == old(self)@[i - dest + src],
            forall|i: int|
                0 <= i < MEM_SIZE && !(dest <= i < dest + len) ==> #[trigger] final(self)@[i]
                    == old(self)@[i],
    {
        let mut temp: Vec<u8> = Vec::with_capacity(len);
        let mut i: usize = 0;
        while i < len
            invariant
                i <= len,
                src + len <= MEM_SIZE,
                self@ == old(self)@,
                temp@.len() == i,
                forall|j: int| 0 <= j < i ==> #[trigger] temp@[j] == old(self)@[src + j],
            decreases len - i,
        {
            temp.push(self.mem[src + i]);
            i = i + 1;
        }
        let mut k: usize = 0;
        while k < len
            invariant
                k <= len,
                dest + len <= MEM_SIZE,
                temp@.len() == len,
                forall|j: int| 0 <= j < len ==> #[trigger] temp@[j] == old(self)@[src + j],
                forall|j: int|
                    dest <= j < dest + k ==> #[trigger] self@[j] == old(self)@[j - dest + src],
                forall|j: int|
                    0 <= j < MEM_SIZE && !(dest <= j < dest + k) ==> #[trigger] self@[j] == old(
                        self,
                    )@[j],
            decreases len - k,
        {
            self.write(dest + k, temp[k]);
            k = k + 1;
        }
    }

    /// The bytes from `start` up to `end`, which is left out.
    fn region(&self, start: usize, end: usize) -> (bytes: &[u8])
        requires
            start <= end <= MEM_SIZE,
        ensures
            bytes@ == self@.subrange(start as int, end as int),
    {
        slice_subrange(self.mem.as_slice(), start, end)
    }

    /// The 64 bytes that start at the address of sprite number `sprite`.
    pub fn read_sprite(&self, sprite: usize) -> (bytes: &[u8])
        requires
            sprite_addr(sprite as int) + 64 <= MEM_SIZE,
        ensures
            bytes@ == self@.subrange(sprite_addr(sprite as int), sprite_addr(sprite as int) + 64),
    {
        let addr: usize = 512 * (sprite / 16) + 4 * (sprite % 16);
        self.region(addr, addr + 64)
    }

    /// The map tile in column `x` of row `y`.
    pub fn read_map_title(&self, x: usize, y: usize) -> (tile: u8)
        requires
            map_addr(x as int, y as int) < MEM_SIZE,
        ensures
            tile == self@[map_addr(x as int, y as int)],
    {
        let offset: usize = y * 128 + x;
        if y < 32 {
            self.mem[MAP_ROWS_0_31_START + offset]
        } else {
            self.mem[SPRITE_SHEET_2_START + offset]
        }
    }

    /// The sprite flags.
    pub fn sprite_flags(&self) -> (bytes: &[u8])
        ensures
            bytes@ == self@.subrange(0x3000, 0x3100),
    {
        self.region(0x3000, 0x3100)
    }

    /// The music region and the byte behind it.
    pub fn music(&self) -> (bytes: &[u8])
        ensures
            bytes@ == self@.subrange(MUSIC_START as int, MUSIC_END + 1),
    {
        self.region(MUSIC_START, MUSIC_END + 1)
    }

    /// The sound effects and the byte behind them.
    pub fn sound_effects(&self) -> (bytes: &[u8])
        ensures
            bytes@ == self@.subrange(SFX_START as int, SFX_END + 1),
    {
        self.region(SFX_START, SFX_END + 1)
    }

    /// The work RAM and the byte behind it.
    pub fn work_ram(&self) -> (bytes: &[u8])
        ensures
            bytes@ == self@.subrange(WORK_RAM_START as int, WORK_RAM_END + 1),
    {
        self.region(WORK_RAM_START, WORK_RAM_END + 1)
    }

    /// The custom font and the byte behind it.
    pub fn font_ram(&self) -> (bytes: &[u8])
        ensures
            bytes@ == self@.subrange(CUSTOM_FONT_START as int, CUSTOM_FONT_END + 1),
    {
        self.region(CUSTOM_FONT_START, CUSTOM_FONT_END + 1)
    }

    /// The persistent cartridge data and the byte behind it.
    pub fn cartridge_data(&self) -> (bytes: &[u8])
        ensures
            bytes@ == self@.subrange(CART_DATA_START as int, CART_DATA_END + 1),
    {
        self.region(CART_DATA_START, CART_DATA_END + 1)
    }

    /// The draw state and the byte behind it.
    pub fn draw_state(&self) -> (bytes: &[u8])
        ensures
            bytes@ == self@.subrange(DRAW_STATE_START as int, DRAW_STATE_END + 1),
    {
        self.region(DRAW_STATE_START, DRAW_STATE_END + 1)
    }

    /// The GPIO pins and the byte behind them.
    pub fn gpio_pins(&self) -> (bytes: &[u8])
        ensures
            bytes@ == self@.subrange(GPIO_START as int, GPIO_END + 1),
    {
        self.region(GPIO_START, GPIO_END + 1)
    }

    /// The frame buffer and the byte behind it.
    pub fn screen(&self) -> (bytes: &[u8])
        ensures
            bytes@ == self@.subrange(SCREEN_START as int, SCREEN_END + 1),
    {
        self.region(SCREEN_START, SCREEN_END + 1)
    }

    /// The extended RAM, up to the end of memory.
    pub fn extended_map(&self) -> (bytes: &[u8])
        ensures
            bytes@ == self@.subrange(EXTENDED_RAM_START as int, EXTENDED_RAM_END as int),
    {
        self.region(EXTENDED_RAM_START, EXTENDED_RAM_END)
    }
}

} // verus!
