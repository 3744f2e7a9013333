use crate::binary::matches_mask;
use vstd::prelude::*;

verus! {

#[derive(Clone, Copy, PartialEq, Eq, Debug, Structural)]
pub enum MemError {
    /// A store outside memory.
    SetOOB,
    /// A load outside memory.
    LoadOOB,
    /// A store to the read-only flash region.
    SetRO,
}

/// Whether a first halfword begins a 32-bit Thumb-2 encoding: its top five
/// bits are 0b11101, 0b11110 or 0b11111.
pub open spec fn starts_wide(hw: int) -> bool {
    0 <= hw < 0x10000 && ((hw as u32 & 0xE800) == 0xE800 || (hw as u32 & 0xF000) == 0xF000)
}

/// Why a program image could not be laid out.
#[derive(Clone, Copy, PartialEq, Eq, Debug, Structural)]
pub enum LayoutError {
    /// Flash and RAM together exceed the address space.
    TooLarge,
    /// RAM would be mapped over flash.
    Overlap,
    /// A segment does not fit in memory.
    SegmentOutside,
}

/// Byte-addressed memory: flash, then RAM, in one physical array. Virtual
/// addresses from `ram_start` up map to the physical bytes after flash.
#[derive(Clone)]
pub struct Memory {
    pub entrypoint: usize,
    pub memory: Vec<u8>,
    pub is_little_endian: bool,
    pub flash_start: u32,
    pub flash_size: u32,
    pub ram_start: u32,
    /// Function symbols: address and name.
    pub functions: Vec<(u64, String)>,
}

impl Memory {
    pub open spec fn wf(self) -> bool {
        &&& self.flash_size <= self.ram_start
        &&& self.memory@.len() <= u32::MAX
    }

    /// The physical index of a virtual address.
    pub open spec fn phys(self, vaddr: u32) -> int {
        if vaddr >= self.ram_start {
            vaddr - self.ram_start + self.flash_size
        } else {
            vaddr as int
        }
    }

    pub open spec fn byte(self, a: int) -> int {
        self.memory@[a] as int
    }

    /// The value of `n` bytes from physical index `a`, in the memory's order.
    pub open spec fn value(self, a: int, n: nat) -> int
        decreases n,
    {
        if n == 0 {
            0
        } else if self.is_little_endian {
            self.byte(a) + 256 * self.value(a + 1, (n - 1) as nat)
        } else {
            self.byte(a + n - 1) + 256 * self.value(a, (n - 1) as nat)
        }
    }

    /// Whether the whole instruction at `vaddr` (one halfword, or two when the
    /// first begins a 32-bit encoding) lies in memory.
    pub open spec fn instruction_in_memory(self, vaddr: u32) -> bool {
        &&& self.phys(vaddr) + 2 <= self.memory@.len()
        &&& starts_wide(self.value(self.phys(vaddr), 2)) ==> vaddr as int + 2 <= u32::MAX && self.phys(
            (vaddr + 2) as u32,
        ) + 2 <= self.memory@.len()
    }

    /// The instruction word at `vaddr`: the halfword there, or, when it begins
    /// a 32-bit encoding, it in the high half and the next halfword in the low.
    pub open spec fn instruction_at(self, vaddr: u32) -> int {
        let hw1 = self.value(self.phys(vaddr), 2);
        if starts_wide(hw1) {
            hw1 * 0x1_0000 + self.value(self.phys((vaddr + 2) as u32), 2)
        } else {
            hw1
        }
    }

    pub open spec fn read_only(self, a: int) -> bool {
        a < self.flash_start + self.flash_size
    }

    /// Lays out a program image: `flash_size + ram_size` zero bytes, then
    /// each segment's bytes from its physical address on.
    pub fn from_image(
        flash_start: u32,
        flash_size: u32,
        ram_start: u32,
        ram_size: u32,
        entrypoint: usize,
        is_little_endian: bool,
        segments: &Vec<(u32, Vec<u8>)>,
        functions: Vec<(u64, String)>,
    ) -> (r: Result<Memory, LayoutError>)
        ensures
            flash_size as int + ram_size as int > u32::MAX ==> r == Err::<Memory, LayoutError>(LayoutError::TooLarge),
            flash_size as int + ram_size as int <= u32::MAX && flash_size > ram_start ==> r == Err::<
                Memory,
                LayoutError,
            >(LayoutError::Overlap),
            r is Ok ==> {
                let m = r->Ok_0;
                &&& m.wf()
                &&& m.memory@.len() == flash_size + ram_size
                &&& m.flash_start == flash_start && m.flash_size == flash_size && m.ram_start == ram_start
                &&& m.entrypoint == entrypoint && m.is_little_endian == is_little_endian
            },
            r is Ok <==> (flash_size as int + ram_size as int <= u32::MAX && flash_size <= ram_start && forall|s: int|
                0 <= s < segments@.len() ==> #[trigger] segments@[s].0 + segments@[s].1@.len() <= flash_size + ram_size),
            r == Err::<Memory, LayoutError>(LayoutError::SegmentOutside) <==> (flash_size as int + ram_size as int
                <= u32::MAX && flash_size <= ram_start && exists|s: int|
                0 <= s < segments@.len() && #[trigger] segments@[s].0 + segments@[s].1@.len() > flash_size
                    + ram_size),
    {
        if flash_size as u64 + ram_size as u64 > u32::MAX as u64 {
            return Err(LayoutError::TooLarge);
        }
        if flash_size > ram_start {
            return Err(LayoutError::Overlap);
        }
        let size: usize = (flash_size + ram_size) as usize;
        let mut s: usize = 0;
        while s < segments.len()
            invariant
                s <= segments@.len(),
                size == flash_size + ram_size,
                flash_size as int + ram_size as int <= u32::MAX,
                flash_size <= ram_start,
                forall|t: int| 0 <= t < s ==> #[trigger] segments@[t].0 + segments@[t].1@.len() <= size,
            decreases segments@.len() - s,
        {
            if segments[s].0 as usize > size || segments[s].1.len() > size - segments[s].0 as usize {
                proof {
                    assert(segments@[s as int].0 + segments@[s as int].1@.len() > size);
                }
                return Err(LayoutError::SegmentOutside);
            }
            s = s + 1;
        }
        let mut memory: Vec<u8> = Vec::new();
        let mut n: usize = 0;
        while n < size
            invariant
                n <= size,
                memory@.len() == n,
            decreases size - n,
        {
            memory.push(0);
            n = n + 1;
        }
        let mut s: usize = 0;
        while s < segments.len()
            invariant
                s <= segments@.len(),
                memory@.len() == size,
                size == flash_size + ram_size,
                flash_size as int + ram_size as int <= u32::MAX,
                flash_size <= ram_start,
                forall|t: int| 0 <= t < segments@.len() ==> #[trigger] segments@[t].0 + segments@[t].1@.len() <= size,
            decreases segments@.len() - s,
        {
            let base = segments[s].0 as usize;
            let bytes = &segments[s].1;
            let mut k: usize = 0;
            while k < bytes.len()
                invariant
                    k <= bytes@.len(),
                    memory@.len() == size,
                    base + bytes@.len() <= size,
                decreases bytes@.len() - k,
            {
                memory.set(base + k, bytes[k]);
                k = k + 1;
            }
            s = s + 1;
        }
        Ok(Memory { entrypoint, memory, is_little_endian, flash_start, flash_size, ram_start, functions })
    }

    /// The name of the function at `addr`, if it is a function symbol.
    pub fn get_function_at(&self, addr: u32) -> (r: Option<&String>)
        ensures
            r.is_some() <==> exists|k: int| 0 <= k < self.functions@.len() && #[trigger] self.functions@[k].0 == addr,
            r matches Some(name) ==> exists|k: int|
                0 <= k < self.functions@.len() && #[trigger] self.functions@[k].0 == addr && self.functions@[k].1 == *name,
    {
        let mut k: usize = 0;
        while k < self.functions.len()
            invariant
                k <= self.functions@.len(),
                forall|j: int| 0 <= j < k ==> #[trigger] self.functions@[j].0 != addr,
            decreases self.functions@.len() - k,
        {
            if self.functions[k].0 == addr as u64 {
                return Some(&self.functions[k].1);
            }
            k = k + 1;
        }
        None
    }

    /// Memory map: virtual to physical.
    pub fn mm(&self, addr: u32) -> (r: u32)
        requires
            self.wf(),
        ensures
            r == self.phys(addr),
    {
        if addr >= self.ram_start {
            addr - self.ram_start + self.flash_size
        } else {
            addr
        }
    }

    pub fn get_byte_nolog(&self, vaddr: u32) -> (r: u8)
        requires
            self.wf(),
            self.phys(vaddr) < self.memory@.len(),
        ensures
            r == self.byte(self.phys(vaddr)),
    {
        self.memory[self.mm(vaddr) as usize]
    }

    pub fn get_halfword_nolog(&self, vaddr: u32) -> (r: u16)
        requires
            self.wf(),
            self.phys(vaddr) + 2 <= self.memory@.len(),
        ensures
            r == self.value(self.phys(vaddr), 2),
    {
        let addr = self.mm(vaddr) as usize;
        let b0 = self.memory[addr] as u16;
        let b1 = self.memory[addr + 1] as u16;
        proof {
            reveal_with_fuel(Memory::value, 3);
        }
        if self.is_little_endian {
            b0 + 256 * b1
        } else {
            b0 * 256 + b1
        }
    }

    pub fn set_byte_nolog(&mut self, vaddr: u32, value: u8)
        requires
            old(self).wf(),
            old(self).phys(vaddr) < old(self).memory@.len(),
        ensures
            final(self).memory@ == old(self).memory@.update(old(self).phys(vaddr), value),
            final(self).wf(),
            final(self).flash_start == old(self).flash_start,
            final(self).flash_size == old(self).flash_size,
            final(self).ram_start == old(self).ram_start,
            final(self).is_little_endian == old(self).is_little_endian,
    {
        let a = self.mm(vaddr) as usize;
        self.memory.set(a, value);
    }

    pub fn get_byte(&self, vaddr: u32) -> (r: Result<u8, MemError>)
        requires
            self.wf(),
        ensures
            self.phys(vaddr) >= self.memory@.len() ==> r == Err::<u8, MemError>(MemError::LoadOOB),
            self.phys(vaddr) < self.memory@.len() ==> r == Ok::<u8, MemError>(self.memory@[self.phys(vaddr)]),
    {
        let addr = self.mm(vaddr) as usize;
        if addr >= self.memory.len() {
            Err(MemError::LoadOOB)
        } else {
            Ok(self.memory[addr])
        }
    }

    pub fn get_halfword(&self, vaddr: u32) -> (r: Result<u16, MemError>)
        requires
            self.wf(),
        ensures
            self.phys(vaddr) + 2 > self.memory@.len() ==> r == Err::<u16, MemError>(MemError::LoadOOB),
            self.phys(vaddr) + 2 <= self.memory@.len() ==> (r matches Ok(v) && v == self.value(self.phys(vaddr), 2)),
    {
        let addr = self.mm(vaddr) as usize;
        if addr >= self.memory.len() || self.memory.len() - addr < 2 {
            Err(MemError::LoadOOB)
        } else {
            let b0 = self.memory[addr] as u16;
            let b1 = self.memory[addr + 1] as u16;
            proof {
                reveal_with_fuel(Memory::value, 3);
            }
            if self.is_little_endian {
                Ok(b0 + 256 * b1)
            } else {
                Ok(b0 * 256 + b1)
            }
        }
    }

    pub fn get_word(&self, vaddr: u32) -> (r: Result<u32, MemError>)
        requires
            self.wf(),
        ensures
            self.phys(vaddr) + 4 > self.memory@.len() ==> r == Err::<u32, MemError>(MemError::LoadOOB),
            self.phys(vaddr) + 4 <= self.memory@.len() ==> (r matches Ok(v) && v == self.value(self.phys(vaddr), 4)),
    {
        let addr = self.mm(vaddr) as usize;
        if addr >= self.memory.len() || self.memory.len() - addr < 4 {
            Err(MemError::LoadOOB)
        } else {
            let b0 = self.memory[addr] as u32;
            let b1 = self.memory[addr + 1] as u32;
            let b2 = self.memory[addr + 2] as u32;
            let b3 = self.memory[addr + 3] as u32;
            proof {
                reveal_with_fuel(Memory::value, 5);
            }
            if self.is_little_endian {
                Ok(b0 + 256 * (b1 + 256 * (b2 + 256 * b3)))
            } else {
                Ok(((b0 * 256 + b1) * 256 + b2) * 256 + b3)
            }
        }
    }

    /// The word at `vaddr`, most significant byte first whatever the
    /// memory's order.
    pub fn get_word_be(&self, vaddr: u32) -> (r: Result<u32, MemError>)
        requires
            self.wf(),
        ensures
            self.phys(vaddr) + 4 > self.memory@.len() ==> r == Err::<u32, MemError>(MemError::LoadOOB),
            self.phys(vaddr) + 4 <= self.memory@.len() ==> (r matches Ok(v) && v == ((self.byte(self.phys(vaddr))
                * 256 + self.byte(self.phys(vaddr) + 1)) * 256 + self.byte(self.phys(vaddr) + 2)) * 256
                + self.byte(self.phys(vaddr) + 3)),
    {
        let addr = self.mm(vaddr) as usize;
        if addr >= self.memory.len() || self.memory.len() - addr < 4 {
            Err(MemError::LoadOOB)
        } else {
            let b0 = self.memory[addr] as u32;
            let b1 = self.memory[addr + 1] as u32;
            let b2 = self.memory[addr + 2] as u32;
            let b3 = self.memory[addr + 3] as u32;
            Ok(((b0 * 256 + b1) * 256 + b2) * 256 + b3)
        }
    }

    /// The instruction word at `vaddr`: a halfword, or, when that halfword
    /// begins a 32-bit encoding, it in the high half and the next in the low.
    pub fn get_instruction(&self, vaddr: u32) -> (r: Result<u32, MemError>)
        requires
            self.wf(),
        ensures
            self.phys(vaddr) + 2 > self.memory@.len() ==> r == Err::<u32, MemError>(MemError::LoadOOB),
            self.instruction_in_memory(vaddr) <==> r is Ok,
            r matches Ok(w) ==> w == self.instruction_at(vaddr),
            r matches Ok(w) ==> {
                let hw1 = self.value(self.phys(vaddr), 2);
                if starts_wide(hw1) {
                    &&& vaddr as int + 2 <= u32::MAX
                    &&& w == hw1 * 0x1_0000 + self.value(self.phys((vaddr + 2) as u32), 2)
                    &&& w >= 0x10000
                } else {
                    w == hw1 && w < 0x10000
                }
            },
    {
        let hw1 = match self.get_halfword(vaddr) {
            Ok(h) => h as u32,
            Err(e) => {
                return Err(e);
            },
        };
        if matches_mask(hw1, 0xE800) || matches_mask(hw1, 0xF000) {
            assert(hw1 >= 0xE000) by (bit_vector)
                requires
                    (hw1 & 0xE800) == 0xE800 || (hw1 & 0xF000) == 0xF000,
            ;
            if vaddr > u32::MAX - 2 {
                return Err(MemError::LoadOOB);
            }
            let hw2 = match self.get_halfword(vaddr + 2) {
                Ok(h) => h as u32,
                Err(e) => {
                    return Err(e);
                },
            };
            Ok(hw1 * 0x1_0000 + hw2)
        } else {
            Ok(hw1)
        }
    }

    pub fn set_word(&mut self, vaddr: u32, value: u32) -> (r: Result<(), MemError>)
        requires
            old(self).wf(),
        ensures
            final(self).wf(),
            final(self).memory@.len() == old(self).memory@.len(),
            final(self).flash_start == old(self).flash_start && final(self).flash_size == old(self).flash_size
                && final(self).ram_start == old(self).ram_start && final(self).is_little_endian
                == old(self).is_little_endian,
            old(self).read_only(old(self).phys(vaddr)) ==> r == Err::<(), MemError>(MemError::SetRO),
            !old(self).read_only(old(self).phys(vaddr)) && old(self).phys(vaddr) + 4 > old(self).memory@.len() ==> r
                == Err::<(), MemError>(MemError::SetOOB),
            !old(self).read_only(old(self).phys(vaddr)) && old(self).phys(vaddr) + 4 <= old(self).memory@.len() ==> r is Ok,
            r is Err ==> final(self).memory@ == old(self).memory@,
            r is Ok ==> final(self).value(old(self).phys(vaddr), 4) == value && forall|a: int|
                0 <= a < old(self).memory@.len() && !(old(self).phys(vaddr) <= a < old(self).phys(vaddr) + 4)
                    ==> #[trigger] final(self).memory@[a] == old(self).memory@[a],
    {
        let addr = self.mm(vaddr) as usize;
        if (addr as u64) < self.flash_start as u64 + self.flash_size as u64 {
            return Err(MemError::SetRO);
        }
        if addr >= self.memory.len() || self.memory.len() - addr < 4 {
            return Err(MemError::SetOOB);
        }
        let b0 = (value % 256) as u8;
        let b1 = ((value / 256) % 256) as u8;
        let b2 = ((value / 0x1_0000) % 256) as u8;
        let b3 = (value / 0x100_0000) as u8;
        proof {
            assert((value as int) / 0x100_0000 < 256) by (nonlinear_arith)
                requires
                    0 <= value < 0x1_0000_0000,
            ;
        }
        if self.is_little_endian {
            self.memory.set(addr, b0);
            self.memory.set(addr + 1, b1);
            self.memory.set(addr + 2, b2);
            self.memory.set(addr + 3, b3);
        } else {
            self.memory.set(addr, b3);
            self.memory.set(addr + 1, b2);
            self.memory.set(addr + 2, b1);
            self.memory.set(addr + 3, b0);
        }
        proof {
            reveal_with_fuel(Memory::value, 5);
        }
        Ok(())
    }

    pub fn set_halfword(&mut self, vaddr: u32, value: u16) -> (r: Result<(), MemError>)
        requires
            old(self).wf(),
        ensures
            final(self).wf(),
            final(self).memory@.len() == old(self).memory@.len(),
            final(self).flash_start == old(self).flash_start && final(self).flash_size == old(self).flash_size
                && final(self).ram_start == old(self).ram_start && final(self).is_little_endian
                == old(self).is_little_endian,
            old(self).read_only(old(self).phys(vaddr)) ==> r == Err::<(), MemError>(MemError::SetRO),
            !old(self).read_only(old(self).phys(vaddr)) && old(self).phys(vaddr) + 2 > old(self).memory@.len() ==> r
                == Err::<(), MemError>(MemError::SetOOB),
            !old(self).read_only(old(self).phys(vaddr)) && old(self).phys(vaddr) + 2 <= old(self).memory@.len() ==> r is Ok,
            r is Err ==> final(self).memory@ == old(self).memory@,
            r is Ok ==> final(self).value(old(self).phys(vaddr), 2) == value && forall|a: int|
                0 <= a < old(self).memory@.len() && !(old(self).phys(vaddr) <= a < old(self).phys(vaddr) + 2)
                    ==> #[trigger] final(self).memory@[a] == old(self).memory@[a],
    {
        let addr = self.mm(vaddr) as usize;
        if (addr as u64) < self.flash_start as u64 + self.flash_size as u64 {
            return Err(MemError::SetRO);
        }
        if addr >= self.memory.len() || self.memory.len() - addr < 2 {
            return Err(MemError::SetOOB);
        }
        let lo = (value % 256) as u8;
        let hi = (value / 256) as u8;
        if self.is_little_endian {
            self.memory.set(addr, lo);
            self.memory.set(addr + 1, hi);
        } else {
            self.memory.set(addr, hi);
            self.memory.set(addr + 1, lo);
        }
        proof {
            reveal_with_fuel(Memory::value, 3);
        }
        Ok(())
    }

    pub fn set_byte(&mut self, vaddr: u32, value: u8) -> (r: Result<(), MemError>)
        requires
            old(self).wf(),
        ensures
            final(self).wf(),
            final(self).memory@.len() == old(self).memory@.len(),
            final(self).flash_start == old(self).flash_start && final(self).flash_size == old(self).flash_size
                && final(self).ram_start == old(self).ram_start && final(self).is_little_endian
                == old(self).is_little_endian,
            old(self).read_only(old(self).phys(vaddr)) ==> r == Err::<(), MemError>(MemError::SetRO),
            !old(self).read_only(old(self).phys(vaddr)) && old(self).phys(vaddr) >= old(self).memory@.len() ==> r
                == Err::<(), MemError>(MemError::SetOOB),
            !old(self).read_only(old(self).phys(vaddr)) && old(self).phys(vaddr) + 1 <= old(self).memory@.len() ==> r is Ok,
            r is Err ==> final(self).memory@ == old(self).memory@,
            r is Ok ==> final(self).memory@ == old(self).memory@.update(old(self).phys(vaddr), value),
    {
        let addr = self.mm(vaddr) as usize;
        if (addr as u64) < self.flash_start as u64 + self.flash_size as u64 {
            Err(MemError::SetRO)
        } else if addr >= self.memory.len() {
            Err(MemError::SetOOB)
        } else {
            self.memory.set(addr, value);
            Ok(())
        }
    }
}

} // verus!
