use crate::registers::Registers;
use vstd::prelude::*;

verus! {

/// The symbols every program image must define.
#[derive(Clone, Copy, PartialEq, Eq, Debug, Structural)]
pub enum RequiredSymbol {
    Flash,
    Ram,
    FlashSize,
    RamSize,
    StackSize,
}

/// Where flash and RAM lie, as a program image's symbols give them.
#[derive(Clone, Copy, PartialEq, Eq, Debug, Structural)]
pub struct ImageLayout {
    pub flash: u32,
    pub flash_size: u32,
    pub ram: u32,
    pub ram_size: u32,
}

/// The value of the last symbol named `name`, if any.
pub open spec fn symbol_value(symbols: Seq<(String, u64)>, name: Seq<char>) -> Option<u64>
    decreases symbols.len(),
{
    if symbols.len() == 0 {
        None
    } else if symbols.last().0@ == name {
        Some(symbols.last().1)
    } else {
        symbol_value(symbols.drop_last(), name)
    }
}

/// See `symbol_value`.
pub fn lookup(symbols: &Vec<(String, u64)>, name: &str) -> (r: Option<u64>)
    ensures
        r == symbol_value(symbols@, name@),
{
    let wanted = name.to_owned();
    let mut k: usize = symbols.len();
    proof {
        assert(symbols@.take(k as int) =~= symbols@);
    }
    while k > 0
        invariant
            k <= symbols@.len(),
            wanted@ == name@,
            symbol_value(symbols@, name@) == symbol_value(symbols@.take(k as int), name@),
        decreases k,
    {
        proof {
            assert(symbols@.take(k as int).drop_last() =~= symbols@.take(k - 1));
        }
        if symbols[k - 1].0 == wanted {
            return Some(symbols[k - 1].1);
        }
        k = k - 1;
    }
    None
}

/// The low 32 bits of a symbol value.
pub open spec fn low_word(v: u64) -> u32 {
    (v % 0x1_0000_0000) as u32
}

fn truncate(v: u64) -> (r: u32)
    ensures
        r == low_word(v),
{
    (v % 0x1_0000_0000) as u32
}

/// The layout of an image from its symbols `__flash`, `__ram`,
/// `__flash_size`, `__ram_size`, which it must define, as it must
/// `__stack_size`; the first one missing, in that order, is the error.
pub fn layout_from_symbols(symbols: &Vec<(String, u64)>) -> (r: Result<ImageLayout, RequiredSymbol>)
    ensures
        symbol_value(symbols@, "__flash"@).is_none() ==> r == Err::<ImageLayout, RequiredSymbol>(RequiredSymbol::Flash),
        symbol_value(symbols@, "__flash"@).is_some() && symbol_value(symbols@, "__ram"@).is_none() ==> r == Err::<
            ImageLayout,
            RequiredSymbol,
        >(RequiredSymbol::Ram),
        r is Ok <==> (symbol_value(symbols@, "__flash"@).is_some() && symbol_value(symbols@, "__ram"@).is_some()
            && symbol_value(symbols@, "__flash_size"@).is_some() && symbol_value(symbols@, "__ram_size"@).is_some()
            && symbol_value(symbols@, "__stack_size"@).is_some()),
        r matches Ok(l) ==> l == (ImageLayout {
            flash: low_word(symbol_value(symbols@, "__flash"@).unwrap()),
            flash_size: low_word(symbol_value(symbols@, "__flash_size"@).unwrap()),
            ram: low_word(symbol_value(symbols@, "__ram"@).unwrap()),
            ram_size: low_word(symbol_value(symbols@, "__ram_size"@).unwrap()),
        }),
{
    let flash = match lookup(symbols, "__flash") {
        Some(v) => v,
        None => {
            return Err(RequiredSymbol::Flash);
        },
    };
    let ram = match lookup(symbols, "__ram") {
        Some(v) => v,
        None => {
            return Err(RequiredSymbol::Ram);
        },
    };
    let flash_size = match lookup(symbols, "__flash_size") {
        Some(v) => v,
        None => {
            return Err(RequiredSymbol::FlashSize);
        },
    };
    let ram_size = match lookup(symbols, "__ram_size") {
        Some(v) => v,
        None => {
            return Err(RequiredSymbol::RamSize);
        },
    };
    if lookup(symbols, "__stack_size").is_none() {
        return Err(RequiredSymbol::StackSize);
    }
    Ok(
        ImageLayout {
            flash: truncate(flash),
            flash_size: truncate(flash_size),
            ram: truncate(ram),
            ram_size: truncate(ram_size),
        },
    )
}

/// The register file a program starts with: all zero but the stack pointer,
/// at the top of RAM, and the PC, at the entry point with its Thumb bit
/// cleared.
pub fn initial_registers(layout: &ImageLayout, entry: u64) -> (r: Registers)
    ensures
        r.sp == (layout.ram + layout.ram_size) % 0x1_0000_0000,
        r.pc == low_word(if entry > 0 { (entry - 1) as u64 } else { 0 }),
        forall|n: int| 0 <= n < 13 ==> #[trigger] r.reg(n) == 0,
        r.lr == 0,
{
    let mut regs = Registers::new();
    proof {
        assert forall|n: int| 0 <= n < 13 implies regs.gp[n] == 0 by {
            assert(regs.reg(n) == 0);
        }
        assert(regs.reg(14) == 0);
    }
    regs.sp = layout.ram.wrapping_add(layout.ram_size);
    regs.pc = truncate(if entry > 0 { entry - 1 } else { 0 });
    regs
}

} // verus!
