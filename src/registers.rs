use vstd::prelude::*;

verus! {

/// The condition flags.
#[derive(Clone, Copy, PartialEq, Eq, Debug, Structural)]
pub struct ASPR {
    pub n: bool,
    pub z: bool,
    pub c: bool,
    pub v: bool,
}

/// A change to the condition flags: `None` leaves a flag as it is.
#[derive(Clone, Copy, PartialEq, Eq, Debug, Structural)]
pub struct ASPRUpdate {
    pub n: Option<bool>,
    pub z: Option<bool>,
    pub c: Option<bool>,
    pub v: Option<bool>,
}

pub open spec fn updated_flag(old: bool, u: Option<bool>) -> bool {
    match u {
        Some(b) => b,
        None => old,
    }
}

impl ASPRUpdate {
    pub fn no_update() -> (r: ASPRUpdate)
        ensures
            r == (ASPRUpdate { n: None, z: None, c: None, v: None }),
    {
        ASPRUpdate { n: None, z: None, c: None, v: None }
    }
}

impl ASPR {
    pub open spec fn after(self, u: ASPRUpdate) -> ASPR {
        ASPR {
            n: updated_flag(self.n, u.n),
            z: updated_flag(self.z, u.z),
            c: updated_flag(self.c, u.c),
            v: updated_flag(self.v, u.v),
        }
    }

    pub fn apply_aspr_update(&mut self, update: &ASPRUpdate)
        ensures
            *final(self) == old(self).after(*update),
    {
        if let Some(b) = update.n {
            self.n = b;
        }
        if let Some(b) = update.z {
            self.z = b;
        }
        if let Some(b) = update.c {
            self.c = b;
        }
        if let Some(b) = update.v {
            self.v = b;
        }
    }
}

/// The architectural register file: r0-r12, SP (r13), LR (r14), PC (r15) and
/// the flags, which read as registers 16 to 19 (N, Z, C, V).
#[derive(Clone, Copy)]
pub struct Registers {
    pub gp: [u32; 13],
    pub sp: u32,
    pub lr: u32,
    pub pc: u32,
    pub apsr: ASPR,
}

impl Registers {
    /// The value register `n` (below 20) reads as.
    pub open spec fn reg(self, n: int) -> u32 {
        if 0 <= n < 13 {
            self.gp[n]
        } else if n == 13 {
            self.sp
        } else if n == 14 {
            self.lr
        } else if n == 15 {
            self.pc
        } else if n == 16 {
            if self.apsr.n { 1 } else { 0 }
        } else if n == 17 {
            if self.apsr.z { 1 } else { 0 }
        } else if n == 18 {
            if self.apsr.c { 1 } else { 0 }
        } else {
            if self.apsr.v { 1 } else { 0 }
        }
    }

    pub fn new() -> (r: Registers)
        ensures
            forall|n: int| 0 <= n < 20 ==> #[trigger] r.reg(n) == 0,
    {
        Registers {
            gp: [0u32, 0, 0, 0, 0, 0, 0, 0, 0, 0, 0, 0, 0],
            sp: 0,
            lr: 0,
            pc: 0,
            apsr: ASPR { n: false, z: false, c: false, v: false },
        }
    }

    pub fn set(&mut self, index: u8, value: u32)
        requires
            index < 16,
        ensures
            final(self).apsr == old(self).apsr,
            forall|n: int|
                0 <= n < 20 ==> #[trigger] final(self).reg(n) == if n == index { value } else {
                    old(self).reg(n)
                },
    {
        if index < 13 {
            self.gp[index as usize] = value;
        } else if index == 13 {
            self.sp = value;
        } else if index == 14 {
            self.lr = value;
        } else {
            self.pc = value;
        }
    }

    pub fn get(&self, index: u8) -> (r: u32)
        requires
            index < 20,
        ensures
            r == self.reg(index as int),
    {
        if index < 13 {
            self.gp[index as usize]
        } else if index == 13 {
            self.sp
        } else if index == 14 {
            self.lr
        } else if index == 15 {
            self.pc
        } else if index == 16 {
            if self.apsr.n { 1 } else { 0 }
        } else if index == 17 {
            if self.apsr.z { 1 } else { 0 }
        } else if index == 18 {
            if self.apsr.c { 1 } else { 0 }
        } else {
            if self.apsr.v { 1 } else { 0 }
        }
    }

    /// The name a display gives register `id`: r0-r12, SP, LR, PC, then the
    /// flags N, Z, C, V.
    pub open spec fn reg_name(id: u8) -> Seq<char> {
        if id == 0 { "r0"@ } else if id == 1 { "r1"@ } else if id == 2 { "r2"@ } else if id == 3 { "r3"@ }
        else if id == 4 { "r4"@ } else if id == 5 { "r5"@ } else if id == 6 { "r6"@ } else if id == 7 { "r7"@ }
        else if id == 8 { "r8"@ } else if id == 9 { "r9"@ } else if id == 10 { "r10"@ } else if id == 11 { "r11"@ }
        else if id == 12 { "r12"@ } else if id == 13 { "SP"@ } else if id == 14 { "LR"@ } else if id == 15 { "PC"@ }
        else if id == 16 { "N"@ } else if id == 17 { "Z"@ } else if id == 18 { "C"@ } else { "V"@ }
    }

    pub fn reg_id_to_str(id: u8) -> (r: &'static str)
        requires
            id < 20,
        ensures
            r@ == Self::reg_name(id),
    {
        match id {
            0 => "r0",
            1 => "r1",
            2 => "r2",
            3 => "r3",
            4 => "r4",
            5 => "r5",
            6 => "r6",
            7 => "r7",
            8 => "r8",
            9 => "r9",
            10 => "r10",
            11 => "r11",
            12 => "r12",
            13 => "SP",
            14 => "LR",
            15 => "PC",
            16 => "N",
            17 => "Z",
            18 => "C",
            _ => "V",
        }
    }

    pub fn apply_aspr_update(&mut self, update: &ASPRUpdate)
        ensures
            final(self).apsr == old(self).apsr.after(*update),
            forall|n: int| 0 <= n < 16 ==> #[trigger] final(self).reg(n) == old(self).reg(n),
    {
        self.apsr.apply_aspr_update(update);
    }
}

} // verus!
