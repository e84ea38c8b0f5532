//! The RV64I general-purpose registers: identity, ABI class and name.

use vstd::prelude::*;

verus! {

/// The ABI class of a register.
#[derive(Debug, Clone, Copy, PartialEq, Eq, Structural)]
pub enum RegKind {
    /// zero, ra, sp, gp, tp: reserved for fixed purposes.
    Fixed,
    /// t0 to t6: caller-saved temporaries.
    Temporary,
    /// s0 to s11: callee-saved.
    Saved,
    /// a0 to a7: arguments and return values.
    Argument,
}

/// The class of the register with index `index`, for an index below 32.
pub open spec fn kind_of(index: u8) -> RegKind {
    if index <= 4 {
        RegKind::Fixed
    } else if index <= 7 || 28 <= index {
        RegKind::Temporary
    } else if index <= 9 || 18 <= index {
        RegKind::Saved
    } else {
        RegKind::Argument
    }
}

/// The ABI name of the register with index `index`, for an index below 32.
pub open spec fn abi_name_of(index: u8) -> &'static str {
    match index {
        0 => "zero",
        1 => "ra",
        2 => "sp",
        3 => "gp",
        4 => "tp",
        5 => "t0",
        6 => "t1",
        7 => "t2",
        8 => "s0/fp",
        9 => "s1",
        10 => "a0",
        11 => "a1",
        12 => "a2",
        13 => "a3",
        14 => "a4",
        15 => "a5",
        16 => "a6",
        17 => "a7",
        18 => "s2",
        19 => "s3",
        20 => "s4",
        21 => "s5",
        22 => "s6",
        23 => "s7",
        24 => "s8",
        25 => "s9",
        26 => "s10",
        27 => "s11",
        28 => "t3",
        29 => "t4",
        30 => "t5",
        _ => "t6",
    }
}

/// One of the 32 general-purpose registers, by its index.
#[derive(Debug, Clone, Copy, PartialEq, Eq, Structural)]
pub struct Register(u8);

impl Register {
    #[verifier::type_invariant]
    spec fn in_range(self) -> bool {
        self.0 < 32
    }

    /// The index of the register.
    pub closed spec fn index(self) -> u8 {
        self.0
    }

    /// The register with index `index`.
    pub fn from_raw(index: u8) -> (r: Self)
        requires
            index < 32,
        ensures
            r.index() == index,
    {
        Register(index)
    }

    /// The index of the register, which is below 32.
    pub fn raw(&self) -> (r: u8)
        ensures
            r == self.index(),
            r < 32,
    {
        proof {
            use_type_invariant(self);
        }
        self.0
    }

    /// The ABI class of the register.
    pub fn kind(&self) -> (r: RegKind)
        ensures
            r == kind_of(self.index()),
    {
        proof {
            use_type_invariant(self);
        }
        let i = self.0;
        if i <= 4 {
            RegKind::Fixed
        } else if i <= 7 || 28 <= i {
            RegKind::Temporary
        } else if i <= 9 || 18 <= i {
            RegKind::Saved
        } else {
            RegKind::Argument
        }
    }

    /// Whether a called procedure must restore the register before it
    /// returns.
    pub fn is_callee_saved(&self) -> (r: bool)
        ensures
            r == (kind_of(self.index()) == RegKind::Saved),
    {
        match self.kind() {
            RegKind::Saved => true,
            _ => false,
        }
    }

    /// The ABI name of the register.
    pub fn abi_name(&self) -> (r: &'static str)
        ensures
            r == abi_name_of(self.index()),
    {
        proof {
            use_type_invariant(self);
        }
        match self.0 {
            0 => "zero",
            1 => "ra",
            2 => "sp",
            3 => "gp",
            4 => "tp",
            5 => "t0",
            6 => "t1",
            7 => "t2",
            8 => "s0/fp",
            9 => "s1",
            10 => "a0",
            11 => "a1",
            12 => "a2",
            13 => "a3",
            14 => "a4",
            15 => "a5",
            16 => "a6",
            17 => "a7",
            18 => "s2",
            19 => "s3",
            20 => "s4",
            21 => "s5",
            22 => "s6",
            23 => "s7",
            24 => "s8",
            25 => "s9",
            26 => "s10",
            27 => "s11",
            28 => "t3",
            29 => "t4",
            30 => "t5",
            _ => "t6",
        }
    }
}

/// The register with index `i`.
pub open spec fn register_at(i: int) -> Register {
    choose|r: Register| r.index() == i
}

/// There is a register with each index.
pub proof fn lemma_register_exists(index: u8)
    ensures
        exists|r: Register| r.index() == index,
        register_at(index as int).index() == index,
{
    let r = Register(index);
    assert(r.index() == index);
}

/// Registers with one index are one register.
pub proof fn lemma_register_by_index(a: Register, b: Register)
    requires
        a.index() == b.index(),
    ensures
        a == b,
{
}

} // verus!
