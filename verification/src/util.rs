//! Machine architectures.
use vstd::prelude::*;
use crate::text::str_eq;

verus! {

/// A machine architecture, as `uname -m` names it.
#[derive(Debug, Clone, Copy, PartialEq, Eq, Structural)]
pub enum Arch {
    X86,
    X86_64,
    ArmV7l,
    AArch64,
    /// Any other.
    Nyani,
}

impl Default for Arch {
    fn default() -> (r: Self)
        ensures
            r == Arch::Nyani,
    {
        Arch::Nyani
    }
}

/// The architecture `uname -m` names `name`.
pub open spec fn arch_named(name: Seq<char>) -> Arch {
    if name == "i386"@ {
        Arch::X86
    } else if name == "x86_64"@ {
        Arch::X86_64
    } else if name == "armv7l"@ {
        Arch::ArmV7l
    } else if name == "aarch64"@ {
        Arch::AArch64
    } else {
        Arch::Nyani
    }
}

/// The name of a known architecture.
pub open spec fn arch_name(a: Arch) -> Seq<char> {
    match a {
        Arch::X86 => "i386"@,
        Arch::X86_64 => "x86_64"@,
        Arch::ArmV7l => "armv7l"@,
        Arch::AArch64 => "aarch64"@,
        Arch::Nyani => Seq::empty(),
    }
}

impl Arch {
    /// The architecture of a `uname -m` name; `Nyani` for names it does not know.
    pub fn from(value: &str) -> (r: Arch)
        ensures
            r == arch_named(value@),
    {
        if str_eq(value, "i386") {
            Arch::X86
        } else if str_eq(value, "x86_64") {
            Arch::X86_64
        } else if str_eq(value, "armv7l") {
            Arch::ArmV7l
        } else if str_eq(value, "aarch64") {
            Arch::AArch64
        } else {
            Arch::Nyani
        }
    }

    /// The `uname -m` name of a known architecture.
    pub fn to_str(self) -> (r: &'static str)
        requires
            self != Arch::Nyani,
        ensures
            r@ == arch_name(self),
    {
        match self {
            Arch::X86 => "i386",
            Arch::X86_64 => "x86_64",
            Arch::ArmV7l => "armv7l",
            _ => "aarch64",
        }
    }
}

/// Naming a known architecture and reading the name back gives it again, and
/// a known name read and named again is the same name.
pub proof fn law_arch_roundtrip(a: Arch, name: Seq<char>)
    ensures
        a != Arch::Nyani ==> arch_named(arch_name(a)) == a,
        arch_named(name) != Arch::Nyani ==> arch_name(arch_named(name)) == name,
{
    reveal_strlit("i386");
    reveal_strlit("x86_64");
    reveal_strlit("armv7l");
    reveal_strlit("aarch64");
    assert("x86_64"@[0] != "i386"@[0]);
    assert("armv7l"@[0] != "i386"@[0] && "armv7l"@[0] != "x86_64"@[0]);
    assert("aarch64"@[1] != "i386"@[1] && "aarch64"@[0] != "x86_64"@[0] && "aarch64"@[1] != "armv7l"@[1]);
}

} // verus!
