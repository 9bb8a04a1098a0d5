use vstd::prelude::*;

verus! {

/// CPU architecture tag of an OS descriptor, as named in the configuration.
#[derive(Debug, Clone, Copy, PartialEq, Eq, Structural)]
pub enum OSArchitecture {
    I386,
    Wow64,
    Amd64,
    Arm,
    Arm64,
}

impl OSArchitecture {
    /// Canonical architecture string, used in file names and in the index.
    pub open spec fn spec_str(self) -> Seq<char> {
        match self {
            OSArchitecture::I386 => "i386"@,
            OSArchitecture::Wow64 => "wow64"@,
            OSArchitecture::Amd64 => "amd64"@,
            OSArchitecture::Arm => "arm64.arm"@,
            OSArchitecture::Arm64 => "arm64"@,
        }
    }

    /// PE machine type value that binaries of this architecture carry.
    pub open spec fn spec_machine_type(self) -> u32 {
        match self {
            OSArchitecture::I386 => 0x14c,
            OSArchitecture::Wow64 => 0x14c,
            OSArchitecture::Amd64 => 0x8664,
            OSArchitecture::Arm => 0x1c0,
            OSArchitecture::Arm64 => 0xaa64,
        }
    }

    pub fn to_str(self) -> (r: &'static str)
        ensures
            r@ == self.spec_str(),
    {
        match self {
            OSArchitecture::I386 => "i386",
            OSArchitecture::Wow64 => "wow64",
            OSArchitecture::Amd64 => "amd64",
            OSArchitecture::Arm => "arm64.arm",
            OSArchitecture::Arm64 => "arm64",
        }
    }

    pub fn to_machine_type(self) -> (r: u32)
        ensures
            r == self.spec_machine_type(),
    {
        match self {
            OSArchitecture::I386 | OSArchitecture::Wow64 => 0x14c,
            OSArchitecture::Amd64 => 0x8664,
            OSArchitecture::Arm => 0x1c0,
            OSArchitecture::Arm64 => 0xaa64,
        }
    }
}

} // verus!
