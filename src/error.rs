use vstd::prelude::*;

verus! {

/// Data read from the kernel that does not have the shape this library expects.
#[derive(Clone, Copy, Debug, PartialEq, Eq, Structural)]
pub enum DecodeError {
    /// A record whose length differs from the fixed size of its layout.
    Length { expected: usize, found: usize },
    /// A map-kind code outside the known enumeration.
    MapType { code: u64 },
    /// A metadata field that is present but is not a number of the expected form.
    Field,
}

} // verus!
