//! The notices that tell a client its user record changed.
use vstd::prelude::*;

verus! {

/// A decimal number as the user store keeps it: `mantissa / 10^scale`, with
/// a mantissa of at most 96 bits in magnitude and a scale of at most 28.
#[derive(Debug, Clone, Copy, PartialEq, Eq, Structural)]
pub struct DecimalAmount {
    pub mantissa: i128,
    pub scale: u32,
}

impl DecimalAmount {
    /// The range of the user store's decimals.
    pub open spec fn wf(self) -> bool {
        &&& self.scale <= 28
        &&& -0xffff_ffff_ffff_ffff_ffff_ffff <= self.mantissa <= 0xffff_ffff_ffff_ffff_ffff_ffff
    }

    /// The number `mantissa / 10^scale`, where it is in the range of the
    /// user store's decimals.
    pub fn from_parts(mantissa: i128, scale: u32) -> (r: Option<Self>)
        ensures
            r matches Some(d) ==> d.wf() && d.mantissa == mantissa && d.scale == scale,
            r is None <==> !(DecimalAmount { mantissa, scale }).wf(),
    {
        if scale <= 28 && -0xffff_ffff_ffff_ffff_ffff_ffff <= mantissa && mantissa <= 0xffff_ffff_ffff_ffff_ffff_ffff {
            Some(DecimalAmount { mantissa, scale })
        } else {
            None
        }
    }
}

/// A user's record changed.
#[derive(Debug, Clone)]
pub struct UserUpdateNotify {
    pub id: String,
    pub account: String,
    pub name: String,
    pub balance: DecimalAmount,
    pub avatar: Option<String>,
}

#[derive(Debug, Clone)]
pub struct UserUpdateNotify1 {
    pub id: String,
    pub account: String,
    pub name: String,
    pub balance: DecimalAmount,
    pub avatar: Option<String>,
}

#[derive(Debug, Clone)]
pub struct UserUpdateNotify2 {
    pub id: String,
    pub account: String,
    pub name: String,
    pub balance: DecimalAmount,
    pub avatar: Option<String>,
}

} // verus!
