use vstd::prelude::*;

verus! {

/// The modules that RPC methods are grouped in.
#[derive(Debug, Clone, Copy, PartialEq, Eq, Structural)]
pub enum AtlasModuleId {
    Auth,
    Chat,
    Holdem,
}

/// The number of a module on the wire.
pub open spec fn module_number(m: AtlasModuleId) -> u16 {
    match m {
        AtlasModuleId::Auth => 1,
        AtlasModuleId::Chat => 2,
        AtlasModuleId::Holdem => 3,
    }
}

/// The method id on the wire: the module number in the high 16 bits, the
/// method number in the low 16.
pub open spec fn wire_method(module: u16, method: u16) -> u32 {
    (module as int * 65536 + method as int) as u32
}

impl AtlasModuleId {
    /// The number of this module on the wire.
    pub fn number(&self) -> (r: u16)
        ensures
            r == module_number(*self),
    {
        match self {
            AtlasModuleId::Auth => 1,
            AtlasModuleId::Chat => 2,
            AtlasModuleId::Holdem => 3,
        }
    }
}

/// The method id on the wire of method `method` of module `module`.
pub fn wire_method_id(module: AtlasModuleId, method: u16) -> (r: u32)
    ensures
        r == wire_method(module_number(module), method),
{
    let m: u32 = module.number() as u32;
    m * 65536 + method as u32
}

/// The registration method of the auth module.
#[derive(Debug, Copy, Clone, PartialEq, Eq, Structural)]
pub struct RegisterRpc;

impl RegisterRpc {
    pub const MODULE_ID: AtlasModuleId = AtlasModuleId::Auth;
    pub const METHOD_ID: u16 = 1;
}

/// The password login method of the auth module.
#[derive(Debug, Copy, Clone, PartialEq, Eq, Structural)]
pub struct BasicAuthRpc;

impl BasicAuthRpc {
    pub const MODULE_ID: AtlasModuleId = AtlasModuleId::Auth;
    pub const METHOD_ID: u16 = 2;
}

/// The token login method of the auth module.
#[derive(Debug, Copy, Clone, PartialEq, Eq, Structural)]
pub struct TokenAuthRpc;

impl TokenAuthRpc {
    pub const MODULE_ID: AtlasModuleId = AtlasModuleId::Auth;
    pub const METHOD_ID: u16 = 3;
}

/// The methods of the hold'em module, each with its method number.
#[derive(Debug, Clone, Copy, PartialEq, Eq, Structural)]
pub enum HoldemMethod {
    GetTableList,
    GetTableInfo,
    SitTable,
    LeaveTable,
    GameAct,
    GameStart,
}

pub open spec fn holdem_method_number(m: HoldemMethod) -> u16 {
    match m {
        HoldemMethod::GetTableList => 1,
        HoldemMethod::GetTableInfo => 2,
        HoldemMethod::SitTable => 3,
        HoldemMethod::LeaveTable => 4,
        HoldemMethod::GameAct => 5,
        HoldemMethod::GameStart => 6,
    }
}

/// The hold'em method that a wire method id stands for, if any.
pub open spec fn holdem_method_of_spec(wire: u32) -> Option<HoldemMethod> {
    if wire == wire_method(3, 1) {
        Some(HoldemMethod::GetTableList)
    } else if wire == wire_method(3, 2) {
        Some(HoldemMethod::GetTableInfo)
    } else if wire == wire_method(3, 3) {
        Some(HoldemMethod::SitTable)
    } else if wire == wire_method(3, 4) {
        Some(HoldemMethod::LeaveTable)
    } else if wire == wire_method(3, 5) {
        Some(HoldemMethod::GameAct)
    } else if wire == wire_method(3, 6) {
        Some(HoldemMethod::GameStart)
    } else {
        None
    }
}

/// Each hold'em method is routed back from its wire id.
pub proof fn lemma_holdem_method_roundtrip(m: HoldemMethod)
    ensures
        holdem_method_of_spec(wire_method(module_number(AtlasModuleId::Holdem), holdem_method_number(m))) == Some(m),
{
}

impl HoldemMethod {
    /// The wire method id of this method.
    pub fn wire(&self) -> (r: u32)
        ensures
            r == wire_method(module_number(AtlasModuleId::Holdem), holdem_method_number(*self)),
    {
        let n: u16 = match self {
            HoldemMethod::GetTableList => 1,
            HoldemMethod::GetTableInfo => 2,
            HoldemMethod::SitTable => 3,
            HoldemMethod::LeaveTable => 4,
            HoldemMethod::GameAct => 5,
            HoldemMethod::GameStart => 6,
        };
        wire_method_id(AtlasModuleId::Holdem, n)
    }

    /// The hold'em method that the method id of a request names; `None`
    /// for a method that the module does not have.
    pub fn from_wire(wire: u32) -> (r: Option<HoldemMethod>)
        ensures
            r == holdem_method_of_spec(wire),
    {
        if wire == 196609 {
            Some(HoldemMethod::GetTableList)
        } else if wire == 196610 {
            Some(HoldemMethod::GetTableInfo)
        } else if wire == 196611 {
            Some(HoldemMethod::SitTable)
        } else if wire == 196612 {
            Some(HoldemMethod::LeaveTable)
        } else if wire == 196613 {
            Some(HoldemMethod::GameAct)
        } else if wire == 196614 {
            Some(HoldemMethod::GameStart)
        } else {
            None
        }
    }
}

} // verus!
