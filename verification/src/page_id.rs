use vstd::prelude::*;

verus! {

/// The screens of the device, by which a screen names the next one.
#[derive(Debug, Clone, Copy, PartialEq, Eq, Hash, Structural)]
pub enum PageId {
    Logo,
    Menu,
    ZeugtrisMenu,
    Zeugtris,
    Writing,
    WriteMenu,
}

} // verus!
