use vstd::prelude::*;

verus! {

/// Generation-checked identity of a window: a slot index and the generation
/// that slot had when the window was created. The generation is never zero.
#[derive(Clone, Copy, Debug, PartialEq, Eq, Hash, Structural)]
pub struct WindowId {
    pub index: u32,
    pub gen: u32,
}

impl WindowId {
    /// Builds an id from its parts; the generation must be non-zero.
    pub fn from_parts(index: u32, gen: u32) -> (r: WindowId)
        requires
            gen != 0,
        ensures
            r.index == index,
            r.gen == gen,
    {
        WindowId { index, gen }
    }

    pub fn index(&self) -> (r: u32)
        ensures
            r == self.index,
    {
        self.index
    }

    pub fn generation(&self) -> (r: u32)
        ensures
            r == self.gen,
    {
        self.gen
    }
}

/// Opaque reverse-lookup key of a desktop surface: the non-null address of
/// the foreign handle. Equality and hashing go by that address.
#[derive(Clone, Copy, Debug, PartialEq, Eq, Hash, Structural)]
pub struct DesktopKey(pub usize);

/// Opaque reverse-lookup key of a surface: the non-null address of the
/// foreign handle. Equality and hashing go by that address.
#[derive(Clone, Copy, Debug, PartialEq, Eq, Hash, Structural)]
pub struct SurfaceKey(pub usize);

impl DesktopKey {
    /// Wraps a handle address; a null address yields no key.
    pub fn from_addr(addr: usize) -> (r: Option<DesktopKey>)
        ensures
            r is Some <==> addr != 0,
            r is Some ==> r.unwrap().0 == addr,
    {
        if addr == 0 {
            None
        } else {
            Some(DesktopKey(addr))
        }
    }

    /// The address of the handle this key was made from.
    pub fn as_ptr(self) -> (r: usize)
        ensures
            r == self.0,
    {
        self.0
    }
}

impl SurfaceKey {
    /// Wraps a handle address; a null address yields no key.
    pub fn from_addr(addr: usize) -> (r: Option<SurfaceKey>)
        ensures
            r is Some <==> addr != 0,
            r is Some ==> r.unwrap().0 == addr,
    {
        if addr == 0 {
            None
        } else {
            Some(SurfaceKey(addr))
        }
    }

    /// The address of the handle this key was made from.
    pub fn as_ptr(self) -> (r: usize)
        ensures
            r == self.0,
    {
        self.0
    }
}

} // verus!
