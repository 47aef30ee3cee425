use vstd::prelude::*;

pub mod laws;
pub mod simple_bitmap;

pub use simple_bitmap::SimpleBitmap;

verus! {

/// Describes the presence or absence of values.
pub trait Bitmap: Sized + core::ops::BitOr<Output = Self> {
    /// The indices that are present.
    spec fn present(&self) -> Set<u32>;

    /// Sets the presence of a value at the given index.
    fn set(&mut self, index: u32)
        ensures
            final(self).present() == old(self).present().insert(index),
    ;

    /// Gets the presence or absence of a value at the given index.
    fn get(&self, index: u32) -> (r: bool)
        ensures
            r == self.present().contains(index),
    ;
}

} // verus!
