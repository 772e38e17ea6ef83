//! The identity of one class.

use vstd::prelude::*;

verus! {

/// One class of the model: a dense index used for array addressing and the
/// external byte symbol it stands for, fixed when the label set is loaded.
#[derive(Debug, Clone, Copy, PartialEq, Eq, Structural)]
pub struct ClassLabel {
    pub index: usize,
    pub ascii: u8,
}

impl ClassLabel {
    pub fn new(index: usize, ascii: u8) -> (label: ClassLabel)
        ensures
            label == (ClassLabel { index, ascii }),
    {
        ClassLabel { index, ascii }
    }

    /// The dense class index, the canonical identity of the class.
    pub fn get_index(&self) -> (index: usize)
        ensures
            index == self.index,
    {
        self.index
    }

    /// The external byte symbol, used only for reporting.
    pub fn get_ascii(&self) -> (ascii: u8)
        ensures
            ascii == self.ascii,
    {
        self.ascii
    }
}

} // verus!
