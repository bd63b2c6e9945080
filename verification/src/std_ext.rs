use vstd::prelude::*;
use vstd::string::StringSliceAdditionalSpecFns;
use vstd::utf8::{encode_utf8_valid_utf8, is_char_boundary, is_char_boundary_start_end_of_seq};

verus! {

/// Methods of string slices that std does not offer on the supported toolchain
pub trait StrExt {
    /// The smallest character boundary at or after `index`, or the length if `index` is beyond it
    fn ceil_char_boundary(self, index: usize) -> usize;
}

impl<'a> StrExt for &'a str {
    fn ceil_char_boundary(self, index: usize) -> (res: usize)
        ensures
            index > self.spec_bytes().len() ==> res == self.spec_bytes().len(),
            index <= self.spec_bytes().len() ==> {
                &&& index <= res <= self.spec_bytes().len()
                &&& is_char_boundary(self.spec_bytes(), res as int)
                &&& forall|i: int| index <= i < res ==> !is_char_boundary(self.spec_bytes(), i)
            },
    {
        let len = self.as_bytes().len();
        if index > len {
            len
        } else {
            proof {
                encode_utf8_valid_utf8(self@);
                is_char_boundary_start_end_of_seq(self.spec_bytes());
            }
            let mut i = index;
            while i < len && !self.is_char_boundary(i)
                invariant
                    index <= i <= len,
                    len == self.spec_bytes().len(),
                    is_char_boundary(self.spec_bytes(), len as int),
                    forall|j: int| index <= j < i ==> !is_char_boundary(self.spec_bytes(), j),
                decreases len - i,
            {
                i = i + 1;
            }
            i
        }
    }
}

} // verus!
