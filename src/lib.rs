use vstd::prelude::*;

pub mod bitslice;
pub mod bytestr;
pub mod dis;
pub mod endian;
pub mod numeric;
pub mod mem;
pub mod raw_binary;
pub mod text;
pub mod util;

verus! {

} // verus!
