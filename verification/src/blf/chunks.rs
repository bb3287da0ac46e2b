//! Traits that chunk types of a BLF file implement: the hooks that run
//! around a chunk's body being written or read, and the title and build a
//! chunk type belongs to.

use vstd::prelude::*;
use crate::result::BLFLibResult;

verus! {

/// Work a chunk does just before its body is written, given the bytes of the
/// chunks written before it, or just after its body is read, given the bytes
/// read before it. By default, nothing.
pub trait BlfChunkHooks: Sized {
    fn before_write(&mut self, _previously_written: &Vec<u8>) -> (r: BLFLibResult)
        default_ensures
            r is Ok,
            *final(self) == *old(self),
    {
        Ok(())
    }

    fn after_read(&mut self, _previously_read: &[u8]) -> (r: BLFLibResult)
        default_ensures
            r is Ok,
            *final(self) == *old(self),
    {
        Ok(())
    }
}

/// The title and build string that a chunk type belongs to.
pub trait TitleAndBuild {
    fn get_title() -> &'static str;

    fn get_build_string() -> &'static str;
}

/// The title and build string that a chunk value belongs to.
pub trait DynTitleAndBuild {
    fn title(&self) -> String;

    fn build_string(&self) -> String;
}

} // verus!
