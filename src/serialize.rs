//! Turning the decompressed payload of a frame into a value.

use crate::compress::FrameError;
use vstd::prelude::*;

verus! {

/// Reads a value of type `Target` out of decompressed bytes.
pub trait Deserializer {
    type Target;

    /// Whether `r` is an outcome of reading `bytes`.
    spec fn reads(&self, bytes: Seq<u8>, r: Result<Self::Target, FrameError>) -> bool;

    /// Reads a value out of `bytes`, or fails with the error to report.
    fn read(&self, bytes: &[u8]) -> (r: Result<Self::Target, FrameError>)
        ensures
            self.reads(bytes@, r),
    ;
}

/// The deserializer that hands the bytes back as they are.
pub struct RawBytes;

impl Deserializer for RawBytes {
    type Target = Vec<u8>;

    open spec fn reads(&self, bytes: Seq<u8>, r: Result<Vec<u8>, FrameError>) -> bool {
        r matches Ok(v) && v@ == bytes
    }

    /// Reads a value out of `bytes`, or fails with the error to report.
    fn read(&self, bytes: &[u8]) -> (r: Result<Vec<u8>, FrameError>) {
        Ok(vstd::slice::slice_to_vec(bytes))
    }
}

} // verus!
