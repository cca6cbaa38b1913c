//! Short names for the plain types that run through the crate.
use vstd::prelude::*;

verus! {

pub type Port = u16;

pub type Bytes = Vec<u8>;

pub type Path<'a> = &'a str;

pub type FileExtension<'a> = &'a str;

} // verus!
