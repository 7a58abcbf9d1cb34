//! The configuration file of the tools.

use crate::bytes::bytes_eq;
use vstd::prelude::*;
use vstd::utf8::encode_utf8;

verus! {

/// The configuration.
pub struct Config {
    pub object: Option<Object>,
}

/// What the configuration says of the traced object.
pub struct Object {
    pub path: Option<String>,
    pub rlibs: Option<String>,
    pub allocator: Option<Allocator>,
}

/// The symbol names of the global allocator's four entry points.
pub struct Allocator {
    pub alloc: String,
    pub dealloc: String,
    pub alloc_zeroed: String,
    pub realloc: String,
}

impl Config {
    /// The path of the object, when one is configured.
    pub fn path(&self) -> (r: Option<&str>)
        ensures
            match r {
                Some(path) => self.object.is_some() && self.object.unwrap().path.is_some()
                    && path@ == self.object.unwrap().path.unwrap()@,
                None => self.object.is_none() || self.object.unwrap().path.is_none(),
            },
    {
        match &self.object {
            Some(object) => match &object.path {
                Some(path) => Some(path.as_str()),
                None => None,
            },
            None => None,
        }
    }

    /// The pattern of static archives, when one is configured.
    pub fn rlibs(&self) -> (r: Option<&str>)
        ensures
            match r {
                Some(rlibs) => self.object.is_some() && self.object.unwrap().rlibs.is_some()
                    && rlibs@ == self.object.unwrap().rlibs.unwrap()@,
                None => self.object.is_none() || self.object.unwrap().rlibs.is_none(),
            },
    {
        match &self.object {
            Some(object) => match &object.rlibs {
                Some(rlibs) => Some(rlibs.as_str()),
                None => None,
            },
            None => None,
        }
    }

    /// The allocator names, when they are configured.
    pub fn allocator(&self) -> (r: Option<&Allocator>)
        ensures
            match r {
                Some(allocator) => self.object.is_some()
                    && self.object.unwrap().allocator.is_some() && *allocator
                    == self.object.unwrap().allocator.unwrap(),
                None => self.object.is_none() || self.object.unwrap().allocator.is_none(),
            },
    {
        match &self.object {
            Some(object) => match &object.allocator {
                Some(allocator) => Some(allocator),
                None => None,
            },
            None => None,
        }
    }
}

impl Allocator {
    /// Whether `name`, the bytes of a symbol name, is one of the four
    /// names.
    pub fn contains(&self, name: &[u8]) -> (b: bool)
        ensures
            b == (name@ == encode_utf8(self.alloc@) || name@ == encode_utf8(self.dealloc@) || name@
                == encode_utf8(self.alloc_zeroed@) || name@ == encode_utf8(self.realloc@)),
    {
        bytes_eq(self.alloc.as_str().as_bytes(), name) || bytes_eq(
            self.dealloc.as_str().as_bytes(),
            name,
        ) || bytes_eq(self.alloc_zeroed.as_str().as_bytes(), name) || bytes_eq(
            self.realloc.as_str().as_bytes(),
            name,
        )
    }
}

} // verus!
