//! The flat output layout: samples over deduplicated location and function tables.

use vstd::prelude::*;
use vstd::std_specs::cmp::PartialEqSpec;

verus! {

/// Index into `Profile::locations`.
pub type LocationIndex = usize;

/// Index into `Profile::functions`.
pub type FunctionIndex = usize;

/// A finished profile in its wire layout: flat samples whose stacks are
/// indices into a deduplicated location table, whose entries in turn index a
/// deduplicated function table.
pub struct Profile {
    pub samples: Vec<Sample>,
    pub locations: Vec<Location>,
    pub functions: Vec<Function>,
    pub start_timestamp_ns: u128,
    pub duration_ns: u128,
}

/// One captured stack.
pub struct Sample {
    /// The interpreted stack, leaf first.
    pub stack: Vec<LocationIndex>,
    /// The native stack, leaf first.
    pub native_stack: Vec<LocationIndex>,
    pub ruby_thread_id: Option<u64>,
    /// Time from the start of the profile to the capture.
    pub elapsed_ns: u64,
}

/// A line hit in a function. Two locations are the same when they name the
/// same function and line, whatever their addresses.
#[derive(Debug)]
pub struct Location {
    pub function_index: FunctionIndex,
    pub lineno: i32,
    pub address: Option<usize>,
}

/// An interpreted method or a native function.
#[derive(Debug)]
pub struct Function {
    pub implementation: FunctionImplementation,
    pub name: Option<String>,
    pub filename: Option<String>,
    /// The first line of the definition; the line hit is in `Location::lineno`.
    pub start_lineno: Option<i32>,
    pub start_address: Option<usize>,
}

#[derive(Clone, Copy, Debug, PartialEq, Eq, Structural)]
pub enum FunctionImplementation {
    Ruby,
    Native,
}

/// The text of an optional string.
pub open spec fn opt_text(s: Option<String>) -> Option<Seq<char>> {
    match s {
        Some(t) => Some(t@),
        None => None,
    }
}

/// Two functions are the same when every field holds the same value.
pub open spec fn same_function(a: Function, b: Function) -> bool {
    &&& a.implementation == b.implementation
    &&& opt_text(a.name) == opt_text(b.name)
    &&& opt_text(a.filename) == opt_text(b.filename)
    &&& a.start_lineno == b.start_lineno
    &&& a.start_address == b.start_address
}

/// Two locations are the same when they name the same function and line.
pub open spec fn same_location(a: Location, b: Location) -> bool {
    a.function_index == b.function_index && a.lineno == b.lineno
}

fn same_text(a: &Option<String>, b: &Option<String>) -> (r: bool)
    ensures
        r == (opt_text(*a) == opt_text(*b)),
{
    match (a, b) {
        (Some(x), Some(y)) => x.eq(y),
        (None, None) => true,
        _ => false,
    }
}

fn clone_text(a: &Option<String>) -> (r: Option<String>)
    ensures
        r == *a,
{
    match a {
        Some(x) => Some(x.clone()),
        None => None,
    }
}

impl PartialEq for Function {
    fn eq(&self, other: &Function) -> (r: bool) {
        self.implementation == other.implementation && same_text(&self.name, &other.name)
            && same_text(&self.filename, &other.filename) && self.start_lineno == other.start_lineno
            && self.start_address == other.start_address
    }
}

impl vstd::std_specs::cmp::PartialEqSpecImpl for Function {
    open spec fn obeys_eq_spec() -> bool {
        true
    }

    open spec fn eq_spec(&self, other: &Function) -> bool {
        same_function(*self, *other)
    }
}

impl PartialEq for Location {
    fn eq(&self, other: &Location) -> (r: bool) {
        self.function_index == other.function_index && self.lineno == other.lineno
    }
}

impl vstd::std_specs::cmp::PartialEqSpecImpl for Location {
    open spec fn obeys_eq_spec() -> bool {
        true
    }

    open spec fn eq_spec(&self, other: &Location) -> bool {
        same_location(*self, *other)
    }
}

impl Clone for Function {
    fn clone(&self) -> (r: Function)
        ensures
            r == *self,
    {
        Function {
            implementation: self.implementation,
            name: clone_text(&self.name),
            filename: clone_text(&self.filename),
            start_lineno: self.start_lineno,
            start_address: self.start_address,
        }
    }
}

impl Clone for Location {
    fn clone(&self) -> (r: Location)
        ensures
            r == *self,
    {
        Location { function_index: self.function_index, lineno: self.lineno, address: self.address }
    }
}

/// Locations that differ only in their address are the same location.
pub proof fn lemma_location_identity_ignores_address(a: Location, b: Location)
    requires
        a.function_index == b.function_index,
        a.lineno == b.lineno,
    ensures
        same_location(a, b),
        a.eq_spec(&b),
{
}

} // verus!
