//! One leaf of a result tree: the outcome of one test under one patch.

use crate::text::{exit_code_of_text, parse_exit_code, parse_patch, patch_of_text};
use vstd::prelude::*;

verus! {

/// The outcome of one run: which patch, which test, and the exit code.
pub struct Test {
    pub patch: u8,
    pub result: i64,
    pub test: String,
}

/// What a [`Test`] says, with the test's name as a sequence of characters.
pub struct Leaf {
    pub patch: u8,
    pub result: i64,
    pub test: Seq<char>,
}

impl View for Test {
    type V = Leaf;

    open spec fn view(&self) -> Leaf {
        Leaf { patch: self.patch, result: self.result, test: self.test@ }
    }
}

impl Clone for Test {
    fn clone(&self) -> (copy: Self)
        ensures
            copy@ == self@,
    {
        Test { patch: self.patch, result: self.result, test: self.test.clone() }
    }
}

/// The patch id of a leaf whose test directory lies in a directory named
/// `parent`: the number that the name writes, or 0 where there is no such
/// directory or its name is no patch number.
pub open spec fn patch_of_parent(parent: Option<Seq<char>>) -> u8 {
    match parent {
        Some(name) => patch_of_text(name),
        None => 0,
    }
}

impl Test {
    /// The record of the leaf whose test directory is named `name`, lies in a
    /// directory named `parent`, and whose exit code was stored as `retcode`.
    pub fn new(name: &str, parent: Option<&str>, retcode: &str) -> (leaf: Test)
        ensures
            leaf.test@ == name@,
            leaf.patch == patch_of_parent(
                match parent {
                    Some(p) => Some(p@),
                    None => None,
                },
            ),
            leaf.result == exit_code_of_text(retcode@),
    {
        let patch: u8 = match parent {
            Some(p) => parse_patch(p),
            None => 0,
        };
        Test { patch, result: parse_exit_code(retcode), test: String::from_str(name) }
    }
}

} // verus!
