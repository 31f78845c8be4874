//! Remembers failing Go tests so that they can be run again: reads `go test`
//! output, keeps the failures per project and branch, and builds the commands
//! that re-run them.
use vstd::prelude::*;

pub mod interactive;
pub mod json;
pub mod parser;
pub mod project;
pub mod runner;
pub mod storage;
pub mod text;

verus! {

/// A Go test that failed: the package it lives in and its name.
#[derive(Debug, Clone, PartialEq, Eq)]
pub struct FailedTest {
    pub package: String,
    pub name: String,
}

/// What a `FailedTest` stands for: its package and name as characters.
pub struct FailedTestView {
    pub package: Seq<char>,
    pub name: Seq<char>,
}

impl View for FailedTest {
    type V = FailedTestView;

    open spec fn view(&self) -> FailedTestView {
        FailedTestView { package: self.package@, name: self.name@ }
    }
}

/// The views of a sequence of failed tests.
pub open spec fn tests_view(s: Seq<FailedTest>) -> Seq<FailedTestView> {
    s.map_values(|t: FailedTest| t@)
}

/// The views of a sequence of strings.
pub open spec fn strings_view(s: Seq<String>) -> Seq<Seq<char>> {
    s.map_values(|x: String| x@)
}

/// The view of an optional string.
pub open spec fn opt_view(o: Option<String>) -> Option<Seq<char>> {
    match o {
        Some(s) => Some(s@),
        None => None,
    }
}

/// How a failed test is shown: its package, a space, its name.
pub open spec fn display(t: FailedTestView) -> Seq<char> {
    t.package + seq![' '] + t.name
}

impl FailedTest {
    /// A copy of this test with the same package and name.
    pub fn duplicate(&self) -> (r: FailedTest)
        ensures
            r@ == self@,
    {
        FailedTest { package: self.package.clone(), name: self.name.clone() }
    }

    /// The test as one line of text: `"{package} {name}"`.
    pub fn to_string(&self) -> (s: String)
        ensures
            s@ == display(self@),
    {
        let mut s = self.package.clone();
        text::push_char(&mut s, ' ');
        s.append(self.name.as_str());
        s
    }
}

} // verus!
