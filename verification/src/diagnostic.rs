//! Attaching the source text an error was found in, so that its labels can
//! be shown against it.

use vstd::prelude::*;

use crate::error::Error;
use crate::text::str_eq;

verus! {

/// The name and text of the source being compiled.
pub struct DiagnosticSource<'a> {
    name: &'a str,
    source: &'a str,
}

impl<'a> DiagnosticSource<'a> {
    pub closed spec fn name_spec(&self) -> Seq<char> {
        self.name@
    }

    pub closed spec fn source_spec(&self) -> Seq<char> {
        self.source@
    }

    pub fn new(name: &'a str, source: &'a str) -> (d: DiagnosticSource<'a>)
        ensures
            d.name_spec() == name@,
            d.source_spec() == source@,
    {
        DiagnosticSource { name, source }
    }

    /// An error with labels gets this source attached; one that already has
    /// its source keeps it, renamed when it carries the placeholder name
    /// `<source>`. An error without labels is returned as it is.
    pub fn attach(&self, error: Error) -> (e: Error)
        ensures
            e.code_spec() == error.code_spec(),
            e.message_spec() == error.message_spec(),
            e.labels_spec() == error.labels_spec(),
            e.notes_spec() == error.notes_spec(),
            error.labels_spec().len() == 0 ==> e.source_spec() == error.source_spec(),
            error.labels_spec().len() > 0 ==> match error.source_spec() {
                Some(s) => if s.name@ == "<source>"@ {
                    e.source_spec() matches Some(t) && t.name@ == self.name_spec() && t.text == s.text
                } else {
                    e.source_spec() == error.source_spec()
                },
                None => e.source_spec() matches Some(t) && t.name@ == self.name_spec() && t.text@ == self.source_spec(),
            },
    {
        if error.diagnostic_labels().len() == 0 {
            return error;
        }
        if error.has_source_code() {
            let placeholder = match error.source_name() {
                Some(name) => str_eq(name, "<source>"),
                None => false,
            };
            if placeholder {
                return error.with_source_name(self.name);
            }
            return error;
        }
        error.with_source(self.name, self.source)
    }
}

} // verus!
