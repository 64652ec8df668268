//! Diagnostic codes and the structured error value returned by every phase.

use vstd::prelude::*;

use crate::text::str_eq;

verus! {

/// The code of a diagnostic and the sentence that `--explain` prints for it.
#[derive(Debug, Clone, Copy, PartialEq, Eq)]
pub struct ErrorCodeInfo {
    pub code: &'static str,
    pub explanation: &'static str,
}

/// Every diagnostic code the compiler can attach to an error.
#[derive(Debug, Clone, Copy, PartialEq, Eq, Structural)]
pub enum ErrorCode {
    ParseEmptyInterpolation,
    ParseUnterminatedString,
    ModuleCycle,
    ModuleMissingImport,
    ModuleUnexportedImport,
    NameDuplicateImport,
    OutputFunction,
    RefineLiteralUnion,
    RefineFailed,
    RuntimeDivisionByZero,
    TypeBadInterpolation,
    TypeApplyNonFunction,
    TypeNoneNeedsExpected,
    TypeRecursiveAlias,
    TypeUnknown,
    TypeMismatch,
    TypeUnsupportedBuiltinArg,
    RecordDuplicateField,
    RecordMissingField,
    RecordUnknownField,
    Reconf,
}

/// The printed code of each diagnostic.
pub open spec fn code_text(code: ErrorCode) -> Seq<char> {
    match code {
        ErrorCode::ParseEmptyInterpolation => "E_PARSE_006"@,
        ErrorCode::ParseUnterminatedString => "E_PARSE_008"@,
        ErrorCode::ModuleCycle => "E_MODULE_002"@,
        ErrorCode::ModuleMissingImport => "E_MODULE_004"@,
        ErrorCode::ModuleUnexportedImport => "E_MODULE_005"@,
        ErrorCode::NameDuplicateImport => "E_NAME_002"@,
        ErrorCode::OutputFunction => "E_OUTPUT_001"@,
        ErrorCode::RefineLiteralUnion => "E_REFINE_002"@,
        ErrorCode::RefineFailed => "E_REFINE_004"@,
        ErrorCode::RuntimeDivisionByZero => "E_RUNTIME_016"@,
        ErrorCode::TypeBadInterpolation => "E_TYPE_005"@,
        ErrorCode::TypeApplyNonFunction => "E_TYPE_008"@,
        ErrorCode::TypeNoneNeedsExpected => "E_TYPE_006"@,
        ErrorCode::TypeRecursiveAlias => "E_TYPE_002"@,
        ErrorCode::TypeUnknown => "E_TYPE_003"@,
        ErrorCode::TypeMismatch => "E_TYPE_017"@,
        ErrorCode::TypeUnsupportedBuiltinArg => "E_TYPE_014"@,
        ErrorCode::RecordDuplicateField => "E_RECORD_003"@,
        ErrorCode::RecordMissingField => "E_RECORD_005"@,
        ErrorCode::RecordUnknownField => "E_RECORD_004"@,
        ErrorCode::Reconf => "reconf::error"@,
    }
}

/// The one-line explanation of each diagnostic.
pub open spec fn explanation_text(code: ErrorCode) -> Seq<char> {
    match code {
        ErrorCode::ParseEmptyInterpolation => "empty string interpolation"@,
        ErrorCode::ParseUnterminatedString => "unterminated string or interpolation"@,
        ErrorCode::ModuleCycle => "cyclic module import"@,
        ErrorCode::ModuleMissingImport => "missing module import path"@,
        ErrorCode::ModuleUnexportedImport => "imported name is not exported by the module"@,
        ErrorCode::NameDuplicateImport => "duplicate imported name"@,
        ErrorCode::OutputFunction => "function value escaped into output"@,
        ErrorCode::RefineLiteralUnion => "literal union refinement failed"@,
        ErrorCode::RefineFailed => "refinement predicate evaluated to false"@,
        ErrorCode::RuntimeDivisionByZero => "division by zero"@,
        ErrorCode::TypeBadInterpolation => "invalid string interpolation expression"@,
        ErrorCode::TypeApplyNonFunction => "attempted to apply a non-function value"@,
        ErrorCode::TypeNoneNeedsExpected => "none needs an expected option type"@,
        ErrorCode::TypeRecursiveAlias => "recursive type alias"@,
        ErrorCode::TypeUnknown => "unknown type"@,
        ErrorCode::TypeMismatch => "type mismatch"@,
        ErrorCode::TypeUnsupportedBuiltinArg => "unsupported native function argument"@,
        ErrorCode::RecordDuplicateField => "duplicate record field"@,
        ErrorCode::RecordMissingField => "missing record field"@,
        ErrorCode::RecordUnknownField => "unknown record field"@,
        ErrorCode::Reconf => "uncategorized ReConf error"@,
    }
}

/// All codes, in the order in which `--explain` looks them up.
pub open spec fn all_codes_spec() -> Seq<ErrorCode> {
    seq![
        ErrorCode::ParseEmptyInterpolation,
        ErrorCode::ParseUnterminatedString,
        ErrorCode::ModuleCycle,
        ErrorCode::ModuleMissingImport,
        ErrorCode::ModuleUnexportedImport,
        ErrorCode::NameDuplicateImport,
        ErrorCode::OutputFunction,
        ErrorCode::RefineLiteralUnion,
        ErrorCode::RefineFailed,
        ErrorCode::RuntimeDivisionByZero,
        ErrorCode::TypeBadInterpolation,
        ErrorCode::TypeApplyNonFunction,
        ErrorCode::TypeNoneNeedsExpected,
        ErrorCode::TypeRecursiveAlias,
        ErrorCode::TypeUnknown,
        ErrorCode::TypeMismatch,
        ErrorCode::TypeUnsupportedBuiltinArg,
        ErrorCode::RecordDuplicateField,
        ErrorCode::RecordMissingField,
        ErrorCode::RecordUnknownField,
        ErrorCode::Reconf,
    ]
}

/// Every code occurs in the table of all codes.
pub proof fn lemma_all_codes_complete(code: ErrorCode)
    ensures
        all_codes_spec().contains(code),
{
    let s = all_codes_spec();
    match code {
        ErrorCode::ParseEmptyInterpolation => assert(s[0] == code),
        ErrorCode::ParseUnterminatedString => assert(s[1] == code),
        ErrorCode::ModuleCycle => assert(s[2] == code),
        ErrorCode::ModuleMissingImport => assert(s[3] == code),
        ErrorCode::ModuleUnexportedImport => assert(s[4] == code),
        ErrorCode::NameDuplicateImport => assert(s[5] == code),
        ErrorCode::OutputFunction => assert(s[6] == code),
        ErrorCode::RefineLiteralUnion => assert(s[7] == code),
        ErrorCode::RefineFailed => assert(s[8] == code),
        ErrorCode::RuntimeDivisionByZero => assert(s[9] == code),
        ErrorCode::TypeBadInterpolation => assert(s[10] == code),
        ErrorCode::TypeApplyNonFunction => assert(s[11] == code),
        ErrorCode::TypeNoneNeedsExpected => assert(s[12] == code),
        ErrorCode::TypeRecursiveAlias => assert(s[13] == code),
        ErrorCode::TypeUnknown => assert(s[14] == code),
        ErrorCode::TypeMismatch => assert(s[15] == code),
        ErrorCode::TypeUnsupportedBuiltinArg => assert(s[16] == code),
        ErrorCode::RecordDuplicateField => assert(s[17] == code),
        ErrorCode::RecordMissingField => assert(s[18] == code),
        ErrorCode::RecordUnknownField => assert(s[19] == code),
        ErrorCode::Reconf => assert(s[20] == code),
    }
}

fn all_codes() -> (codes: Vec<ErrorCode>)
    ensures
        codes@ == all_codes_spec(),
{
    let codes = vec![
        ErrorCode::ParseEmptyInterpolation,
        ErrorCode::ParseUnterminatedString,
        ErrorCode::ModuleCycle,
        ErrorCode::ModuleMissingImport,
        ErrorCode::ModuleUnexportedImport,
        ErrorCode::NameDuplicateImport,
        ErrorCode::OutputFunction,
        ErrorCode::RefineLiteralUnion,
        ErrorCode::RefineFailed,
        ErrorCode::RuntimeDivisionByZero,
        ErrorCode::TypeBadInterpolation,
        ErrorCode::TypeApplyNonFunction,
        ErrorCode::TypeNoneNeedsExpected,
        ErrorCode::TypeRecursiveAlias,
        ErrorCode::TypeUnknown,
        ErrorCode::TypeMismatch,
        ErrorCode::TypeUnsupportedBuiltinArg,
        ErrorCode::RecordDuplicateField,
        ErrorCode::RecordMissingField,
        ErrorCode::RecordUnknownField,
        ErrorCode::Reconf,
    ];
    assert(codes@ =~= all_codes_spec());
    codes
}

impl ErrorCode {
    /// Looks a printed code up; `None` when no diagnostic has that code.
    pub fn from_code(code: &str) -> (res: Option<ErrorCode>)
        ensures
            match res {
                Some(found) => code_text(found) == code@,
                None => forall|c: ErrorCode| code_text(c) != code@,
            },
    {
        let codes = all_codes();
        let mut i: usize = 0;
        while i < codes.len()
            invariant
                codes@ == all_codes_spec(),
                0 <= i <= codes@.len(),
                forall|j: int| 0 <= j < i ==> code_text(#[trigger] codes@[j]) != code@,
            decreases codes.len() - i,
        {
            let candidate = codes[i];
            if str_eq(candidate.as_str(), code) {
                return Some(candidate);
            }
            i = i + 1;
        }
        proof {
            assert forall|c: ErrorCode| code_text(c) != code@ by {
                lemma_all_codes_complete(c);
                let k = choose|k: int| 0 <= k < all_codes_spec().len() && all_codes_spec()[k] == c;
                assert(code_text(codes@[k]) != code@);
            }
        }
        None
    }

    /// The code together with its explanation.
    pub fn info(self) -> (info: ErrorCodeInfo)
        ensures
            info.code@ == code_text(self),
            info.explanation@ == explanation_text(self),
    {
        ErrorCodeInfo { code: self.as_str(), explanation: self.explanation() }
    }

    /// The printed form of the code, such as `E_REFINE_004`.
    pub fn as_str(self) -> (s: &'static str)
        ensures
            s@ == code_text(self),
    {
        match self {
            ErrorCode::ParseEmptyInterpolation => "E_PARSE_006",
            ErrorCode::ParseUnterminatedString => "E_PARSE_008",
            ErrorCode::ModuleCycle => "E_MODULE_002",
            ErrorCode::ModuleMissingImport => "E_MODULE_004",
            ErrorCode::ModuleUnexportedImport => "E_MODULE_005",
            ErrorCode::NameDuplicateImport => "E_NAME_002",
            ErrorCode::OutputFunction => "E_OUTPUT_001",
            ErrorCode::RefineLiteralUnion => "E_REFINE_002",
            ErrorCode::RefineFailed => "E_REFINE_004",
            ErrorCode::RuntimeDivisionByZero => "E_RUNTIME_016",
            ErrorCode::TypeBadInterpolation => "E_TYPE_005",
            ErrorCode::TypeApplyNonFunction => "E_TYPE_008",
            ErrorCode::TypeNoneNeedsExpected => "E_TYPE_006",
            ErrorCode::TypeRecursiveAlias => "E_TYPE_002",
            ErrorCode::TypeUnknown => "E_TYPE_003",
            ErrorCode::TypeMismatch => "E_TYPE_017",
            ErrorCode::TypeUnsupportedBuiltinArg => "E_TYPE_014",
            ErrorCode::RecordDuplicateField => "E_RECORD_003",
            ErrorCode::RecordMissingField => "E_RECORD_005",
            ErrorCode::RecordUnknownField => "E_RECORD_004",
            ErrorCode::Reconf => "reconf::error",
        }
    }

    /// The sentence that explains the code.
    pub fn explanation(self) -> (s: &'static str)
        ensures
            s@ == explanation_text(self),
    {
        match self {
            ErrorCode::ParseEmptyInterpolation => "empty string interpolation",
            ErrorCode::ParseUnterminatedString => "unterminated string or interpolation",
            ErrorCode::ModuleCycle => "cyclic module import",
            ErrorCode::ModuleMissingImport => "missing module import path",
            ErrorCode::ModuleUnexportedImport => "imported name is not exported by the module",
            ErrorCode::NameDuplicateImport => "duplicate imported name",
            ErrorCode::OutputFunction => "function value escaped into output",
            ErrorCode::RefineLiteralUnion => "literal union refinement failed",
            ErrorCode::RefineFailed => "refinement predicate evaluated to false",
            ErrorCode::RuntimeDivisionByZero => "division by zero",
            ErrorCode::TypeBadInterpolation => "invalid string interpolation expression",
            ErrorCode::TypeApplyNonFunction => "attempted to apply a non-function value",
            ErrorCode::TypeNoneNeedsExpected => "none needs an expected option type",
            ErrorCode::TypeRecursiveAlias => "recursive type alias",
            ErrorCode::TypeUnknown => "unknown type",
            ErrorCode::TypeMismatch => "type mismatch",
            ErrorCode::TypeUnsupportedBuiltinArg => "unsupported native function argument",
            ErrorCode::RecordDuplicateField => "duplicate record field",
            ErrorCode::RecordMissingField => "missing record field",
            ErrorCode::RecordUnknownField => "unknown record field",
            ErrorCode::Reconf => "uncategorized ReConf error",
        }
    }
}

/// A half-open range of byte offsets into a source text.
#[derive(Debug, Clone, Copy, PartialEq, Eq, Structural)]
pub struct ByteRange {
    pub start: usize,
    pub end: usize,
}

impl ByteRange {
    pub fn new(start: usize, end: usize) -> (r: ByteRange)
        ensures
            r.start == start,
            r.end == end,
    {
        ByteRange { start, end }
    }
}

/// A labelled byte range of the source that an error points at.
#[derive(Debug, Clone, PartialEq, Eq)]
pub struct DiagnosticLabel {
    pub span: ByteRange,
    pub message: String,
}

/// The source text that an error is reported against.
#[derive(Debug, Clone, PartialEq, Eq)]
pub struct NamedSource {
    pub name: String,
    pub text: String,
}

/// A diagnostic: a code, a message, optional source text, labels and notes.
#[derive(Debug, Clone)]
pub struct Error {
    code: ErrorCode,
    message: String,
    source_code: Option<NamedSource>,
    labels: Vec<DiagnosticLabel>,
    notes: Vec<String>,
}

/// Result of every fallible phase of the compiler.
pub type Result<T> = core::result::Result<T, Error>;

impl Error {
    pub closed spec fn code_spec(&self) -> ErrorCode {
        self.code
    }

    pub closed spec fn message_spec(&self) -> Seq<char> {
        self.message@
    }

    pub closed spec fn source_spec(&self) -> Option<NamedSource> {
        self.source_code
    }

    pub closed spec fn labels_spec(&self) -> Seq<DiagnosticLabel> {
        self.labels@
    }

    pub closed spec fn notes_spec(&self) -> Seq<String> {
        self.notes@
    }

    /// An uncategorized error with the given message.
    pub fn new(message: &str) -> (e: Error)
        ensures
            e.code_spec() == ErrorCode::Reconf,
            e.message_spec() == message@,
            e.source_spec() is None,
            e.labels_spec().len() == 0,
            e.notes_spec().len() == 0,
    {
        Self::with_code(ErrorCode::Reconf, message)
    }

    /// An error with the given code and message.
    pub fn with_code(code: ErrorCode, message: &str) -> (e: Error)
        ensures
            e.code_spec() == code,
            e.message_spec() == message@,
            e.source_spec() is None,
            e.labels_spec().len() == 0,
            e.notes_spec().len() == 0,
    {
        Error {
            code,
            message: message.to_owned(),
            source_code: None,
            labels: Vec::new(),
            notes: Vec::new(),
        }
    }

    /// Adds a label; a range whose start lies past its end is ignored.
    pub fn with_label(self, span: ByteRange, label: &str) -> (e: Error)
        ensures
            e.code_spec() == self.code_spec(),
            e.message_spec() == self.message_spec(),
            e.source_spec() == self.source_spec(),
            e.notes_spec() == self.notes_spec(),
            span.start <= span.end ==> e.labels_spec().len() == self.labels_spec().len() + 1
                && e.labels_spec().last().span == span && e.labels_spec().last().message@ == label@
                && e.labels_spec().drop_last() == self.labels_spec(),
            span.start > span.end ==> e.labels_spec() == self.labels_spec(),
    {
        let mut error = self;
        if span.start <= span.end {
            error.labels.push(DiagnosticLabel { span, message: label.to_owned() });
        }
        proof {
            if span.start <= span.end {
                assert(error.labels@.drop_last() =~= self.labels@);
            }
        }
        error
    }

    /// Attaches the named source text.
    pub fn with_source(self, name: &str, source: &str) -> (e: Error)
        ensures
            e.code_spec() == self.code_spec(),
            e.message_spec() == self.message_spec(),
            e.labels_spec() == self.labels_spec(),
            e.notes_spec() == self.notes_spec(),
            e.source_spec() matches Some(s) && s.name@ == name@ && s.text@ == source@,
    {
        let mut error = self;
        error.source_code = Some(NamedSource { name: name.to_owned(), text: source.to_owned() });
        error
    }

    /// Attaches source text under the placeholder name `<source>`.
    pub fn with_placeholder_source(self, source: &str) -> (e: Error)
        ensures
            e.code_spec() == self.code_spec(),
            e.message_spec() == self.message_spec(),
            e.labels_spec() == self.labels_spec(),
            e.notes_spec() == self.notes_spec(),
            e.source_spec() matches Some(s) && s.name@ == "<source>"@ && s.text@ == source@,
    {
        self.with_source("<source>", source)
    }

    /// Renames the attached source; an error without source is unchanged.
    pub fn with_source_name(self, name: &str) -> (e: Error)
        ensures
            e.code_spec() == self.code_spec(),
            e.message_spec() == self.message_spec(),
            e.labels_spec() == self.labels_spec(),
            e.notes_spec() == self.notes_spec(),
            match self.source_spec() {
                Some(old) => e.source_spec() matches Some(s) && s.name@ == name@ && s.text
                    == old.text,
                None => e.source_spec() is None,
            },
    {
        let mut error = self;
        match error.source_code {
            Some(source) => {
                error.source_code = Some(NamedSource { name: name.to_owned(), text: source.text });
            },
            None => {
                error.source_code = None;
            },
        }
        error
    }

    /// Appends a help note.
    pub fn with_note(self, note: &str) -> (e: Error)
        ensures
            e.code_spec() == self.code_spec(),
            e.message_spec() == self.message_spec(),
            e.labels_spec() == self.labels_spec(),
            e.source_spec() == self.source_spec(),
            e.notes_spec().len() == self.notes_spec().len() + 1,
            e.notes_spec().last()@ == note@,
            e.notes_spec().drop_last() == self.notes_spec(),
    {
        let mut error = self;
        error.notes.push(note.to_owned());
        proof {
            assert(error.notes@.drop_last() =~= self.notes@);
        }
        error
    }

    pub fn message(&self) -> (m: &str)
        ensures
            m@ == self.message_spec(),
    {
        self.message.as_str()
    }

    pub fn code(&self) -> (c: ErrorCode)
        ensures
            c == self.code_spec(),
    {
        self.code
    }

    pub fn diagnostic_labels(&self) -> (labels: &[DiagnosticLabel])
        ensures
            labels@ == self.labels_spec(),
    {
        self.labels.as_slice()
    }

    pub fn has_source_code(&self) -> (b: bool)
        ensures
            b == self.source_spec() is Some,
    {
        self.source_code.is_some()
    }

    pub fn source_name(&self) -> (name: Option<&str>)
        ensures
            match self.source_spec() {
                Some(s) => name matches Some(n) && n@ == s.name@,
                None => name is None,
            },
    {
        match &self.source_code {
            Some(source) => Some(source.name.as_str()),
            None => None,
        }
    }

    pub fn source_text(&self) -> (text: Option<&str>)
        ensures
            match self.source_spec() {
                Some(s) => text matches Some(t) && t@ == s.text@,
                None => text is None,
            },
    {
        match &self.source_code {
            Some(source) => Some(source.text.as_str()),
            None => None,
        }
    }

    pub fn notes(&self) -> (notes: &[String])
        ensures
            notes@ == self.notes_spec(),
    {
        self.notes.as_slice()
    }
}

} // verus!
