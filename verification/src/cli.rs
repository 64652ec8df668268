//! What the command line decides before any I/O: the text that `--explain`
//! prints and the layout that the output flags select.

use vstd::prelude::*;

use crate::error::{code_text, explanation_text, ErrorCode};
use crate::text::concat3;

verus! {

/// The layout of emitted output.
#[derive(Debug, Clone, Copy, PartialEq, Eq, Structural)]
pub enum OutputStyle {
    Compact,
    Pretty,
}

/// The layout that `--pretty` and `--compact` select: compact only when
/// `--compact` is given without `--pretty`; pretty otherwise, which is the
/// normal layout.
pub fn output_style(pretty: bool, compact: bool) -> (s: OutputStyle)
    ensures
        s == (if compact && !pretty { OutputStyle::Compact } else { OutputStyle::Pretty }),
        !compact ==> s == OutputStyle::Pretty,
{
    match (pretty, compact) {
        (false, true) => OutputStyle::Compact,
        _ => OutputStyle::Pretty,
    }
}

/// What `--explain` prints for a code.
pub open spec fn explain_spec(code: Seq<char>) -> Seq<char> {
    if exists|c: ErrorCode| code_text(c) == code {
        let c = choose|c: ErrorCode| code_text(c) == code;
        code_text(c) + ": "@ + explanation_text(c)
    } else {
        "unknown diagnostic code"@
    }
}

/// The code and its explanation, or a note that no diagnostic has the code.
pub fn explain_code(code: &str) -> (s: String)
    ensures
        s@ == explain_spec(code@),
{
    match ErrorCode::from_code(code) {
        Some(found) => {
            let info = found.info();
            proof {
                let c = choose|c: ErrorCode| code_text(c) == code@;
                lemma_code_text_injective(c, found);
            }
            concat3(info.code, ": ", info.explanation)
        },
        None => "unknown diagnostic code".to_owned(),
    }
}

/// The diagnostic that a printed code names, read from a few of its
/// characters.
spec fn decode(s: Seq<char>) -> ErrorCode {
    let last = s.last();
    if s[0] == 'r' {
        ErrorCode::Reconf
    } else if s[2] == 'P' {
        if last == '6' { ErrorCode::ParseEmptyInterpolation } else { ErrorCode::ParseUnterminatedString }
    } else if s[2] == 'M' {
        if last == '2' { ErrorCode::ModuleCycle }
        else if last == '4' { ErrorCode::ModuleMissingImport }
        else { ErrorCode::ModuleUnexportedImport }
    } else if s[2] == 'N' {
        ErrorCode::NameDuplicateImport
    } else if s[2] == 'O' {
        ErrorCode::OutputFunction
    } else if s[2] == 'R' && s[4] == 'F' {
        if last == '2' { ErrorCode::RefineLiteralUnion } else { ErrorCode::RefineFailed }
    } else if s[2] == 'R' && s[3] == 'U' {
        ErrorCode::RuntimeDivisionByZero
    } else if s[2] == 'R' {
        if last == '3' { ErrorCode::RecordDuplicateField }
        else if last == '5' { ErrorCode::RecordMissingField }
        else { ErrorCode::RecordUnknownField }
    } else {
        if last == '5' { ErrorCode::TypeBadInterpolation }
        else if last == '8' { ErrorCode::TypeApplyNonFunction }
        else if last == '6' { ErrorCode::TypeNoneNeedsExpected }
        else if last == '2' { ErrorCode::TypeRecursiveAlias }
        else if last == '3' { ErrorCode::TypeUnknown }
        else if last == '7' { ErrorCode::TypeMismatch }
        else { ErrorCode::TypeUnsupportedBuiltinArg }
    }
}

proof fn lemma_decode(c: ErrorCode)
    ensures
        decode(code_text(c)) == c,
{
    match c {
        ErrorCode::ParseEmptyInterpolation => reveal_strlit("E_PARSE_006"),
        ErrorCode::ParseUnterminatedString => reveal_strlit("E_PARSE_008"),
        ErrorCode::ModuleCycle => reveal_strlit("E_MODULE_002"),
        ErrorCode::ModuleMissingImport => reveal_strlit("E_MODULE_004"),
        ErrorCode::ModuleUnexportedImport => reveal_strlit("E_MODULE_005"),
        ErrorCode::NameDuplicateImport => reveal_strlit("E_NAME_002"),
        ErrorCode::OutputFunction => reveal_strlit("E_OUTPUT_001"),
        ErrorCode::RefineLiteralUnion => reveal_strlit("E_REFINE_002"),
        ErrorCode::RefineFailed => reveal_strlit("E_REFINE_004"),
        ErrorCode::RuntimeDivisionByZero => reveal_strlit("E_RUNTIME_016"),
        ErrorCode::TypeBadInterpolation => reveal_strlit("E_TYPE_005"),
        ErrorCode::TypeApplyNonFunction => reveal_strlit("E_TYPE_008"),
        ErrorCode::TypeNoneNeedsExpected => reveal_strlit("E_TYPE_006"),
        ErrorCode::TypeRecursiveAlias => reveal_strlit("E_TYPE_002"),
        ErrorCode::TypeUnknown => reveal_strlit("E_TYPE_003"),
        ErrorCode::TypeMismatch => reveal_strlit("E_TYPE_017"),
        ErrorCode::TypeUnsupportedBuiltinArg => reveal_strlit("E_TYPE_014"),
        ErrorCode::RecordDuplicateField => reveal_strlit("E_RECORD_003"),
        ErrorCode::RecordMissingField => reveal_strlit("E_RECORD_005"),
        ErrorCode::RecordUnknownField => reveal_strlit("E_RECORD_004"),
        ErrorCode::Reconf => reveal_strlit("reconf::error"),
    }
}

/// No two diagnostics share a printed code.
pub proof fn lemma_code_text_injective(a: ErrorCode, b: ErrorCode)
    requires
        code_text(a) == code_text(b),
    ensures
        a == b,
{
    lemma_decode(a);
    lemma_decode(b);
}

} // verus!
