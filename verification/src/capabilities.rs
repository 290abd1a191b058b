use vstd::prelude::*;

use crate::fixes::is_supported_kind;

verus! {

/// How code actions are advertised at session start: the exact kind list
/// when the client takes literal kind lists, else a coarse boolean flag.
#[derive(Clone, Copy, PartialEq, Eq, Structural, Debug)]
pub enum CodeActionSupport {
    LiteralKinds,
    Plain,
}

/// Capability negotiation: the kind list is advertised only to a client
/// that declared support for literal action-kind lists.
pub fn choose_code_action_support(literal_kinds_supported: bool) -> (r: CodeActionSupport)
    ensures
        r == if literal_kinds_supported {
            CodeActionSupport::LiteralKinds
        } else {
            CodeActionSupport::Plain
        },
{
    if literal_kinds_supported {
        CodeActionSupport::LiteralKinds
    } else {
        CodeActionSupport::Plain
    }
}

/// The kinds advertised to a client that takes literal kind lists; each of
/// them is one the fix pass serves.
pub fn advertised_action_kinds() -> (r: Vec<String>)
    ensures
        r@.len() == 3,
        r@[0]@ == "quickfix"@,
        r@[1]@ == "source.fixAll"@,
        r@[2]@ == "source.fixAll.ast-grep"@,
        forall|i: int| 0 <= i < r@.len() ==> is_supported_kind(#[trigger] r@[i]@),
{
    let mut v: Vec<String> = Vec::new();
    v.push("quickfix".to_owned());
    v.push("source.fixAll".to_owned());
    v.push("source.fixAll.ast-grep".to_owned());
    v
}

} // verus!
