use vstd::prelude::*;

verus! {

/// How serious a finding of a rule is; `Off` disables the rule entirely.
#[derive(Clone, Copy, PartialEq, Eq, Structural, Debug)]
pub enum Severity {
    Error,
    Warning,
    Info,
    Hint,
    Off,
}

/// One loaded rule: immutable after loading. The pattern and the fixer are
/// templates in the target language's own syntax; the matching collaborator
/// interprets them, this library only decides with their results.
pub struct Rule {
    /// Unique rule identifier.
    pub id: String,
    /// Configured user-facing message; may be empty.
    pub message: String,
    pub severity: Severity,
    /// Pattern matched against parsed documents.
    pub pattern: String,
    /// Replacement template, when the rule can repair its findings.
    pub fixer: Option<String>,
    /// Documentation link, when configured.
    pub url: Option<String>,
}

/// Mathematical image of a `Rule`.
pub struct RuleView {
    pub id: Seq<char>,
    pub message: Seq<char>,
    pub severity: Severity,
    pub pattern: Seq<char>,
    pub fixer: Option<Seq<char>>,
    pub url: Option<Seq<char>>,
}

/// View of an optional owned string.
pub open spec fn opt_str_view(o: Option<String>) -> Option<Seq<char>> {
    match o {
        Some(s) => Some(s@),
        None => None,
    }
}

impl View for Rule {
    type V = RuleView;

    open spec fn view(&self) -> RuleView {
        RuleView {
            id: self.id@,
            message: self.message@,
            severity: self.severity,
            pattern: self.pattern@,
            fixer: opt_str_view(self.fixer),
            url: opt_str_view(self.url),
        }
    }
}

/// The message a diagnostic of this rule carries: editors drop a diagnostic
/// whose message is empty, so an empty configured message falls back to the
/// rule's identifier.
pub open spec fn display_message(r: RuleView) -> Seq<char> {
    if r.message.len() == 0 {
        r.id
    } else {
        r.message
    }
}

/// Never-empty message for a rule's diagnostics.
pub fn non_empty_message(rule: &Rule) -> (r: String)
    ensures
        r@ == display_message(rule@),
{
    if rule.message.as_str().is_empty() {
        rule.id.clone()
    } else {
        rule.message.clone()
    }
}

/// Copies an optional string.
pub fn clone_opt_string(o: &Option<String>) -> (r: Option<String>)
    ensures
        opt_str_view(r) == opt_str_view(*o),
{
    match o {
        Some(s) => Some(s.clone()),
        None => None,
    }
}

} // verus!
