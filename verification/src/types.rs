use vstd::prelude::*;

verus! {

/// A zero-based line/column position inside a document.
#[derive(Clone, Copy, PartialEq, Eq, Structural, Debug)]
pub struct TextPosition {
    pub line: u32,
    pub character: u32,
}

/// A half-open region of a document, as the editor protocol describes it.
#[derive(Clone, Copy, PartialEq, Eq, Structural, Debug)]
pub struct TextRange {
    pub start: TextPosition,
    pub end: TextPosition,
}

/// Builds a range from raw line/column numbers handed over by the
/// tree-walking collaborator.
pub fn make_range(start_line: u32, start_character: u32, end_line: u32, end_character: u32) -> (r:
    TextRange)
    ensures
        r.start.line == start_line,
        r.start.character == start_character,
        r.end.line == end_line,
        r.end.character == end_character,
{
    TextRange {
        start: TextPosition { line: start_line, character: start_character },
        end: TextPosition { line: end_line, character: end_character },
    }
}

/// One hit of a pattern (or of a rule's matcher) against a parsed document,
/// reported by the matching collaborator as plain values.
pub struct MatchHit {
    /// Source region the match covers.
    pub range: TextRange,
    /// The matched source text.
    pub text: String,
    /// Replacement text computed from the owning rule's fixer template, when
    /// the rule has one.
    pub replacement: Option<String>,
    /// Ranges of the conventionally named secondary capture group, when the
    /// rule defines one.
    pub secondary: Option<Vec<TextRange>>,
}

/// Mathematical image of a `MatchHit`.
pub struct MatchView {
    pub range: TextRange,
    pub text: Seq<char>,
    pub replacement: Option<Seq<char>>,
    pub secondary: Option<Seq<TextRange>>,
}

impl View for MatchHit {
    type V = MatchView;

    open spec fn view(&self) -> MatchView {
        MatchView {
            range: self.range,
            text: self.text@,
            replacement: match self.replacement {
                Some(s) => Some(s@),
                None => None,
            },
            secondary: match self.secondary {
                Some(v) => Some(v@),
                None => None,
            },
        }
    }
}

/// Copies a vector of ranges; ranges are plain value pairs.
pub fn copy_ranges(v: &Vec<TextRange>) -> (r: Vec<TextRange>)
    ensures
        r@ == v@,
{
    let mut out: Vec<TextRange> = Vec::new();
    let mut i: usize = 0;
    while i < v.len()
        invariant
            i <= v.len(),
            out@ == v@.subrange(0, i as int),
        decreases v.len() - i,
    {
        out.push(v[i]);
        i = i + 1;
    }
    assert(out@ =~= v@);
    out
}

} // verus!
