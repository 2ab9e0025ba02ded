//! The line classifier and statement builder: every source line becomes
//! exactly one statement.
use vstd::prelude::*;

use crate::ast::{
    BlockKind, BlockStart, BraceBlockKind, BraceBlockStart, Diagram, DiagramType,
    DiagramTypeModel, Participant, ParticipantKeyword, Statement, StatementModel,
};
use crate::text::{
    find_from, find_in, find_word_end, range_is, range_starts_with, starts_with,
    string_of, trim, trim_bounds, trim_start, word_end, chars_of, occurs_at, lemma_trim_trim,
};

verus! {

/// `rest` trimmed, or nothing where that leaves no text.
pub open spec fn non_empty(rest: Seq<char>) -> Option<Seq<char>> {
    if trim(rest).len() == 0 {
        None
    } else {
        Some(trim(rest))
    }
}

/// The diagram type that a declaration line (trimmed) declares; text that
/// names no known type declares a flowchart without direction.
pub open spec fn decode_diagram_type(t: Seq<char>) -> DiagramTypeModel {
    if t == "sequenceDiagram"@ {
        DiagramTypeModel::SequenceDiagram
    } else if starts_with(t, "flowchart"@) {
        DiagramTypeModel::Flowchart(non_empty(t.skip("flowchart"@.len() as int)))
    } else if starts_with(t, "graph"@) {
        DiagramTypeModel::Graph(non_empty(t.skip("graph"@.len() as int)))
    } else if t == "classDiagram"@ {
        DiagramTypeModel::ClassDiagram
    } else if t == "stateDiagram-v2"@ {
        DiagramTypeModel::StateDiagramV2
    } else if t == "stateDiagram"@ {
        DiagramTypeModel::StateDiagram
    } else if t == "erDiagram"@ {
        DiagramTypeModel::ErDiagram
    } else if t == "journey"@ {
        DiagramTypeModel::Journey
    } else if t == "gantt"@ {
        DiagramTypeModel::Gantt
    } else if starts_with(t, "pie"@) {
        DiagramTypeModel::Pie(find_from(t, "showData"@, 0) is Some)
    } else if t == "quadrantChart"@ {
        DiagramTypeModel::QuadrantChart
    } else if t == "requirementDiagram"@ {
        DiagramTypeModel::RequirementDiagram
    } else if t == "gitGraph"@ {
        DiagramTypeModel::GitGraph
    } else if t == "mindmap"@ {
        DiagramTypeModel::Mindmap
    } else if t == "timeline"@ {
        DiagramTypeModel::Timeline
    } else if t == "sankey-beta"@ {
        DiagramTypeModel::SankeyBeta
    } else if t == "xychart-beta"@ {
        DiagramTypeModel::XyChartBeta
    } else if t == "block-beta"@ {
        DiagramTypeModel::BlockBeta
    } else {
        DiagramTypeModel::Flowchart(None)
    }
}

fn optional_text(v: &Vec<char>, from: usize, to: usize) -> (r: Option<String>)
    requires
        from <= to <= v@.len(),
    ensures
        crate::ast::opt_view(r) == non_empty(v@.subrange(from as int, to as int)),
{
    let (a, b) = trim_bounds(v, from, to);
    if a == b {
        None
    } else {
        Some(string_of(v, a, b))
    }
}

/// Decodes the declaration line `v[from..to]` (trimmed).
fn parse_diagram_decl(v: &Vec<char>, from: usize, to: usize) -> (r: DiagramType)
    requires
        from <= to <= v@.len(),
    ensures
        r@ == decode_diagram_type(v@.subrange(from as int, to as int)),
{
    let ghost t = v@.subrange(from as int, to as int);
    if range_is(v, from, to, "sequenceDiagram") {
        DiagramType::SequenceDiagram
    } else if range_starts_with(v, from, to, "flowchart") {
        let n = "flowchart".unicode_len();
        assert(t.skip(n as int) =~= v@.subrange(from + n, to as int));
        DiagramType::Flowchart(optional_text(v, from + n, to))
    } else if range_starts_with(v, from, to, "graph") {
        let n = "graph".unicode_len();
        assert(t.skip(n as int) =~= v@.subrange(from + n, to as int));
        DiagramType::Graph(optional_text(v, from + n, to))
    } else if range_is(v, from, to, "classDiagram") {
        DiagramType::ClassDiagram
    } else if range_is(v, from, to, "stateDiagram-v2") {
        DiagramType::StateDiagramV2
    } else if range_is(v, from, to, "stateDiagram") {
        DiagramType::StateDiagram
    } else if range_is(v, from, to, "erDiagram") {
        DiagramType::ErDiagram
    } else if range_is(v, from, to, "journey") {
        DiagramType::Journey
    } else if range_is(v, from, to, "gantt") {
        DiagramType::Gantt
    } else if range_starts_with(v, from, to, "pie") {
        DiagramType::Pie(find_in(v, from, to, "showData").is_some())
    } else if range_is(v, from, to, "quadrantChart") {
        DiagramType::QuadrantChart
    } else if range_is(v, from, to, "requirementDiagram") {
        DiagramType::RequirementDiagram
    } else if range_is(v, from, to, "gitGraph") {
        DiagramType::GitGraph
    } else if range_is(v, from, to, "mindmap") {
        DiagramType::Mindmap
    } else if range_is(v, from, to, "timeline") {
        DiagramType::Timeline
    } else if range_is(v, from, to, "sankey-beta") {
        DiagramType::SankeyBeta
    } else if range_is(v, from, to, "xychart-beta") {
        DiagramType::XyChartBeta
    } else if range_is(v, from, to, "block-beta") {
        DiagramType::BlockBeta
    } else {
        DiagramType::Flowchart(None)
    }
}

/// Whether `t` ends with `p`.
pub open spec fn ends_with(t: Seq<char>, p: Seq<char>) -> bool {
    p.len() <= t.len() && t.skip(t.len() - p.len()) == p
}

pub open spec fn is_comment(t: Seq<char>) -> bool {
    t.len() >= 2 && t[0] == '%' && t[1] == '%'
}

/// A directive: `%%{ ... }%%`.
pub open spec fn is_directive(t: Seq<char>) -> bool {
    starts_with(t, seq!['%', '%', '{']) && ends_with(t, seq!['}', '%', '%'])
}

/// The statement of a trimmed line that may stand before the diagram
/// declaration: a blank line, a directive or a comment.
pub open spec fn prelude_statement(t: Seq<char>) -> Option<StatementModel> {
    if t.len() == 0 {
        Some(StatementModel::BlankLine)
    } else if is_directive(t) {
        Some(StatementModel::Directive(t))
    } else if is_comment(t) {
        Some(StatementModel::Comment(t.skip(2)))
    } else {
        None
    }
}

pub open spec fn block_kind_of(w: Seq<char>) -> Option<BlockKind> {
    if w == "critical"@ {
        Some(BlockKind::Critical)
    } else if w == "alt"@ {
        Some(BlockKind::Alt)
    } else if w == "loop"@ {
        Some(BlockKind::Loop)
    } else if w == "par"@ {
        Some(BlockKind::Par)
    } else if w == "opt"@ {
        Some(BlockKind::Opt)
    } else if w == "break"@ {
        Some(BlockKind::Break)
    } else if w == "rect"@ {
        Some(BlockKind::Rect)
    } else if w == "subgraph"@ {
        Some(BlockKind::Subgraph)
    } else {
        None
    }
}

pub open spec fn brace_kind_of(w: Seq<char>) -> Option<BraceBlockKind> {
    if w == "state"@ {
        Some(BraceBlockKind::State)
    } else if w == "class"@ {
        Some(BraceBlockKind::Class)
    } else if w == "namespace"@ {
        Some(BraceBlockKind::Namespace)
    } else {
        None
    }
}

pub open spec fn participant_keyword_of(w: Seq<char>) -> Option<ParticipantKeyword> {
    if w == "participant"@ {
        Some(ParticipantKeyword::Participant)
    } else if w == "actor"@ {
        Some(ParticipantKeyword::Actor)
    } else {
        None
    }
}

/// The first word of `t`: its characters up to the first white space.
pub open spec fn first_word(t: Seq<char>) -> Seq<char> {
    t.take(word_end(t, 0))
}

/// What follows the first word of `t`.
pub open spec fn after_word(t: Seq<char>) -> Seq<char> {
    t.skip(word_end(t, 0))
}

/// The name of a brace block: what stands between the keyword and the final
/// `{`, trimmed.
pub open spec fn brace_name(t: Seq<char>) -> Seq<char> {
    trim(t.subrange(word_end(t, 0), t.len() - 1))
}

/// A participant declaration's text after the keyword (trimmed), split at
/// the first ` as ` into the name and the alias.
pub open spec fn split_alias(r: Seq<char>) -> (Seq<char>, Option<Seq<char>>) {
    match find_from(r, " as "@, 0) {
        Some(p) => (trim(r.take(p)), non_empty(r.skip(p + " as "@.len()))),
        None => (r, None),
    }
}

/// The statement of a trimmed line after the diagram declaration, other
/// than a blank line, a directive or a comment. `option` and `else` are
/// recognized in sequence diagrams only.
pub open spec fn content_statement(t: Seq<char>, sequence: bool) -> StatementModel {
    let w = first_word(t);
    let rest = after_word(t);
    if t == "end"@ {
        StatementModel::BlockEnd
    } else if t == "}"@ {
        StatementModel::BraceBlockEnd
    } else if block_kind_of(w) is Some {
        StatementModel::BlockStart { kind: block_kind_of(w)->0, label: non_empty(rest) }
    } else if sequence && w == "option"@ {
        StatementModel::BlockOption(non_empty(rest))
    } else if sequence && w == "else"@ {
        StatementModel::BlockElse(non_empty(rest))
    } else if brace_kind_of(w) is Some && word_end(t, 0) < t.len() && t.last() == '{'
        && brace_name(t).len() > 0 {
        StatementModel::BraceBlockStart { kind: brace_kind_of(w)->0, name: brace_name(t) }
    } else if participant_keyword_of(w) is Some && trim(rest).len() > 0 {
        StatementModel::Participant {
            keyword: participant_keyword_of(w)->0,
            name: split_alias(trim(rest)).0,
            alias: split_alias(trim(rest)).1,
        }
    } else if w == "note"@ || w == "Note"@ {
        StatementModel::Note(t)
    } else {
        StatementModel::GenericLine(t)
    }
}

/// The statement of a trimmed line after the diagram declaration.
pub open spec fn line_statement(t: Seq<char>, sequence: bool) -> StatementModel {
    match prelude_statement(t) {
        Some(s) => s,
        None => content_statement(t, sequence),
    }
}

pub open spec fn is_ascii_letter(c: char) -> bool {
    ('a' <= c <= 'z') || ('A' <= c <= 'Z')
}

/// The column (counted from one) where the text of `line` starts.
pub open spec fn text_column(line: Seq<char>) -> nat {
    (1 + line.len() - trim_start(line).len()) as nat
}

/// One step of the classifier. `declared` is absent before the diagram
/// declaration and afterwards tells whether it declared a sequence diagram.
/// Gives the line's statement and the next state, or the column of a
/// declaration line that does not start with a diagram type word.
pub open spec fn classify(line: Seq<char>, declared: Option<bool>) -> Result<
    (StatementModel, Option<bool>),
    nat,
> {
    let t = trim(line);
    match declared {
        Some(sequence) => Ok((line_statement(t, sequence), declared)),
        None => match prelude_statement(t) {
            Some(s) => Ok((s, None)),
            None => if is_ascii_letter(t[0]) {
                let d = decode_diagram_type(t);
                Ok((StatementModel::DiagramDecl(d), Some(d is SequenceDiagram)))
            } else {
                Err(text_column(line))
            },
        },
    }
}

/// The statements of the lines `ls`, the first of which is line `n + 1`
/// of the source; or the line and column of the first line refused.
pub open spec fn parse_lines(ls: Seq<Seq<char>>, n: nat, declared: Option<bool>) -> Result<
    Seq<StatementModel>,
    (nat, nat),
>
    decreases ls.len(),
{
    if ls.len() == 0 {
        Ok(seq![])
    } else {
        match classify(ls[0], declared) {
            Err(c) => Err((n + 1, c)),
            Ok((s, d)) => match parse_lines(ls.drop_first(), n + 1, d) {
                Ok(rest) => Ok(seq![s] + rest),
                Err(e) => Err(e),
            },
        }
    }
}

/// The input with a final newline.
pub open spec fn terminated(s: Seq<char>) -> Seq<char> {
    if s.len() > 0 && s.last() == '\n' {
        s
    } else {
        s.push('\n')
    }
}

/// The number of characters from `i` to the end of its line.
pub open spec fn line_len(s: Seq<char>, i: int) -> nat
    decreases s.len() - i,
{
    if i < 0 || i >= s.len() || s[i] == '\n' {
        0
    } else {
        1 + line_len(s, i + 1)
    }
}

/// The lines of `s` from index `i` on, without their newlines.
pub open spec fn lines_from(s: Seq<char>, i: int) -> Seq<Seq<char>>
    decreases s.len() - i,
{
    if i < 0 || i >= s.len() {
        seq![]
    } else if i + line_len(s, i) < s.len() {
        seq![s.subrange(i, i + line_len(s, i))] + lines_from(s, i + line_len(s, i) + 1)
    } else {
        seq![s.subrange(i, s.len() as int)]
    }
}

/// The source lines of an input.
pub open spec fn source_lines(s: Seq<char>) -> Seq<Seq<char>> {
    lines_from(terminated(s), 0)
}

/// What parsing an input gives: a statement for every source line, or the
/// line and column of the first line refused.
pub open spec fn parse_model(s: Seq<char>) -> Result<Seq<StatementModel>, (nat, nat)> {
    parse_lines(source_lines(s), 0, None)
}

fn block_kind_at(v: &Vec<char>, from: usize, to: usize) -> (r: Option<BlockKind>)
    requires
        from <= to <= v@.len(),
    ensures
        r == block_kind_of(v@.subrange(from as int, to as int)),
{
    if range_is(v, from, to, "critical") {
        Some(BlockKind::Critical)
    } else if range_is(v, from, to, "alt") {
        Some(BlockKind::Alt)
    } else if range_is(v, from, to, "loop") {
        Some(BlockKind::Loop)
    } else if range_is(v, from, to, "par") {
        Some(BlockKind::Par)
    } else if range_is(v, from, to, "opt") {
        Some(BlockKind::Opt)
    } else if range_is(v, from, to, "break") {
        Some(BlockKind::Break)
    } else if range_is(v, from, to, "rect") {
        Some(BlockKind::Rect)
    } else if range_is(v, from, to, "subgraph") {
        Some(BlockKind::Subgraph)
    } else {
        None
    }
}

fn brace_kind_at(v: &Vec<char>, from: usize, to: usize) -> (r: Option<BraceBlockKind>)
    requires
        from <= to <= v@.len(),
    ensures
        r == brace_kind_of(v@.subrange(from as int, to as int)),
{
    if range_is(v, from, to, "state") {
        Some(BraceBlockKind::State)
    } else if range_is(v, from, to, "class") {
        Some(BraceBlockKind::Class)
    } else if range_is(v, from, to, "namespace") {
        Some(BraceBlockKind::Namespace)
    } else {
        None
    }
}

fn participant_keyword_at(v: &Vec<char>, from: usize, to: usize) -> (r: Option<
    ParticipantKeyword,
>)
    requires
        from <= to <= v@.len(),
    ensures
        r == participant_keyword_of(v@.subrange(from as int, to as int)),
{
    if range_is(v, from, to, "participant") {
        Some(ParticipantKeyword::Participant)
    } else if range_is(v, from, to, "actor") {
        Some(ParticipantKeyword::Actor)
    } else {
        None
    }
}

/// Builds a participant from the text after its keyword, `v[from..to]`
/// (trimmed): the name, then the alias after ` as `.
fn parse_participant(v: &Vec<char>, from: usize, to: usize, keyword: ParticipantKeyword) -> (r:
    Participant)
    requires
        from <= to <= v@.len(),
    ensures
        r.keyword == keyword,
        r.name@ == split_alias(v@.subrange(from as int, to as int)).0,
        crate::ast::opt_view(r.alias) == split_alias(v@.subrange(from as int, to as int)).1,
{
    let ghost t = v@.subrange(from as int, to as int);
    match find_in(v, from, to, " as ") {
        Some(p) => {
            let n = " as ".unicode_len();
            assert(t.take(p - from) =~= v@.subrange(from as int, p as int));
            let (a, b) = trim_bounds(v, from, p);
            let name = string_of(v, a, b);
            assert(t.skip(p - from + n) =~= v@.subrange(p + n, to as int));
            let alias = optional_text(v, p + n, to);
            Participant { keyword, name, alias }
        },
        None => Participant { keyword, name: string_of(v, from, to), alias: None },
    }
}

/// The classifier: it remembers whether the diagram declaration has been
/// read, and whether that declared a sequence diagram.
pub struct MermaidParser {
    declared: Option<bool>,
}

impl View for MermaidParser {
    type V = Option<bool>;

    closed spec fn view(&self) -> Option<bool> {
        self.declared
    }
}

/// The message of a grammar error.
pub open spec fn grammar_message() -> Seq<char> {
    "expected a diagram type"@
}

/// Errors of the parser.
#[derive(Debug, Clone)]
pub enum ParseError {
    /// A line that the grammar does not accept: a diagram declaration that
    /// does not start with a diagram type word.
    Grammar { line: usize, column: usize, message: String },
}

impl MermaidParser {
    /// A classifier that has read no line yet.
    pub fn new() -> (r: Self)
        ensures
            r@ is None,
    {
        MermaidParser { declared: None }
    }

    /// Classifies the source line `v[from..to]`, line `number` of the input.
    pub fn parse_line(&mut self, v: &Vec<char>, from: usize, to: usize, number: usize) -> (r:
        Result<Statement, ParseError>)
        requires
            from <= to <= v@.len(),
            to < usize::MAX,
        ensures
            match classify(v@.subrange(from as int, to as int), old(self)@) {
                Ok((s, d)) => r matches Ok(st) && st@ == s && final(self)@ == d,
                Err(c) => r matches Err(ParseError::Grammar { line, column, message }) && line
                    == number && column == c && message@ == grammar_message()
                    && final(self)@ == old(self)@,
            },
    {
        let ghost line = v@.subrange(from as int, to as int);
        let (a, b) = trim_bounds(v, from, to);
        let ghost t = v@.subrange(a as int, b as int);
        assert(trim(line) == t);
        if a == b {
            return Ok(Statement::BlankLine);
        }
        if b - a >= 3 && v[a] == '%' && v[a + 1] == '%' && v[a + 2] == '{' && v[b - 3] == '}'
            && v[b - 2] == '%' && v[b - 1] == '%' {
            assert(t.take(3) =~= seq!['%', '%', '{']);
            assert(t.skip(t.len() - 3) =~= seq!['}', '%', '%']);
            return Ok(Statement::Directive(string_of(v, a, b)));
        }
        assert(!is_directive(t)) by {
            if is_directive(t) {
                assert(t.take(3)[0] == t[0] && t.take(3)[1] == t[1] && t.take(3)[2] == t[2]);
                let k = t.len() - 3;
                assert(t.skip(k)[0] == t[k] && t.skip(k)[1] == t[k + 1] && t.skip(k)[2] == t[k
                    + 2]);
            }
        }
        if b - a >= 2 && v[a] == '%' && v[a + 1] == '%' {
            assert(t.skip(2) =~= v@.subrange(a + 2, b as int));
            return Ok(Statement::Comment(string_of(v, a + 2, b)));
        }
        match self.declared {
            None => {
                if ('a' <= v[a] && v[a] <= 'z') || ('A' <= v[a] && v[a] <= 'Z') {
                    let d = parse_diagram_decl(v, a, b);
                    self.declared = Some(matches!(d, DiagramType::SequenceDiagram));
                    Ok(Statement::DiagramDecl(d))
                } else {
                    Err(
                        ParseError::Grammar {
                            line: number,
                            column: a - from + 1,
                            message: String::from_str("expected a diagram type"),
                        },
                    )
                }
            },
            Some(sequence) => Ok(content_line(v, a, b, sequence)),
        }
    }
}

/// The statement of the trimmed line `v[from..to]` after the declaration,
/// being neither blank, a directive nor a comment.
fn content_line(v: &Vec<char>, from: usize, to: usize, sequence: bool) -> (r: Statement)
    requires
        from < to <= v@.len(),
    ensures
        r@ == content_statement(v@.subrange(from as int, to as int), sequence),
{
    let ghost t = v@.subrange(from as int, to as int);
    if range_is(v, from, to, "end") {
        return Statement::BlockEnd;
    }
    if range_is(v, from, to, "}") {
        return Statement::BraceBlockEnd;
    }
    let we = find_word_end(v, from, to);
    assert(first_word(t) =~= v@.subrange(from as int, we as int));
    assert(after_word(t) =~= v@.subrange(we as int, to as int));
    if let Some(kind) = block_kind_at(v, from, we) {
        return Statement::BlockStart(BlockStart { kind, label: optional_text(v, we, to) });
    }
    if sequence && range_is(v, from, we, "option") {
        return Statement::BlockOption(optional_text(v, we, to));
    }
    if sequence && range_is(v, from, we, "else") {
        return Statement::BlockElse(optional_text(v, we, to));
    }
    if let Some(kind) = brace_kind_at(v, from, we) {
        if we < to && v[to - 1] == '{' {
            assert(t.subrange(we - from, t.len() - 1) =~= v@.subrange(we as int, to - 1));
            let (a, b) = trim_bounds(v, we, to - 1);
            if a < b {
                return Statement::BraceBlockStart(
                    BraceBlockStart { kind, name: string_of(v, a, b) },
                );
            }
        }
    }
    if let Some(keyword) = participant_keyword_at(v, from, we) {
        let (a, b) = trim_bounds(v, we, to);
        if a < b {
            return Statement::Participant(parse_participant(v, a, b, keyword));
        }
    }
    if range_is(v, from, we, "note") || range_is(v, from, we, "Note") {
        return Statement::Note(string_of(v, from, to));
    }
    Statement::GenericLine(string_of(v, from, to))
}

pub open spec fn spans(s: Seq<char>, bounds: Seq<(usize, usize)>) -> Seq<Seq<char>> {
    bounds.map_values(|b: (usize, usize)| s.subrange(b.0 as int, b.1 as int))
}

/// The bounds of the lines of `v`, without their newlines.
fn line_bounds(v: &Vec<char>) -> (r: Vec<(usize, usize)>)
    ensures
        spans(v@, r@) == lines_from(v@, 0),
        forall|i: int| 0 <= i < r@.len() ==> (#[trigger] r@[i]).0 <= r@[i].1 <= v@.len(),
{
    let mut r: Vec<(usize, usize)> = Vec::new();
    let len = v.len();
    let mut pos: usize = 0;
    while pos < len
        invariant
            len == v@.len(),
            pos <= len,
            lines_from(v@, 0) == spans(v@, r@) + lines_from(v@, pos as int),
            forall|i: int| 0 <= i < r@.len() ==> (#[trigger] r@[i]).0 <= r@[i].1 <= v@.len(),
        decreases len - pos,
    {
        let mut k = pos;
        while k < len && v[k] != '\n'
            invariant
                len == v@.len(),
                pos <= k <= len,
                line_len(v@, pos as int) == (k - pos) + line_len(v@, k as int),
            decreases len - k,
        {
            k = k + 1;
        }
        let ghost before = spans(v@, r@);
        let ghost old_r = r@;
        r.push((pos, k));
        assert(spans(v@, r@) =~= before + seq![v@.subrange(pos as int, k as int)]);
        assert forall|i: int| 0 <= i < r@.len() implies (#[trigger] r@[i]).0 <= r@[i].1
            <= v@.len() by {
            if i == r@.len() - 1 {
                assert(r@[i] == (pos, k));
            } else {
                assert(r@[i] == old_r[i]);
            }
        }
        if k < len {
            pos = k + 1;
        } else {
            assert(lines_from(v@, pos as int) =~= seq![v@.subrange(pos as int, k as int)]);
            assert(lines_from(v@, len as int) =~= seq![]);
            pos = len;
        }
    }
    assert(lines_from(v@, pos as int) =~= seq![]);
    r
}

pub open spec fn prefixed(done: Seq<StatementModel>, r: Result<Seq<StatementModel>, (nat, nat)>) -> Result<
    Seq<StatementModel>,
    (nat, nat),
> {
    match r {
        Ok(rest) => Ok(done + rest),
        Err(e) => Err(e),
    }
}

proof fn lemma_prefixed(
    a: Seq<StatementModel>,
    b: Seq<StatementModel>,
    r: Result<Seq<StatementModel>, (nat, nat)>,
)
    ensures
        prefixed(a, prefixed(b, r)) == prefixed(a + b, r),
        prefixed(seq![], r) == r,
{
    match r {
        Ok(x) => {
            assert(a + (b + x) =~= (a + b) + x);
            assert(seq![] + x =~= x);
        },
        Err(_) => {},
    }
}

/// Parses a diagram script: one statement per source line.
pub fn parse(input: &str) -> (r: Result<Diagram, ParseError>)
    requires
        input@.len() + 1 < usize::MAX,
    ensures
        match r {
            Ok(d) => parse_model(input@) == Ok::<Seq<StatementModel>, (nat, nat)>(d@),
            Err(ParseError::Grammar { line, column, message }) => parse_model(input@) == Err::<
                Seq<StatementModel>,
                (nat, nat),
            >((line as nat, column as nat)) && message@ == grammar_message(),
        },
{
    let mut v = chars_of(input);
    if v.len() == 0 || v[v.len() - 1] != '\n' {
        v.push('\n');
    }
    assert(v@ == terminated(input@));
    let bounds = line_bounds(&v);
    let ghost all = source_lines(input@);
    let mut parser = MermaidParser::new();
    let mut statements: Vec<Statement> = Vec::new();
    let mut i: usize = 0;
    proof {
        assert(all.skip(0) =~= all);
        assert(crate::formatter::models(statements@) =~= seq![]);
        lemma_prefixed(seq![], seq![], parse_lines(all, 0, None));
    }
    while i < bounds.len()
        invariant
            all == spans(v@, bounds@),
            all == source_lines(input@),
            v@.len() < usize::MAX,
            forall|j: int| 0 <= j < bounds@.len() ==> (#[trigger] bounds@[j]).0 <= bounds@[j].1 <= v@.len(),
            i <= bounds@.len(),
            parse_lines(all, 0, None) == prefixed(
                crate::formatter::models(statements@),
                parse_lines(all.skip(i as int), i as nat, parser@),
            ),
        decreases bounds.len() - i,
    {
        let (from, to) = bounds[i];
        let ghost rest = all.skip(i as int);
        assert(rest[0] == v@.subrange(from as int, to as int));
        assert(rest.drop_first() =~= all.skip(i + 1));
        let ghost done = crate::formatter::models(statements@);
        match parser.parse_line(&v, from, to, i + 1) {
            Ok(stmt) => {
                statements.push(stmt);
                assert(crate::formatter::models(statements@) =~= done + seq![stmt@]);
                proof {
                    lemma_prefixed(
                        done,
                        seq![stmt@],
                        parse_lines(all.skip(i + 1), (i + 1) as nat, parser@),
                    );
                }
            },
            Err(e) => {
                return Err(e);
            },
        }
        i = i + 1;
    }
    assert(all.skip(i as int) =~= seq![]);
    let d = Diagram { statements };
    assert(d@ =~= crate::formatter::models(d.statements@));
    Ok(d)
}

proof fn lemma_parse_lines_len(ls: Seq<Seq<char>>, n: nat, declared: Option<bool>)
    ensures
        parse_lines(ls, n, declared) matches Ok(ss) ==> ss.len() == ls.len(),
    decreases ls.len(),
{
    if ls.len() > 0 {
        match classify(ls[0], declared) {
            Ok((s, d)) => lemma_parse_lines_len(ls.drop_first(), n + 1, d),
            Err(_) => {},
        }
    }
}

/// Parsing is total over lines: where it succeeds, every source line gives
/// exactly one statement.
pub proof fn lemma_one_statement_per_line(input: Seq<char>)
    ensures
        parse_model(input) matches Ok(ss) ==> ss.len() == source_lines(input).len(),
{
    lemma_parse_lines_len(source_lines(input), 0, None);
}

proof fn lemma_find_some(s: Seq<char>, pat: Seq<char>, i: int, j: int)
    requires
        0 <= i <= j,
        occurs_at(s, pat, j),
    ensures
        find_from(s, pat, i) is Some,
    decreases j - i,
{
    if i < j && !occurs_at(s, pat, i) {
        lemma_find_some(s, pat, i + 1, j);
    }
}

/// A decoded direction survives being written after its keyword.
proof fn lemma_direction_round_trip(head: Seq<char>, dir: Option<Seq<char>>, t: Seq<char>)
    requires
        dir == non_empty(t),
    ensures
        dir matches Some(d) ==> crate::ast::with_suffix(head, dir).skip(head.len() as int) == seq![' ']
            + d,
        non_empty(crate::ast::with_suffix(head, dir).skip(head.len() as int)) == dir,
{
    lemma_trim_trim(t);
    match dir {
        Some(d) => {
            assert(crate::ast::with_suffix(head, dir).skip(head.len() as int) =~= seq![' '] + d);
        },
        None => {
            assert(crate::ast::with_suffix(head, dir).skip(head.len() as int) =~= seq![]);
            assert(trim(seq![]) =~= seq![]);
        },
    }
}

/// The canonical text of a declared diagram type declares that same type:
/// formatting a declaration and parsing it again gives it back.
#[verifier::rlimit(40)]
pub proof fn lemma_declaration_round_trip(t: Seq<char>)
    ensures
        decode_diagram_type(crate::ast::diagram_type_text(decode_diagram_type(t)))
            == decode_diagram_type(t),
{
    reveal_strlit("sequenceDiagram");
    reveal_strlit("flowchart");
    reveal_strlit("graph");
    reveal_strlit("classDiagram");
    reveal_strlit("stateDiagram-v2");
    reveal_strlit("stateDiagram");
    reveal_strlit("erDiagram");
    reveal_strlit("journey");
    reveal_strlit("gantt");
    reveal_strlit("pie");
    reveal_strlit("pie showData");
    reveal_strlit("showData");
    reveal_strlit("quadrantChart");
    reveal_strlit("requirementDiagram");
    reveal_strlit("gitGraph");
    reveal_strlit("mindmap");
    reveal_strlit("timeline");
    reveal_strlit("sankey-beta");
    reveal_strlit("xychart-beta");
    reveal_strlit("block-beta");
    let d = decode_diagram_type(t);
    let u = crate::ast::diagram_type_text(d);
    match d {
        DiagramTypeModel::Flowchart(dir) => {
            let rest = t.skip("flowchart"@.len() as int);
            if starts_with(t, "flowchart"@) {
                lemma_direction_round_trip("flowchart"@, dir, rest);
            } else {
                lemma_direction_round_trip("flowchart"@, dir, seq![]);
            }
            assert(u.take(9) =~= "flowchart"@);
            assert(u[0] != "sequenceDiagram"@[0]);
        },
        DiagramTypeModel::Graph(dir) => {
            lemma_direction_round_trip("graph"@, dir, t.skip("graph"@.len() as int));
            assert(u.take(5) =~= "graph"@);
            assert(u[0] != "sequenceDiagram"@[0]);
            assert(u[0] != "flowchart"@[0]);
        },
        DiagramTypeModel::Pie(show) => {
            assert(u.take(3) =~= "pie"@);
            if show {
                assert(u.subrange(4, 12) =~= "showData"@);
                lemma_find_some(u, "showData"@, 0, 4);
            }
            assert(u[0] != "sequenceDiagram"@[0]);
            assert(u[0] != "flowchart"@[0]);
            assert(u[0] != "graph"@[0]);
            assert(u[0] != "classDiagram"@[0]);
            assert(u[0] != "stateDiagram"@[0]);
            assert(u[0] != "erDiagram"@[0]);
            assert(u[0] != "journey"@[0]);
            assert(u[0] != "gantt"@[0]);
        },
        _ => {}
    }
}

proof fn lemma_parse_lines_text(ls: Seq<Seq<char>>, n: nat, declared: Option<bool>)
    ensures
        parse_lines(ls, n, declared) matches Ok(ss) ==> forall|i: int|
            0 <= i < ss.len() ==> crate::formatter::has_text(#[trigger] ss[i]),
    decreases ls.len(),
{
    if ls.len() > 0 {
        match classify(ls[0], declared) {
            Ok((s, d)) => {
                lemma_parse_lines_text(ls.drop_first(), n + 1, d);
                match parse_lines(ls, n, declared) {
                    Ok(ss) => {
                        let rest = parse_lines(ls.drop_first(), n + 1, d)->Ok_0;
                        assert(ss == seq![s] + rest);
                        assert(forall|i: int| 1 <= i < ss.len() ==> ss[i] == rest[i - 1]);
                    },
                    Err(_) => {},
                }
            },
            Err(_) => {},
        }
    }
}

/// Every statement that parsing builds carries its text: no directive, note
/// or content line is empty.
pub proof fn lemma_parsed_statements_have_text(input: Seq<char>)
    ensures
        parse_model(input) matches Ok(ss) ==> forall|i: int|
            0 <= i < ss.len() ==> crate::formatter::has_text(#[trigger] ss[i]),
{
    lemma_parse_lines_text(source_lines(input), 0, None);
}

/// Whether a trimmed declaration names one of the known diagram types.
pub open spec fn known_declaration(t: Seq<char>) -> bool {
    t == "sequenceDiagram"@ || starts_with(t, "flowchart"@) || starts_with(t, "graph"@) || t
        == "classDiagram"@ || t == "stateDiagram-v2"@ || t == "stateDiagram"@ || t
        == "erDiagram"@ || t == "journey"@ || t == "gantt"@ || starts_with(t, "pie"@) || t
        == "quadrantChart"@ || t == "requirementDiagram"@ || t == "gitGraph"@ || t
        == "mindmap"@ || t == "timeline"@ || t == "sankey-beta"@ || t == "xychart-beta"@ || t
        == "block-beta"@
}

proof fn lemma_declared_never_fails(ls: Seq<Seq<char>>, n: nat, sequence: bool)
    ensures
        parse_lines(ls, n, Some(sequence)) is Ok,
    decreases ls.len(),
{
    if ls.len() > 0 {
        lemma_declared_never_fails(ls.drop_first(), n + 1, sequence);
    }
}

/// Fallback declaration: where the first line of the input starts with a
/// diagram type word that names no known type, the input parses, and that
/// line becomes a flowchart declaration without direction.
pub proof fn lemma_unknown_type_is_flowchart(input: Seq<char>)
    requires
        trim(source_lines(input)[0]).len() > 0,
        is_ascii_letter(trim(source_lines(input)[0])[0]),
        !known_declaration(trim(source_lines(input)[0])),
    ensures
        parse_model(input) matches Ok(ss) && ss[0] == StatementModel::DiagramDecl(
            DiagramTypeModel::Flowchart(None),
        ),
{
    let ls = source_lines(input);
    let t = trim(ls[0]);
    let u = terminated(input);
    assert(u.len() > 0);
    assert(ls.len() > 0);
    assert(!is_directive(t)) by {
        if is_directive(t) {
            assert(t.take(3)[0] == t[0]);
        }
    }
    lemma_declared_never_fails(ls.drop_first(), 1, false);
}

/// The classifier's state before line `i` of `ls`.
pub open spec fn state_before(ls: Seq<Seq<char>>, i: int) -> Option<bool>
    decreases i,
{
    if i <= 0 {
        None
    } else {
        match classify(ls[i - 1], state_before(ls, i - 1)) {
            Ok((_, d)) => d,
            Err(_) => None,
        }
    }
}

proof fn lemma_parse_from(ls: Seq<Seq<char>>, k: int)
    requires
        0 <= k <= ls.len(),
    ensures
        parse_lines(ls.skip(k), k as nat, state_before(ls, k)) matches Ok(rest) ==> rest.len()
            == ls.len() - k && forall|i: int|
            k <= i < ls.len() ==> (classify(ls[i], state_before(ls, i)) matches Ok((s, _)) && (
            #[trigger] rest[i - k]) == s),
    decreases ls.len() - k,
{
    if k < ls.len() {
        let r = ls.skip(k);
        assert(r[0] == ls[k]);
        assert(r.drop_first() =~= ls.skip(k + 1));
        lemma_parse_from(ls, k + 1);
        match classify(ls[k], state_before(ls, k)) {
            Ok((s, d)) => {
                assert(state_before(ls, k + 1) == d);
                match parse_lines(r, k as nat, state_before(ls, k)) {
                    Ok(rest) => {
                        let tail = parse_lines(ls.skip(k + 1), (k + 1) as nat, d)->Ok_0;
                        assert(rest == seq![s] + tail);
                        assert forall|i: int| k <= i < ls.len() implies (classify(
                            ls[i],
                            state_before(ls, i),
                        ) matches Ok((s2, _)) && (#[trigger] rest[i - k]) == s2) by {
                            if i > k {
                                assert(rest[i - k] == tail[i - (k + 1)]);
                            }
                        }
                    },
                    Err(_) => {},
                }
            },
            Err(_) => {},
        }
    }
}

/// A statement is a blank line exactly when its line is empty or holds only
/// white space.
proof fn lemma_blank_iff(line: Seq<char>, declared: Option<bool>)
    ensures
        classify(line, declared) matches Ok((s, _)) ==> (s is BlankLine <==> trim(line).len()
            == 0),
{
}

/// One statement per line, in order: where parsing succeeds, statement `i` is
/// what the classifier makes of source line `i` in the state that the lines
/// before it left, and it is a blank line exactly when that line is empty or
/// holds only white space (blank lines are kept; they collapse only when
/// rendered).
pub proof fn lemma_statement_of_each_line(input: Seq<char>)
    ensures
        parse_model(input) matches Ok(ss) ==> ss.len() == source_lines(input).len() && forall|
            i: int,
        |
            0 <= i < ss.len() ==> (classify(source_lines(input)[i], state_before(source_lines(input), i))
                matches Ok((s, _)) && #[trigger] ss[i] == s && (s is BlankLine <==> trim(
                source_lines(input)[i],
            ).len() == 0)),
{
    let ls = source_lines(input);
    assert(ls.skip(0) =~= ls);
    assert(state_before(ls, 0) is None);
    lemma_parse_from(ls, 0);
    match parse_model(input) {
        Ok(ss) => {
            assert forall|i: int| 0 <= i < ss.len() implies (classify(ls[i], state_before(ls, i))
                matches Ok((s, _)) && #[trigger] ss[i] == s && (s is BlankLine <==> trim(
                ls[i],
            ).len() == 0)) by {
                assert(ss[i - 0] == ss[i]);
                lemma_blank_iff(ls[i], state_before(ls, i));
            }
        },
        Err(_) => {},
    }
}

} // verus!
