//! Rendering of a parsed diagram: indentation depth, blank lines, and the
//! normalization of free-form content lines.
use vstd::prelude::*;

use crate::ast::{
    block_kind_text, brace_kind_text, diagram_type_text, participant_keyword_text, with_suffix,
    Diagram, Statement, StatementModel,
};
use crate::config::Config;
use crate::text::{
    append_str, chars_of, is_whitespace, is_ws, lemma_trim_shrinks, string_of, trim, trim_bounds, trim_end,
    trim_start,
};

verus! {

/// `s` with every run of spaces collapsed to one space.
pub open spec fn collapse_spaces(s: Seq<char>) -> Seq<char>
    decreases s.len(),
{
    if s.len() == 0 {
        s
    } else {
        let p = collapse_spaces(s.drop_last());
        if s.last() == ' ' && s.len() >= 2 && s[s.len() - 2] == ' ' {
            p
        } else {
            p.push(s.last())
        }
    }
}

/// Whether no two spaces stand next to each other in `s`.
pub open spec fn no_double_space(s: Seq<char>) -> bool {
    forall|i: int| 0 <= i < s.len() - 1 ==> !(#[trigger] s[i] == ' ' && s[i + 1] == ' ')
}

proof fn lemma_collapse_keeps_last(s: Seq<char>)
    requires
        s.len() > 0,
    ensures
        collapse_spaces(s).len() > 0,
        collapse_spaces(s).last() == s.last(),
    decreases s.len(),
{
    let p = s.drop_last();
    if s.last() == ' ' && s.len() >= 2 && s[s.len() - 2] == ' ' {
        lemma_collapse_keeps_last(p);
    }
}

proof fn lemma_collapse_no_double(s: Seq<char>)
    ensures
        no_double_space(collapse_spaces(s)),
    decreases s.len(),
{
    if s.len() > 0 {
        let p = s.drop_last();
        lemma_collapse_no_double(p);
        if !(s.last() == ' ' && s.len() >= 2 && s[s.len() - 2] == ' ') && p.len() > 0 {
            lemma_collapse_keeps_last(p);
            let q = collapse_spaces(p);
            let r = q.push(s.last());
            assert forall|i: int| 0 <= i < r.len() - 1 implies !(#[trigger] r[i] == ' ' && r[i
                + 1] == ' ') by {
                if i < q.len() - 1 {
                    assert(r[i] == q[i] && r[i + 1] == q[i + 1]);
                } else {
                    assert(r[i] == q.last());
                    assert(p.last() == s[s.len() - 2]);
                }
            }
        }
    }
}

proof fn lemma_collapse_fixed(s: Seq<char>)
    requires
        no_double_space(s),
    ensures
        collapse_spaces(s) == s,
    decreases s.len(),
{
    if s.len() > 0 {
        let p = s.drop_last();
        assert(no_double_space(p)) by {
            assert forall|i: int| 0 <= i < p.len() - 1 implies !(#[trigger] p[i] == ' ' && p[i
                + 1] == ' ') by {
                assert(p[i] == s[i] && p[i + 1] == s[i + 1]);
            }
        }
        lemma_collapse_fixed(p);
        if s.len() >= 2 {
            assert(!(s[s.len() - 2] == ' ' && s[s.len() - 1] == ' '));
        }
        assert(p.push(s.last()) =~= s);
    }
}

/// Collapsing runs of spaces leaves no two spaces side by side (so no colon
/// is followed by two spaces either), and collapsing again changes nothing.
pub proof fn lemma_collapse_idempotent(s: Seq<char>)
    ensures
        no_double_space(collapse_spaces(s)),
        collapse_spaces(collapse_spaces(s)) == collapse_spaces(s),
{
    lemma_collapse_no_double(s);
    lemma_collapse_fixed(collapse_spaces(s));
}

/// Scanning `s` from `j` with `depth` brackets open, the number of
/// characters after `j` at which the depth falls to zero.
pub open spec fn close_offset(s: Seq<char>, open: char, close: char, j: int, depth: int) -> Option<
    nat,
>
    decreases s.len() - j,
{
    if j < 0 || j >= s.len() {
        None
    } else {
        let d = if s[j] == open {
            depth + 1
        } else if s[j] == close {
            depth - 1
        } else {
            depth
        };
        if d == 0 {
            Some(0)
        } else {
            match close_offset(s, open, close, j + 1, d) {
                Some(n) => Some(n + 1),
                None => None,
            }
        }
    }
}

/// The bracket normalization of `s` from index `i` on: an opening bracket
/// followed by a space, with a matching closing bracket, has the text between
/// the two trimmed; every other character is kept.
pub open spec fn brackets_from(s: Seq<char>, open: char, close: char, i: int) -> Seq<char>
    decreases s.len() - i,
{
    if i < 0 || i >= s.len() {
        seq![]
    } else if s[i] == open && i + 1 < s.len() && s[i + 1] == ' ' && close_offset(
        s,
        open,
        close,
        i + 1,
        1,
    ) is Some && i + 1 + close_offset(s, open, close, i + 1, 1)->0 < s.len() {
        let k = i + 1 + close_offset(s, open, close, i + 1, 1)->0;
        seq![open] + trim(s.subrange(i + 1, k)) + seq![close] + brackets_from(s, open, close, k + 1)
    } else {
        seq![s[i]] + brackets_from(s, open, close, i + 1)
    }
}

/// The number of characters after `j` at which the next `|` stands.
pub open spec fn pipe_offset(s: Seq<char>, j: int) -> Option<nat>
    decreases s.len() - j,
{
    if j < 0 || j >= s.len() {
        None
    } else if s[j] == '|' {
        Some(0)
    } else {
        match pipe_offset(s, j + 1) {
            Some(n) => Some(n + 1),
            None => None,
        }
    }
}

/// The pipe-label normalization of `s` from index `i` on. Pipes pair up
/// from left to right; a pair whose opening `|` is followed by a space has
/// the text between the two trimmed, any other pair is kept as it is, and so
/// is the space after a closing `|`. A `|` with no later `|` is kept.
pub open spec fn pipes_from(s: Seq<char>, i: int) -> Seq<char>
    decreases s.len() - i,
{
    if i < 0 || i >= s.len() {
        seq![]
    } else if s[i] == '|' && pipe_offset(s, i + 1) is Some && i + 1 + pipe_offset(s, i + 1)->0
        < s.len() {
        let k = i + 1 + pipe_offset(s, i + 1)->0;
        if s[i + 1] == ' ' {
            seq!['|'] + trim(s.subrange(i + 1, k)) + seq!['|'] + pipes_from(s, k + 1)
        } else {
            s.subrange(i, k + 1) + pipes_from(s, k + 1)
        }
    } else {
        seq![s[i]] + pipes_from(s, i + 1)
    }
}

/// One pass of normalization: runs of spaces collapsed (so that a colon is
/// followed by at most one space), padding inside `[ ]`, `( )` and `{ }`
/// removed where the opening bracket is followed by a space, then padding
/// inside `| |` pairs removed likewise.
pub open spec fn normalize_pass(s: Seq<char>) -> Seq<char> {
    let a = collapse_spaces(s);
    let b = brackets_from(a, '[', ']', 0);
    let c = brackets_from(b, '(', ')', 0);
    let d = brackets_from(c, '{', '}', 0);
    pipes_from(d, 0)
}

/// The normalized form of a content line: the pass repeated until it no
/// longer changes the text. A pass that changes anything removes white
/// space, so padding of nested brackets goes too and normalizing again
/// changes nothing.
pub open spec fn normalize(s: Seq<char>) -> Seq<char>
    decreases s.len(),
{
    if normalize_pass(s).len() < s.len() {
        normalize(normalize_pass(s))
    } else {
        s
    }
}

fn push_range(out: &mut Vec<char>, v: &Vec<char>, from: usize, to: usize)
    requires
        from <= to <= v@.len(),
    ensures
        final(out)@ == old(out)@ + v@.subrange(from as int, to as int),
{
    let mut i = from;
    while i < to
        invariant
            from <= i <= to <= v@.len(),
            out@ == old(out)@ + v@.subrange(from as int, i as int),
        decreases to - i,
    {
        out.push(v[i]);
        assert(out@ =~= old(out)@ + v@.subrange(from as int, i + 1));
        i = i + 1;
    }
}

fn collapse_runs(v: &Vec<char>) -> (r: Vec<char>)
    ensures
        r@ == collapse_spaces(v@),
{
    let mut out: Vec<char> = Vec::new();
    let mut i: usize = 0;
    while i < v.len()
        invariant
            i <= v@.len(),
            out@ == collapse_spaces(v@.take(i as int)),
        decreases v.len() - i,
    {
        assert(v@.take(i + 1).drop_last() =~= v@.take(i as int));
        if !(v[i] == ' ' && i >= 1 && v[i - 1] == ' ') {
            out.push(v[i]);
        }
        i = i + 1;
    }
    assert(v@.take(v.len() as int) =~= v@);
    out
}

pub open spec fn shifted(o: Option<nat>, m: nat) -> Option<nat> {
    match o {
        Some(n) => Some(n + m),
        None => None,
    }
}

/// The index of the bracket that closes the one opened just before `from`.
fn find_close(v: &Vec<char>, open: char, close: char, from: usize) -> (r: Option<usize>)
    requires
        1 <= from <= v@.len(),
    ensures
        match r {
            Some(k) => close_offset(v@, open, close, from as int, 1) == Some((k - from) as nat)
                && from <= k < v@.len(),
            None => close_offset(v@, open, close, from as int, 1) is None,
        },
{
    let mut j = from;
    let mut depth: usize = 1;
    while j < v.len()
        invariant
            from <= j <= v@.len(),
            1 <= depth <= j,
            close_offset(v@, open, close, from as int, 1) == shifted(
                close_offset(v@, open, close, j as int, depth as int),
                (j - from) as nat,
            ),
        decreases v.len() - j,
    {
        let c = v[j];
        if c == open {
            depth = depth + 1;
        } else if c == close {
            depth = depth - 1;
        }
        if depth == 0 {
            return Some(j);
        }
        j = j + 1;
    }
    None
}

fn normalize_bracket_pair(v: &Vec<char>, open: char, close: char) -> (r: Vec<char>)
    ensures
        r@ == brackets_from(v@, open, close, 0),
{
    let mut out: Vec<char> = Vec::new();
    let len = v.len();
    let mut i: usize = 0;
    while i < len
        invariant
            len == v@.len(),
            i <= len,
            brackets_from(v@, open, close, 0) == out@ + brackets_from(v@, open, close, i as int),
        decreases len - i,
    {
        if v[i] == open && i + 1 < len && v[i + 1] == ' ' {
            match find_close(v, open, close, i + 1) {
                Some(k) => {
                    let (a, b) = trim_bounds(v, i + 1, k);
                    out.push(open);
                    push_range(&mut out, v, a, b);
                    out.push(close);
                    i = k + 1;
                    continue;
                },
                None => {},
            }
        }
        out.push(v[i]);
        i = i + 1;
    }
    out
}

fn find_pipe(v: &Vec<char>, from: usize) -> (r: Option<usize>)
    requires
        from <= v@.len(),
    ensures
        match r {
            Some(k) => pipe_offset(v@, from as int) == Some((k - from) as nat) && from <= k
                < v@.len(),
            None => pipe_offset(v@, from as int) is None,
        },
{
    let mut j = from;
    while j < v.len()
        invariant
            from <= j <= v@.len(),
            pipe_offset(v@, from as int) == shifted(pipe_offset(v@, j as int), (j - from) as nat),
        decreases v.len() - j,
    {
        if v[j] == '|' {
            return Some(j);
        }
        j = j + 1;
    }
    None
}

fn normalize_pipe_labels(v: &Vec<char>) -> (r: Vec<char>)
    ensures
        r@ == pipes_from(v@, 0),
{
    let mut out: Vec<char> = Vec::new();
    let len = v.len();
    let mut i: usize = 0;
    while i < len
        invariant
            len == v@.len(),
            i <= len,
            pipes_from(v@, 0) == out@ + pipes_from(v@, i as int),
        decreases len - i,
    {
        if v[i] == '|' {
            match find_pipe(v, i + 1) {
                Some(k) => {
                    if v[i + 1] == ' ' {
                        let (a, b) = trim_bounds(v, i + 1, k);
                        out.push('|');
                        push_range(&mut out, v, a, b);
                        out.push('|');
                    } else {
                        push_range(&mut out, v, i, k + 1);
                    }
                    i = k + 1;
                    continue;
                },
                None => {},
            }
        }
        out.push(v[i]);
        i = i + 1;
    }
    out
}

fn normalize_once(v: &Vec<char>) -> (r: Vec<char>)
    ensures
        r@ == normalize_pass(v@),
{
    let a = collapse_runs(v);
    let b = normalize_bracket_pair(&a, '[', ']');
    let c = normalize_bracket_pair(&b, '(', ')');
    let d = normalize_bracket_pair(&c, '{', '}');
    normalize_pipe_labels(&d)
}

/// Normalizes the spacing of a content line.
pub fn normalize_content(content: &str) -> (r: String)
    ensures
        r@ == normalize(content@),
{
    let mut cur = chars_of(content);
    loop
        invariant
            normalize(cur@) == normalize(content@),
        ensures
            normalize(cur@) == normalize(content@),
            normalize(cur@) == cur@,
        decreases cur@.len(),
    {
        let next = normalize_once(&cur);
        if next.len() < cur.len() {
            cur = next;
        } else {
            assert(normalize(cur@) == cur@);
            break;
        }
    }
    assert(cur@.subrange(0, cur@.len() as int) =~= cur@);
    string_of(&cur, 0, cur.len())
}

/// The indentation depth of a statement, given whether the diagram
/// declaration has been seen and the current brace-block depth.
pub open spec fn depth_of(s: StatementModel, seen_decl: bool, brace_depth: nat) -> nat {
    if !seen_decl {
        0
    } else {
        match s {
            StatementModel::DiagramDecl(_) => 0,
            StatementModel::Directive(_) => 0,
            StatementModel::BlockStart { .. } => 0,
            StatementModel::BlockOption(_) => 0,
            StatementModel::BlockElse(_) => 0,
            StatementModel::BlockEnd => 0,
            StatementModel::BraceBlockStart { .. } => brace_depth,
            StatementModel::BraceBlockEnd => brace_depth,
            _ => 1 + brace_depth,
        }
    }
}

/// The rendered line of a statement at the given indentation.
pub open spec fn statement_text(s: StatementModel, indent: Seq<char>) -> Seq<char> {
    match s {
        StatementModel::DiagramDecl(d) => diagram_type_text(d),
        StatementModel::Directive(c) => c,
        StatementModel::Participant { keyword, name, alias } => {
            let head = indent + participant_keyword_text(keyword) + seq![' '] + name;
            match alias {
                Some(a) => head + " as "@ + a,
                None => head,
            }
        },
        StatementModel::BlockStart { kind, label } => indent + with_suffix(
            block_kind_text(kind),
            label,
        ),
        StatementModel::BraceBlockStart { kind, name } => indent + brace_kind_text(kind) + seq![
            ' ',
        ] + name + " {"@,
        StatementModel::BlockOption(l) => indent + with_suffix("option"@, l),
        StatementModel::BlockElse(l) => indent + with_suffix("else"@, l),
        StatementModel::BlockEnd => indent + "end"@,
        StatementModel::BraceBlockEnd => indent + "}"@,
        StatementModel::Note(c) => indent + c,
        StatementModel::Comment(t) => indent + "%%"@ + t,
        StatementModel::GenericLine(c) => indent + normalize(c),
        StatementModel::BlankLine => seq![],
    }
}

/// Statements after which a new block is set apart by a blank line.
pub open spec fn ends_content(s: StatementModel) -> bool {
    match s {
        StatementModel::BlockEnd => true,
        StatementModel::BraceBlockEnd => true,
        StatementModel::GenericLine(_) => true,
        StatementModel::Participant { .. } => true,
        StatementModel::Note(_) => true,
        _ => false,
    }
}

pub open spec fn opens_block(s: StatementModel) -> bool {
    s is BlockStart || s is BraceBlockStart
}

/// The last statement of `ss` that is not a blank line.
pub open spec fn last_non_blank(ss: Seq<StatementModel>) -> Option<StatementModel>
    decreases ss.len(),
{
    if ss.len() == 0 {
        None
    } else if ss.last() is BlankLine {
        last_non_blank(ss.drop_last())
    } else {
        Some(ss.last())
    }
}

/// Whether a blank line is forced before `s`, which follows `prior`.
pub open spec fn blank_before(s: StatementModel, prior: Seq<StatementModel>) -> bool {
    opens_block(s) && match last_non_blank(prior) {
        Some(p) => ends_content(p),
        None => false,
    }
}

/// The running state of the renderer.
pub struct RenderState {
    pub seen_decl: bool,
    pub brace_depth: nat,
    pub prev_blank: bool,
}

pub open spec fn next_state(st: RenderState, s: StatementModel) -> RenderState {
    if s is BlankLine {
        RenderState { prev_blank: true, ..st }
    } else {
        RenderState {
            seen_decl: st.seen_decl || s is DiagramDecl,
            brace_depth: if s is BraceBlockEnd && st.brace_depth > 0 {
                (st.brace_depth - 1) as nat
            } else if s is BraceBlockStart {
                st.brace_depth + 1
            } else {
                st.brace_depth
            },
            prev_blank: false,
        }
    }
}

/// The state after rendering `ss`.
pub open spec fn state_after(ss: Seq<StatementModel>) -> RenderState
    decreases ss.len(),
{
    if ss.len() == 0 {
        RenderState { seen_decl: false, brace_depth: 0, prev_blank: false }
    } else {
        next_state(state_after(ss.drop_last()), ss.last())
    }
}

/// The depth at which `s`, following `prior`, is rendered: a closing brace
/// first leaves its block.
pub open spec fn line_depth(prior: Seq<StatementModel>, s: StatementModel) -> nat {
    let st = state_after(prior);
    let bd = if s is BraceBlockEnd && st.brace_depth > 0 {
        (st.brace_depth - 1) as nat
    } else {
        st.brace_depth
    };
    depth_of(s, st.seen_decl, bd)
}

/// The lines emitted for `s`, which follows `prior`: none for a blank line
/// right after another, else its line, preceded by a forced blank line where
/// a block opens after content.
pub open spec fn emitted(prior: Seq<StatementModel>, s: StatementModel, c: Config) -> Seq<
    Seq<char>,
> {
    let st = state_after(prior);
    if s is BlankLine {
        if st.prev_blank {
            seq![]
        } else {
            seq![seq![]]
        }
    } else {
        let line = statement_text(s, c.spec_indent(line_depth(prior, s)));
        if blank_before(s, prior) && !st.prev_blank {
            seq![seq![], line]
        } else {
            seq![line]
        }
    }
}

/// All lines emitted for `ss`, trailing blank lines included.
pub open spec fn rendered_lines(ss: Seq<StatementModel>, c: Config) -> Seq<Seq<char>>
    decreases ss.len(),
{
    if ss.len() == 0 {
        seq![]
    } else {
        rendered_lines(ss.drop_last(), c) + emitted(ss.drop_last(), ss.last(), c)
    }
}

/// Each line followed by a newline.
pub open spec fn join_lines(ls: Seq<Seq<char>>) -> Seq<char>
    decreases ls.len(),
{
    if ls.len() == 0 {
        seq![]
    } else {
        join_lines(ls.drop_last()) + ls.last() + seq!['\n']
    }
}

/// The text rendered for a statement sequence: its lines joined, with all
/// trailing white space (trailing blank lines included) removed, then one
/// final newline; nothing at all where no text is left.
pub open spec fn render(ss: Seq<StatementModel>, c: Config) -> Seq<char> {
    let text = trim_end(join_lines(rendered_lines(ss, c)));
    if text.len() == 0 {
        text
    } else {
        text.push('\n')
    }
}

fn text_with(head: &str, rest: &Option<String>, out: &mut String)
    ensures
        final(out)@ == old(out)@ + with_suffix(head@, crate::ast::opt_view(*rest)),
{
    append_str(out, head);
    match rest {
        Some(l) => {
            out.push(' ');
            append_str(out, l.as_str());
            assert(final(out)@ =~= old(out)@ + (head@ + seq![' '] + l@));
        },
        None => {},
    }
}

/// Renders one statement at the given depth.
fn format_statement(stmt: &Statement, depth: usize, config: &Config) -> (r: String)
    ensures
        r@ == statement_text(stmt@, config.spec_indent(depth as nat)),
{
    let mut line = config.indent(depth);
    let ghost ind = line@;
    match stmt {
        Statement::DiagramDecl(dt) => dt.format(),
        Statement::Directive(content) => content.clone(),
        Statement::Participant(p) => {
            append_str(&mut line, p.keyword.as_str());
            line.push(' ');
            append_str(&mut line, p.name.as_str());
            match &p.alias {
                Some(alias) => {
                    append_str(&mut line, " as ");
                    append_str(&mut line, alias.as_str());
                },
                None => {},
            }
            line
        },
        Statement::BlockStart(b) => {
            text_with(b.kind.as_str(), &b.label, &mut line);
            line
        },
        Statement::BraceBlockStart(b) => {
            append_str(&mut line, b.kind.as_str());
            line.push(' ');
            append_str(&mut line, b.name.as_str());
            append_str(&mut line, " {");
            line
        },
        Statement::BlockOption(label) => {
            text_with("option", label, &mut line);
            line
        },
        Statement::BlockElse(label) => {
            text_with("else", label, &mut line);
            line
        },
        Statement::BlockEnd => {
            append_str(&mut line, "end");
            line
        },
        Statement::BraceBlockEnd => {
            append_str(&mut line, "}");
            line
        },
        Statement::Note(content) => {
            append_str(&mut line, content.as_str());
            line
        },
        Statement::Comment(text) => {
            append_str(&mut line, "%%");
            append_str(&mut line, text.as_str());
            line
        },
        Statement::GenericLine(content) => {
            let n = normalize_content(content.as_str());
            append_str(&mut line, n.as_str());
            line
        },
        Statement::BlankLine => String::new(),
    }
}

/// The indentation depth of a statement.
fn get_depth(stmt: &Statement, seen_diagram_decl: bool, block_depth: usize) -> (r: usize)
    requires
        block_depth < usize::MAX,
    ensures
        r == depth_of(stmt@, seen_diagram_decl, block_depth as nat),
{
    if !seen_diagram_decl {
        return 0;
    }
    match stmt {
        Statement::DiagramDecl(_) => 0,
        Statement::Directive(_) => 0,
        Statement::BlockStart(_) => 0,
        Statement::BlockOption(_) => 0,
        Statement::BlockElse(_) => 0,
        Statement::BlockEnd => 0,
        Statement::BraceBlockStart(_) => block_depth,
        Statement::BraceBlockEnd => block_depth,
        _ => 1 + block_depth,
    }
}

pub open spec fn models(ss: Seq<Statement>) -> Seq<StatementModel> {
    ss.map_values(|s: Statement| s@)
}

/// Whether a blank line goes before `stmt`, which stands at `index` in
/// `statements`: a block that opens after content is set apart.
fn should_have_blank_before(stmt: &Statement, index: usize, statements: &[Statement]) -> (r: bool)
    requires
        index <= statements@.len(),
    ensures
        r == blank_before(stmt@, models(statements@).take(index as int)),
{
    let ghost all = models(statements@);
    if index == 0 {
        return false;
    }
    let opens = match stmt {
        Statement::BlockStart(_) => true,
        Statement::BraceBlockStart(_) => true,
        _ => false,
    };
    if !opens {
        return false;
    }
    let mut j = index;
    while j > 0 && matches!(statements[j - 1], Statement::BlankLine)
        invariant
            j <= index <= statements@.len(),
            all == models(statements@),
            last_non_blank(all.take(index as int)) == last_non_blank(all.take(j as int)),
        decreases j,
    {
        assert(all.take(j as int).drop_last() =~= all.take(j - 1));
        j = j - 1;
    }
    if j == 0 {
        return false;
    }
    assert(all.take(j as int).last() == statements@[j - 1]@);
    match &statements[j - 1] {
        Statement::BlockEnd => true,
        Statement::BraceBlockEnd => true,
        Statement::GenericLine(_) => true,
        Statement::Participant(_) => true,
        Statement::Note(_) => true,
        _ => false,
    }
}

pub open spec fn line_views(ls: Seq<String>) -> Seq<Seq<char>> {
    ls.map_values(|l: String| l@)
}

/// Renders a parsed diagram.
pub fn format(diagram: &Diagram, config: &Config) -> (r: String)
    ensures
        r@ == render(diagram@, *config),
{
    let statements = diagram.statements.as_slice();
    let ghost all = models(statements@);
    assert(all == diagram@);
    let mut lines: Vec<String> = Vec::new();
    let mut prev_was_blank = false;
    let mut seen_diagram_decl = false;
    let mut block_depth: usize = 0;
    let mut i: usize = 0;
    while i < statements.len()
        invariant
            all == models(statements@),
            i <= statements@.len(),
            block_depth <= i,
            line_views(lines@) == rendered_lines(all.take(i as int), *config),
            state_after(all.take(i as int)) == (RenderState {
                seen_decl: seen_diagram_decl,
                brace_depth: block_depth as nat,
                prev_blank: prev_was_blank,
            }),
        decreases statements.len() - i,
    {
        let stmt = &statements[i];
        let ghost prior = all.take(i as int);
        assert(all.take(i + 1).drop_last() =~= prior);
        assert(all.take(i + 1).last() == stmt@);
        let ghost before = line_views(lines@);
        let needs_blank_before = should_have_blank_before(stmt, i, statements);
        if matches!(stmt, Statement::BlankLine) {
            if !prev_was_blank {
                lines.push(String::new());
                assert(line_views(lines@) =~= before + seq![seq![]]);
            } else {
                assert(line_views(lines@) =~= before + seq![]);
            }
            prev_was_blank = true;
        } else {
            if needs_blank_before && !prev_was_blank {
                lines.push(String::new());
            }
            let ghost mid = line_views(lines@);
            if matches!(stmt, Statement::BraceBlockEnd) && block_depth > 0 {
                block_depth = block_depth - 1;
            }
            let depth = get_depth(stmt, seen_diagram_decl, block_depth);
            let line = format_statement(stmt, depth, config);
            lines.push(line);
            assert(line_views(lines@) =~= mid + seq![line@]);
            if needs_blank_before && !prev_was_blank {
                assert(line_views(lines@) =~= before + seq![seq![], line@]);
            } else {
                assert(line_views(lines@) =~= before + seq![line@]);
            }
            prev_was_blank = false;
            if matches!(stmt, Statement::DiagramDecl(_)) {
                seen_diagram_decl = true;
            }
            if matches!(stmt, Statement::BraceBlockStart(_)) {
                block_depth = block_depth + 1;
            }
        }
        i = i + 1;
    }
    assert(all.take(i as int) =~= all);
    let ghost all_lines = line_views(lines@);
    let mut out: Vec<char> = Vec::new();
    let mut k: usize = 0;
    while k < lines.len()
        invariant
            k <= lines@.len(),
            all_lines == line_views(lines@),
            out@ == join_lines(all_lines.take(k as int)),
        decreases lines.len() - k,
    {
        assert(all_lines.take(k + 1).drop_last() =~= all_lines.take(k as int));
        let cs = chars_of(lines[k].as_str());
        let ghost before = out@;
        push_range(&mut out, &cs, 0, cs.len());
        out.push('\n');
        assert(cs@.subrange(0, cs@.len() as int) =~= cs@);
        assert(out@ =~= before + all_lines[k as int] + seq!['\n']);
        k = k + 1;
    }
    assert(all_lines.take(k as int) =~= all_lines);
    let mut end = out.len();
    assert(out@.subrange(0, end as int) =~= out@);
    while end > 0 && is_whitespace(out[end - 1])
        invariant
            end <= out@.len(),
            trim_end(out@) == trim_end(out@.subrange(0, end as int)),
        decreases end,
    {
        assert(out@.subrange(0, end as int).drop_last() =~= out@.subrange(0, end - 1));
        end = end - 1;
    }
    assert(trim_end(out@.subrange(0, end as int)) == out@.subrange(0, end as int));
    if end == 0 {
        return String::new();
    }
    let mut output = string_of(&out, 0, end);
    output.push('\n');
    output
}

/// A statement whose text fields are as parsing builds them: a directive,
/// note or content line is never empty.
pub open spec fn has_text(s: StatementModel) -> bool {
    match s {
        StatementModel::Directive(t) => t.len() > 0,
        StatementModel::Note(t) => t.len() > 0,
        StatementModel::GenericLine(t) => t.len() > 0,
        _ => true,
    }
}

proof fn lemma_line_not_empty(s: StatementModel, indent: Seq<char>)
    requires
        has_text(s),
        !(s is BlankLine),
    ensures
        statement_text(s, indent).len() > 0,
{
    reveal_strlit("sequenceDiagram");
    reveal_strlit("flowchart");
    reveal_strlit("graph");
    reveal_strlit("classDiagram");
    reveal_strlit("stateDiagram-v2");
    reveal_strlit("stateDiagram");
    reveal_strlit("erDiagram");
    reveal_strlit("journey");
    reveal_strlit("gantt");
    reveal_strlit("pie");
    reveal_strlit("pie showData");
    reveal_strlit("quadrantChart");
    reveal_strlit("requirementDiagram");
    reveal_strlit("gitGraph");
    reveal_strlit("mindmap");
    reveal_strlit("timeline");
    reveal_strlit("sankey-beta");
    reveal_strlit("xychart-beta");
    reveal_strlit("block-beta");
    reveal_strlit("critical");
    reveal_strlit("alt");
    reveal_strlit("loop");
    reveal_strlit("par");
    reveal_strlit("opt");
    reveal_strlit("break");
    reveal_strlit("rect");
    reveal_strlit("subgraph");
    reveal_strlit("option");
    reveal_strlit("else");
    reveal_strlit("end");
    reveal_strlit("}");
    reveal_strlit("%%");
    match s {
        StatementModel::GenericLine(c) => {
            lemma_normalize_not_empty(c);
        },
        _ => {},
    }
}

/// Whether `ls` holds two empty lines in a row.
pub open spec fn two_blank_in_a_row(ls: Seq<Seq<char>>) -> bool {
    exists|i: int| 0 <= i < ls.len() - 1 && #[trigger] ls[i].len() == 0 && ls[i + 1].len() == 0
}

#[verifier::rlimit(100)]
proof fn lemma_blank_runs(ss: Seq<StatementModel>, c: Config)
    requires
        forall|i: int| 0 <= i < ss.len() ==> has_text(#[trigger] ss[i]),
    ensures
        !two_blank_in_a_row(rendered_lines(ss, c)),
        (rendered_lines(ss, c).len() > 0 && rendered_lines(ss, c).last().len() == 0)
            == state_after(ss).prev_blank,
    decreases ss.len(),
{
    if ss.len() > 0 {
        let p = ss.drop_last();
        let s = ss.last();
        assert(forall|i: int| 0 <= i < p.len() ==> p[i] == ss[i]);
        lemma_blank_runs(p, c);
        let before = rendered_lines(p, c);
        let e = emitted(p, s, c);
        let after = before + e;
        assert(rendered_lines(ss, c) == after);
        if !(s is BlankLine) {
            assert(has_text(ss[ss.len() - 1]));
            lemma_line_not_empty(s, c.spec_indent(line_depth(p, s)));
        }
        assert(!two_blank_in_a_row(after)) by {
            if two_blank_in_a_row(after) {
                let i = choose|i: int|
                    0 <= i < after.len() - 1 && #[trigger] after[i].len() == 0 && after[i
                        + 1].len() == 0;
                if i + 1 < before.len() {
                    assert(before[i] == after[i] && before[i + 1] == after[i + 1]);
                } else if i + 1 == before.len() {
                    assert(after[i] == before.last());
                } else {
                    assert(after[i] == e[i - before.len()]);
                }
            }
        }
    }
}

/// Blank lines collapse: however many blank lines stand in a row in the
/// input, and wherever a blank line is forced before a block, the rendered
/// lines never hold two empty lines in a row.
pub proof fn lemma_no_two_blank_lines(ss: Seq<StatementModel>, c: Config)
    requires
        forall|i: int| 0 <= i < ss.len() ==> has_text(#[trigger] ss[i]),
    ensures
        !two_blank_in_a_row(rendered_lines(ss, c)),
{
    lemma_blank_runs(ss, c);
}

/// The characters of `s` that are not white space, in order.
pub open spec fn visible(s: Seq<char>) -> Seq<char>
    decreases s.len(),
{
    if s.len() == 0 {
        s
    } else if is_ws(s[0]) {
        visible(s.drop_first())
    } else {
        seq![s[0]] + visible(s.drop_first())
    }
}

proof fn lemma_visible_concat(a: Seq<char>, b: Seq<char>)
    ensures
        visible(a + b) == visible(a) + visible(b),
    decreases a.len(),
{
    if a.len() == 0 {
        assert(a + b =~= b);
        assert(visible(a) + visible(b) =~= visible(b));
    } else {
        assert((a + b).drop_first() =~= a.drop_first() + b);
        lemma_visible_concat(a.drop_first(), b);
        assert(seq![a[0]] + (visible(a.drop_first()) + visible(b)) =~= (seq![a[0]] + visible(
            a.drop_first(),
        )) + visible(b));
    }
}

proof fn lemma_visible_one(c: char)
    ensures
        visible(seq![c]) == (if is_ws(c) {
            seq![]
        } else {
            seq![c]
        }),
{
    let e = seq![c].drop_first();
    assert(e.len() == 0);
    assert(visible(e) == e);
    assert(e =~= seq![]);
    assert(seq![c] + e =~= seq![c]);
}

proof fn lemma_visible_collapse(s: Seq<char>)
    ensures
        visible(collapse_spaces(s)) == visible(s),
    decreases s.len(),
{
    if s.len() > 0 {
        let p = s.drop_last();
        lemma_visible_collapse(p);
        assert(p + seq![s.last()] =~= s);
        lemma_visible_concat(p, seq![s.last()]);
        lemma_visible_one(s.last());
        lemma_visible_concat(collapse_spaces(p), seq![s.last()]);
        assert(collapse_spaces(p).push(s.last()) =~= collapse_spaces(p) + seq![s.last()]);
        assert(visible(p) + seq![] =~= visible(p));
        assert(visible(collapse_spaces(p)) + seq![] =~= visible(collapse_spaces(p)));
    }
}

proof fn lemma_visible_trim(s: Seq<char>)
    ensures
        visible(trim(s)) == visible(s),
{
    lemma_visible_trim_start(s);
    lemma_visible_trim_end(trim_start(s));
}

proof fn lemma_visible_trim_start(s: Seq<char>)
    ensures
        visible(trim_start(s)) == visible(s),
    decreases s.len(),
{
    if s.len() > 0 && is_ws(s[0]) {
        lemma_visible_trim_start(s.drop_first());
    }
}

proof fn lemma_visible_trim_end(s: Seq<char>)
    ensures
        visible(trim_end(s)) == visible(s),
    decreases s.len(),
{
    if s.len() > 0 && is_ws(s.last()) {
        let p = s.drop_last();
        lemma_visible_trim_end(p);
        assert(p + seq![s.last()] =~= s);
        lemma_visible_concat(p, seq![s.last()]);
        lemma_visible_one(s.last());
        assert(visible(p) + seq![] =~= visible(p));
    }
}

proof fn lemma_close_offset_char(s: Seq<char>, open: char, close: char, j: int, depth: int)
    requires
        depth >= 1,
        close_offset(s, open, close, j, depth) is Some,
    ensures
        0 <= j + close_offset(s, open, close, j, depth)->0 < s.len(),
        s[j + close_offset(s, open, close, j, depth)->0] == close,
    decreases s.len() - j,
{
    let d = if s[j] == open {
        depth + 1
    } else if s[j] == close {
        depth - 1
    } else {
        depth
    };
    if d != 0 {
        lemma_close_offset_char(s, open, close, j + 1, d);
    }
}

proof fn lemma_pipe_offset_char(s: Seq<char>, j: int)
    requires
        pipe_offset(s, j) is Some,
    ensures
        0 <= j + pipe_offset(s, j)->0 < s.len(),
        s[j + pipe_offset(s, j)->0] == '|',
    decreases s.len() - j,
{
    if s[j] != '|' {
        lemma_pipe_offset_char(s, j + 1);
    }
}

/// `s.skip(i)` cut around a label from `i` to `k`.
proof fn lemma_split_label(s: Seq<char>, i: int, k: int)
    requires
        0 <= i < k < s.len(),
    ensures
        visible(s.skip(i)) == visible(seq![s[i]]) + visible(s.subrange(i + 1, k)) + visible(
            seq![s[k]],
        ) + visible(s.skip(k + 1)),
{
    assert(s.skip(i) =~= seq![s[i]] + s.subrange(i + 1, k) + seq![s[k]] + s.skip(k + 1));
    lemma_visible_concat(seq![s[i]] + s.subrange(i + 1, k) + seq![s[k]], s.skip(k + 1));
    lemma_visible_concat(seq![s[i]] + s.subrange(i + 1, k), seq![s[k]]);
    lemma_visible_concat(seq![s[i]], s.subrange(i + 1, k));
}

proof fn lemma_visible_label(s: Seq<char>, i: int, k: int, rest: Seq<char>)
    requires
        0 <= i < k < s.len(),
        visible(rest) == visible(s.skip(k + 1)),
    ensures
        visible(seq![s[i]] + trim(s.subrange(i + 1, k)) + seq![s[k]] + rest) == visible(
            s.skip(i),
        ),
{
    lemma_split_label(s, i, k);
    lemma_visible_trim(s.subrange(i + 1, k));
    let t = trim(s.subrange(i + 1, k));
    lemma_visible_concat(seq![s[i]] + t + seq![s[k]], rest);
    lemma_visible_concat(seq![s[i]] + t, seq![s[k]]);
    lemma_visible_concat(seq![s[i]], t);
}

proof fn lemma_visible_brackets(s: Seq<char>, open: char, close: char, i: int)
    requires
        0 <= i <= s.len(),
    ensures
        visible(brackets_from(s, open, close, i)) == visible(s.skip(i)),
    decreases s.len() - i,
{
    if i >= s.len() {
        assert(s.skip(i) =~= seq![]);
    } else if s[i] == open && i + 1 < s.len() && s[i + 1] == ' ' && close_offset(
        s,
        open,
        close,
        i + 1,
        1,
    ) is Some && i + 1 + close_offset(s, open, close, i + 1, 1)->0 < s.len() {
        let k = i + 1 + close_offset(s, open, close, i + 1, 1)->0;
        lemma_close_offset_char(s, open, close, i + 1, 1);
        lemma_visible_brackets(s, open, close, k + 1);
        lemma_visible_label(s, i, k, brackets_from(s, open, close, k + 1));
    } else {
        lemma_visible_brackets(s, open, close, i + 1);
        assert(s.skip(i) =~= seq![s[i]] + s.skip(i + 1));
        lemma_visible_concat(seq![s[i]], s.skip(i + 1));
        lemma_visible_concat(seq![s[i]], brackets_from(s, open, close, i + 1));
    }
}

proof fn lemma_visible_pipes(s: Seq<char>, i: int)
    requires
        0 <= i <= s.len(),
    ensures
        visible(pipes_from(s, i)) == visible(s.skip(i)),
    decreases s.len() - i,
{
    if i >= s.len() {
        assert(s.skip(i) =~= seq![]);
    } else if s[i] == '|' && pipe_offset(s, i + 1) is Some && i + 1 + pipe_offset(s, i + 1)->0
        < s.len() {
        let k = i + 1 + pipe_offset(s, i + 1)->0;
        lemma_pipe_offset_char(s, i + 1);
        lemma_visible_pipes(s, k + 1);
        if s[i + 1] == ' ' {
            lemma_visible_label(s, i, k, pipes_from(s, k + 1));
        } else {
            assert(s.skip(i) =~= s.subrange(i, k + 1) + s.skip(k + 1));
            lemma_visible_concat(s.subrange(i, k + 1), s.skip(k + 1));
            lemma_visible_concat(s.subrange(i, k + 1), pipes_from(s, k + 1));
        }
    } else {
        lemma_visible_pipes(s, i + 1);
        assert(s.skip(i) =~= seq![s[i]] + s.skip(i + 1));
        lemma_visible_concat(seq![s[i]], s.skip(i + 1));
        lemma_visible_concat(seq![s[i]], pipes_from(s, i + 1));
    }
}

proof fn lemma_visible_pass(s: Seq<char>)
    ensures
        visible(normalize_pass(s)) == visible(s),
{
    let a = collapse_spaces(s);
    let b = brackets_from(a, '[', ']', 0);
    let c = brackets_from(b, '(', ')', 0);
    let d = brackets_from(c, '{', '}', 0);
    lemma_visible_collapse(s);
    lemma_visible_brackets(a, '[', ']', 0);
    lemma_visible_brackets(b, '(', ')', 0);
    lemma_visible_brackets(c, '{', '}', 0);
    lemma_visible_pipes(d, 0);
    assert(a.skip(0) =~= a);
    assert(b.skip(0) =~= b);
    assert(c.skip(0) =~= c);
    assert(d.skip(0) =~= d);
}

/// Normalization only removes white space: the other characters of a
/// content line are all kept, in order.
pub proof fn lemma_normalize_keeps_content(s: Seq<char>)
    ensures
        visible(normalize(s)) == visible(s),
    decreases s.len(),
{
    lemma_visible_pass(s);
    if normalize_pass(s).len() < s.len() {
        lemma_normalize_keeps_content(normalize_pass(s));
    }
}

proof fn lemma_collapse_shrinks(s: Seq<char>)
    ensures
        collapse_spaces(s).len() <= s.len(),
        collapse_spaces(s).len() == s.len() ==> collapse_spaces(s) == s,
    decreases s.len(),
{
    if s.len() > 0 {
        let p = s.drop_last();
        lemma_collapse_shrinks(p);
        if collapse_spaces(s).len() == s.len() {
            assert(p.push(s.last()) =~= s);
        }
    }
}

proof fn lemma_brackets_shrink(s: Seq<char>, open: char, close: char, i: int)
    requires
        0 <= i <= s.len(),
        open != ' ',
        close != ' ',
    ensures
        brackets_from(s, open, close, i).len() <= s.len() - i,
        brackets_from(s, open, close, i).len() == s.len() - i ==> brackets_from(s, open, close, i)
            == s.skip(i),
    decreases s.len() - i,
{
    if i >= s.len() {
        assert(s.skip(i) =~= seq![]);
    } else if s[i] == open && i + 1 < s.len() && s[i + 1] == ' ' && close_offset(
        s,
        open,
        close,
        i + 1,
        1,
    ) is Some && i + 1 + close_offset(s, open, close, i + 1, 1)->0 < s.len() {
        let k = i + 1 + close_offset(s, open, close, i + 1, 1)->0;
        assert(k > i + 1);
        let mid = s.subrange(i + 1, k);
        assert(mid[0] == ' ');
        lemma_trim_shrinks(mid);
        lemma_brackets_shrink(s, open, close, k + 1);
    } else {
        lemma_brackets_shrink(s, open, close, i + 1);
        assert(s.skip(i) =~= seq![s[i]] + s.skip(i + 1));
    }
}

proof fn lemma_pipes_shrink(s: Seq<char>, i: int)
    requires
        0 <= i <= s.len(),
    ensures
        pipes_from(s, i).len() <= s.len() - i,
        pipes_from(s, i).len() == s.len() - i ==> pipes_from(s, i) == s.skip(i),
    decreases s.len() - i,
{
    if i >= s.len() {
        assert(s.skip(i) =~= seq![]);
    } else if s[i] == '|' && pipe_offset(s, i + 1) is Some && i + 1 + pipe_offset(s, i + 1)->0
        < s.len() {
        let k = i + 1 + pipe_offset(s, i + 1)->0;
        lemma_pipes_shrink(s, k + 1);
        if s[i + 1] == ' ' {
            assert(k > i + 1);
            let mid = s.subrange(i + 1, k);
            assert(mid[0] == ' ');
            lemma_trim_shrinks(mid);
        } else {
            assert(s.skip(i) =~= s.subrange(i, k + 1) + s.skip(k + 1));
        }
    } else {
        lemma_pipes_shrink(s, i + 1);
        assert(s.skip(i) =~= seq![s[i]] + s.skip(i + 1));
    }
}

/// A pass never lengthens the text, and one that keeps its length changes
/// nothing.
proof fn lemma_pass_shrinks(s: Seq<char>)
    ensures
        normalize_pass(s).len() <= s.len(),
        normalize_pass(s).len() == s.len() ==> normalize_pass(s) == s,
{
    let a = collapse_spaces(s);
    let b = brackets_from(a, '[', ']', 0);
    let c = brackets_from(b, '(', ')', 0);
    let d = brackets_from(c, '{', '}', 0);
    lemma_collapse_shrinks(s);
    lemma_brackets_shrink(a, '[', ']', 0);
    lemma_brackets_shrink(b, '(', ')', 0);
    lemma_brackets_shrink(c, '{', '}', 0);
    lemma_pipes_shrink(d, 0);
    assert(a.skip(0) =~= a);
    assert(b.skip(0) =~= b);
    assert(c.skip(0) =~= c);
    assert(d.skip(0) =~= d);
}

/// A normalized text is left as it is by one more pass.
pub proof fn lemma_normalize_is_fixed(s: Seq<char>)
    ensures
        normalize_pass(normalize(s)) == normalize(s),
    decreases s.len(),
{
    lemma_pass_shrinks(s);
    if normalize_pass(s).len() < s.len() {
        lemma_normalize_is_fixed(normalize_pass(s));
    }
}

/// Normalizing a normalized text changes nothing.
pub proof fn lemma_normalize_idempotent(s: Seq<char>)
    ensures
        normalize(normalize(s)) == normalize(s),
{
    lemma_normalize_is_fixed(s);
}

proof fn lemma_normalize_not_empty(s: Seq<char>)
    requires
        s.len() > 0,
    ensures
        normalize(s).len() > 0,
    decreases s.len(),
{
    let a = collapse_spaces(s);
    lemma_collapse_keeps_last(s);
    let b = brackets_from(a, '[', ']', 0);
    let c = brackets_from(b, '(', ')', 0);
    let d = brackets_from(c, '{', '}', 0);
    assert(b.len() > 0);
    assert(c.len() > 0);
    assert(d.len() > 0);
    assert(pipes_from(d, 0).len() > 0);
    if normalize_pass(s).len() < s.len() {
        lemma_normalize_not_empty(normalize_pass(s));
    }
}

/// Participants, notes, comments and content lines: the statements indented
/// one level below the current brace depth.
pub open spec fn is_content(s: StatementModel) -> bool {
    s is Participant || s is Note || s is Comment || s is GenericLine
}

pub open spec fn is_brace(s: StatementModel) -> bool {
    s is BraceBlockStart || s is BraceBlockEnd
}

proof fn lemma_depth_inside(
    prior: Seq<StatementModel>,
    open: StatementModel,
    mid: Seq<StatementModel>,
    j: int,
)
    requires
        state_after(prior).seen_decl,
        open is BraceBlockStart,
        0 <= j <= mid.len(),
        forall|i: int| 0 <= i < mid.len() ==> !is_brace(#[trigger] mid[i]),
    ensures
        state_after(prior + seq![open] + mid.take(j)).seen_decl,
        state_after(prior + seq![open] + mid.take(j)).brace_depth == state_after(prior).brace_depth
            + 1,
    decreases j,
{
    if j == 0 {
        assert(prior + seq![open] + mid.take(0) =~= prior + seq![open]);
        assert((prior + seq![open]).drop_last() =~= prior);
    } else {
        lemma_depth_inside(prior, open, mid, j - 1);
        assert((prior + seq![open] + mid.take(j)).drop_last() =~= prior + seq![open] + mid.take(
            j - 1,
        ));
        assert(!is_brace(mid[j - 1]));
    }
}

/// Brace-block depth: after the declaration, the opening and closing lines of
/// a brace block that holds no other brace block render at the same depth
/// `d`, every content line inside it at `d + 2`, one level deeper than content
/// just outside it (`d + 1`), and the block leaves the brace depth as it
/// found it.
pub proof fn lemma_brace_block_depth(
    prior: Seq<StatementModel>,
    open: StatementModel,
    mid: Seq<StatementModel>,
    close: StatementModel,
    outside: StatementModel,
)
    requires
        state_after(prior).seen_decl,
        open is BraceBlockStart,
        close is BraceBlockEnd,
        is_content(outside),
        forall|i: int| 0 <= i < mid.len() ==> !is_brace(#[trigger] mid[i]),
    ensures
        line_depth(prior, open) == state_after(prior).brace_depth,
        line_depth(prior, outside) == state_after(prior).brace_depth + 1,
        forall|j: int|
            0 <= j < mid.len() && is_content(#[trigger] mid[j]) ==> line_depth(
                prior + seq![open] + mid.take(j),
                mid[j],
            ) == state_after(prior).brace_depth + 2,
        line_depth(prior + seq![open] + mid, close) == state_after(prior).brace_depth,
        state_after(prior + seq![open] + mid + seq![close]).brace_depth == state_after(
            prior,
        ).brace_depth,
{
    assert forall|j: int|
        0 <= j < mid.len() && is_content(#[trigger] mid[j]) implies line_depth(
        prior + seq![open] + mid.take(j),
        mid[j],
    ) == state_after(prior).brace_depth + 2 by {
        lemma_depth_inside(prior, open, mid, j);
    }
    lemma_depth_inside(prior, open, mid, mid.len() as int);
    assert(mid.take(mid.len() as int) =~= mid);
    assert((prior + seq![open] + mid + seq![close]).drop_last() =~= prior + seq![open] + mid);
}

pub open spec fn blank_run(k: nat) -> Seq<StatementModel> {
    Seq::new(k, |i: int| StatementModel::BlankLine)
}

proof fn lemma_blank_prefix(pre: Seq<StatementModel>, j: nat, c: Config)
    requires
        pre.len() > 0,
        !(pre.last() is BlankLine),
    ensures
        rendered_lines(pre + blank_run(j), c) == rendered_lines(pre, c) + (if j > 0 {
            seq![seq![]]
        } else {
            seq![]
        }),
        state_after(pre + blank_run(j)).prev_blank == (j > 0),
        state_after(pre + blank_run(j)).seen_decl == state_after(pre).seen_decl,
        state_after(pre + blank_run(j)).brace_depth == state_after(pre).brace_depth,
        last_non_blank(pre + blank_run(j)) == last_non_blank(pre),
    decreases j,
{
    if j == 0 {
        assert(pre + blank_run(0) =~= pre);
        assert(rendered_lines(pre, c) + seq![] =~= rendered_lines(pre, c));
        assert(pre.drop_last().push(pre.last()) =~= pre);
    } else {
        lemma_blank_prefix(pre, (j - 1) as nat, c);
        let cur = pre + blank_run(j);
        assert(cur.drop_last() =~= pre + blank_run((j - 1) as nat));
        assert(cur.last() is BlankLine);
        if j == 1 {
            assert(rendered_lines(pre, c) + seq![] =~= rendered_lines(pre, c));
        } else {
            assert(rendered_lines(pre, c) + seq![seq![]] + seq![] =~= rendered_lines(pre, c)
                + seq![seq![]]);
        }
    }
}

/// Blank lines between two statements: where `k` blank lines stand between
/// a statement `a` and a statement `b` that are not blank, exactly one empty
/// line is emitted between their lines if `k > 0`; if `k == 0`, one only
/// where a block opens after content, else none.
pub proof fn lemma_blank_between(
    prior: Seq<StatementModel>,
    a: StatementModel,
    k: nat,
    b: StatementModel,
    c: Config,
)
    requires
        !(a is BlankLine),
        !(b is BlankLine),
    ensures
        rendered_lines(prior.push(a) + blank_run(k) + seq![b], c) == rendered_lines(
            prior.push(a),
            c,
        ) + (if k > 0 || blank_before(b, prior.push(a)) {
            seq![seq![]]
        } else {
            seq![]
        }) + seq![statement_text(b, c.spec_indent(line_depth(prior.push(a) + blank_run(k), b)))],
{
    let pre = prior.push(a);
    lemma_blank_prefix(pre, k, c);
    let mid = pre + blank_run(k);
    assert((mid + seq![b]).drop_last() =~= mid);
    assert((mid + seq![b]).last() == b);
    let line = statement_text(b, c.spec_indent(line_depth(mid, b)));
    if k > 0 {
        assert(rendered_lines(mid, c) + seq![line] =~= rendered_lines(pre, c) + seq![seq![]]
            + seq![line]);
    } else {
        assert(mid =~= pre);
        if blank_before(b, pre) {
            assert(rendered_lines(mid, c) + seq![seq![], line] =~= rendered_lines(pre, c)
                + seq![seq![]] + seq![line]);
        } else {
            assert(rendered_lines(mid, c) + seq![line] =~= rendered_lines(pre, c) + seq![]
                + seq![line]);
        }
    }
}

} // verus!
