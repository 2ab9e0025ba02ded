//! The statements of a diagram script, one per source line, and their
//! mathematical models.
use vstd::prelude::*;

use crate::text::append_str;

verus! {

/// A parsed diagram: one statement per source line, in source order.
#[derive(Debug, Clone)]
pub struct Diagram {
    pub statements: Vec<Statement>,
}

#[derive(Debug, Clone)]
pub enum Statement {
    /// Diagram type declaration (`sequenceDiagram`, `flowchart TD`, ...)
    DiagramDecl(DiagramType),
    /// Directive (`%%{ ... }%%`)
    Directive(String),
    /// Participant or actor declaration (sequence diagram)
    Participant(Participant),
    /// Block start closed by `end` (critical, alt, loop, subgraph, ...)
    BlockStart(BlockStart),
    /// Block start closed by `}` (`state X {`, `class X {`, `namespace X {`)
    BraceBlockStart(BraceBlockStart),
    /// `option` within a block (sequence diagram)
    BlockOption(Option<String>),
    /// `else` within a block (sequence diagram)
    BlockElse(Option<String>),
    /// `end`, closing a `BlockStart`
    BlockEnd,
    /// `}`, closing a `BraceBlockStart`
    BraceBlockEnd,
    /// Note line, kept as written
    Note(String),
    /// Comment: the text after its leading `%%`
    Comment(String),
    /// Any other content line (arrows, nodes, relations, ...)
    GenericLine(String),
    /// Blank line
    BlankLine,
}

#[derive(Debug, Clone)]
pub enum DiagramType {
    SequenceDiagram,
    Flowchart(Option<String>),
    Graph(Option<String>),
    ClassDiagram,
    StateDiagram,
    StateDiagramV2,
    ErDiagram,
    Journey,
    Gantt,
    Pie(bool),
    QuadrantChart,
    RequirementDiagram,
    GitGraph,
    Mindmap,
    Timeline,
    SankeyBeta,
    XyChartBeta,
    BlockBeta,
}

#[derive(Debug, Clone)]
pub struct Participant {
    pub keyword: ParticipantKeyword,
    pub name: String,
    pub alias: Option<String>,
}

#[derive(Debug, Clone, Copy, PartialEq, Eq, Structural)]
pub enum ParticipantKeyword {
    Participant,
    Actor,
}

/// Block that `end` closes
#[derive(Debug, Clone)]
pub struct BlockStart {
    pub kind: BlockKind,
    pub label: Option<String>,
}

#[derive(Debug, Clone, Copy, PartialEq, Eq, Structural)]
pub enum BlockKind {
    Critical,
    Alt,
    Loop,
    Par,
    Opt,
    Break,
    Rect,
    Subgraph,
}

/// Block that `}` closes
#[derive(Debug, Clone)]
pub struct BraceBlockStart {
    pub kind: BraceBlockKind,
    pub name: String,
}

#[derive(Debug, Clone, Copy, PartialEq, Eq, Structural)]
pub enum BraceBlockKind {
    State,
    Class,
    Namespace,
}

/// Model of a `DiagramType`: its text fields as character sequences.
pub enum DiagramTypeModel {
    SequenceDiagram,
    Flowchart(Option<Seq<char>>),
    Graph(Option<Seq<char>>),
    ClassDiagram,
    StateDiagram,
    StateDiagramV2,
    ErDiagram,
    Journey,
    Gantt,
    Pie(bool),
    QuadrantChart,
    RequirementDiagram,
    GitGraph,
    Mindmap,
    Timeline,
    SankeyBeta,
    XyChartBeta,
    BlockBeta,
}

/// Model of a `Statement`: its text fields as character sequences.
#[allow(inconsistent_fields)]
pub enum StatementModel {
    DiagramDecl(DiagramTypeModel),
    Directive(Seq<char>),
    Participant { keyword: ParticipantKeyword, name: Seq<char>, alias: Option<Seq<char>> },
    BlockStart { kind: BlockKind, label: Option<Seq<char>> },
    BraceBlockStart { kind: BraceBlockKind, name: Seq<char> },
    BlockOption(Option<Seq<char>>),
    BlockElse(Option<Seq<char>>),
    BlockEnd,
    BraceBlockEnd,
    Note(Seq<char>),
    Comment(Seq<char>),
    GenericLine(Seq<char>),
    BlankLine,
}

pub open spec fn opt_view(o: Option<String>) -> Option<Seq<char>> {
    match o {
        Some(s) => Some(s@),
        None => None,
    }
}

impl View for DiagramType {
    type V = DiagramTypeModel;

    open spec fn view(&self) -> DiagramTypeModel {
        match self {
            DiagramType::SequenceDiagram => DiagramTypeModel::SequenceDiagram,
            DiagramType::Flowchart(d) => DiagramTypeModel::Flowchart(opt_view(*d)),
            DiagramType::Graph(d) => DiagramTypeModel::Graph(opt_view(*d)),
            DiagramType::ClassDiagram => DiagramTypeModel::ClassDiagram,
            DiagramType::StateDiagram => DiagramTypeModel::StateDiagram,
            DiagramType::StateDiagramV2 => DiagramTypeModel::StateDiagramV2,
            DiagramType::ErDiagram => DiagramTypeModel::ErDiagram,
            DiagramType::Journey => DiagramTypeModel::Journey,
            DiagramType::Gantt => DiagramTypeModel::Gantt,
            DiagramType::Pie(b) => DiagramTypeModel::Pie(*b),
            DiagramType::QuadrantChart => DiagramTypeModel::QuadrantChart,
            DiagramType::RequirementDiagram => DiagramTypeModel::RequirementDiagram,
            DiagramType::GitGraph => DiagramTypeModel::GitGraph,
            DiagramType::Mindmap => DiagramTypeModel::Mindmap,
            DiagramType::Timeline => DiagramTypeModel::Timeline,
            DiagramType::SankeyBeta => DiagramTypeModel::SankeyBeta,
            DiagramType::XyChartBeta => DiagramTypeModel::XyChartBeta,
            DiagramType::BlockBeta => DiagramTypeModel::BlockBeta,
        }
    }
}

impl View for Statement {
    type V = StatementModel;

    open spec fn view(&self) -> StatementModel {
        match self {
            Statement::DiagramDecl(d) => StatementModel::DiagramDecl(d@),
            Statement::Directive(s) => StatementModel::Directive(s@),
            Statement::Participant(p) => StatementModel::Participant {
                keyword: p.keyword,
                name: p.name@,
                alias: opt_view(p.alias),
            },
            Statement::BlockStart(b) => StatementModel::BlockStart {
                kind: b.kind,
                label: opt_view(b.label),
            },
            Statement::BraceBlockStart(b) => StatementModel::BraceBlockStart {
                kind: b.kind,
                name: b.name@,
            },
            Statement::BlockOption(l) => StatementModel::BlockOption(opt_view(*l)),
            Statement::BlockElse(l) => StatementModel::BlockElse(opt_view(*l)),
            Statement::BlockEnd => StatementModel::BlockEnd,
            Statement::BraceBlockEnd => StatementModel::BraceBlockEnd,
            Statement::Note(s) => StatementModel::Note(s@),
            Statement::Comment(s) => StatementModel::Comment(s@),
            Statement::GenericLine(s) => StatementModel::GenericLine(s@),
            Statement::BlankLine => StatementModel::BlankLine,
        }
    }
}

impl View for Diagram {
    type V = Seq<StatementModel>;

    open spec fn view(&self) -> Seq<StatementModel> {
        self.statements@.map_values(|s: Statement| s@)
    }
}

/// `head`, followed by a space and `rest` when there is one.
pub open spec fn with_suffix(head: Seq<char>, rest: Option<Seq<char>>) -> Seq<char> {
    match rest {
        Some(r) => head + seq![' '] + r,
        None => head,
    }
}

/// The canonical text of a diagram type.
pub open spec fn diagram_type_text(d: DiagramTypeModel) -> Seq<char> {
    match d {
        DiagramTypeModel::SequenceDiagram => "sequenceDiagram"@,
        DiagramTypeModel::Flowchart(dir) => with_suffix("flowchart"@, dir),
        DiagramTypeModel::Graph(dir) => with_suffix("graph"@, dir),
        DiagramTypeModel::ClassDiagram => "classDiagram"@,
        DiagramTypeModel::StateDiagram => "stateDiagram"@,
        DiagramTypeModel::StateDiagramV2 => "stateDiagram-v2"@,
        DiagramTypeModel::ErDiagram => "erDiagram"@,
        DiagramTypeModel::Journey => "journey"@,
        DiagramTypeModel::Gantt => "gantt"@,
        DiagramTypeModel::Pie(show) => if show { "pie showData"@ } else { "pie"@ },
        DiagramTypeModel::QuadrantChart => "quadrantChart"@,
        DiagramTypeModel::RequirementDiagram => "requirementDiagram"@,
        DiagramTypeModel::GitGraph => "gitGraph"@,
        DiagramTypeModel::Mindmap => "mindmap"@,
        DiagramTypeModel::Timeline => "timeline"@,
        DiagramTypeModel::SankeyBeta => "sankey-beta"@,
        DiagramTypeModel::XyChartBeta => "xychart-beta"@,
        DiagramTypeModel::BlockBeta => "block-beta"@,
    }
}

fn keyword_with(head: &str, rest: &Option<String>) -> (r: String)
    ensures
        r@ == with_suffix(head@, opt_view(*rest)),
{
    let mut r = String::from_str(head);
    match rest {
        Some(d) => {
            append_str(&mut r, " ");
            append_str(&mut r, d.as_str());
            proof {
                reveal_strlit(" ");
                assert(r@ =~= head@ + seq![' '] + d@);
            }
        },
        None => {},
    }
    r
}

impl DiagramType {
    /// The declaration line for this diagram type.
    pub fn format(&self) -> (r: String)
        ensures
            r@ == diagram_type_text(self@),
    {
        match self {
            DiagramType::SequenceDiagram => String::from_str("sequenceDiagram"),
            DiagramType::Flowchart(dir) => keyword_with("flowchart", dir),
            DiagramType::Graph(dir) => keyword_with("graph", dir),
            DiagramType::ClassDiagram => String::from_str("classDiagram"),
            DiagramType::StateDiagram => String::from_str("stateDiagram"),
            DiagramType::StateDiagramV2 => String::from_str("stateDiagram-v2"),
            DiagramType::ErDiagram => String::from_str("erDiagram"),
            DiagramType::Journey => String::from_str("journey"),
            DiagramType::Gantt => String::from_str("gantt"),
            DiagramType::Pie(show_data) => {
                if *show_data {
                    String::from_str("pie showData")
                } else {
                    String::from_str("pie")
                }
            },
            DiagramType::QuadrantChart => String::from_str("quadrantChart"),
            DiagramType::RequirementDiagram => String::from_str("requirementDiagram"),
            DiagramType::GitGraph => String::from_str("gitGraph"),
            DiagramType::Mindmap => String::from_str("mindmap"),
            DiagramType::Timeline => String::from_str("timeline"),
            DiagramType::SankeyBeta => String::from_str("sankey-beta"),
            DiagramType::XyChartBeta => String::from_str("xychart-beta"),
            DiagramType::BlockBeta => String::from_str("block-beta"),
        }
    }
}

pub open spec fn participant_keyword_text(k: ParticipantKeyword) -> Seq<char> {
    match k {
        ParticipantKeyword::Participant => "participant"@,
        ParticipantKeyword::Actor => "actor"@,
    }
}

impl ParticipantKeyword {
    pub fn as_str(&self) -> (r: &'static str)
        ensures
            r@ == participant_keyword_text(*self),
    {
        match self {
            ParticipantKeyword::Participant => "participant",
            ParticipantKeyword::Actor => "actor",
        }
    }
}

pub open spec fn block_kind_text(k: BlockKind) -> Seq<char> {
    match k {
        BlockKind::Critical => "critical"@,
        BlockKind::Alt => "alt"@,
        BlockKind::Loop => "loop"@,
        BlockKind::Par => "par"@,
        BlockKind::Opt => "opt"@,
        BlockKind::Break => "break"@,
        BlockKind::Rect => "rect"@,
        BlockKind::Subgraph => "subgraph"@,
    }
}

impl BlockKind {
    pub fn as_str(&self) -> (r: &'static str)
        ensures
            r@ == block_kind_text(*self),
    {
        match self {
            BlockKind::Critical => "critical",
            BlockKind::Alt => "alt",
            BlockKind::Loop => "loop",
            BlockKind::Par => "par",
            BlockKind::Opt => "opt",
            BlockKind::Break => "break",
            BlockKind::Rect => "rect",
            BlockKind::Subgraph => "subgraph",
        }
    }
}

pub open spec fn brace_kind_text(k: BraceBlockKind) -> Seq<char> {
    match k {
        BraceBlockKind::State => "state"@,
        BraceBlockKind::Class => "class"@,
        BraceBlockKind::Namespace => "namespace"@,
    }
}

impl BraceBlockKind {
    pub fn as_str(&self) -> (r: &'static str)
        ensures
            r@ == brace_kind_text(*self),
    {
        match self {
            BraceBlockKind::State => "state",
            BraceBlockKind::Class => "class",
            BraceBlockKind::Namespace => "namespace",
        }
    }
}

} // verus!
