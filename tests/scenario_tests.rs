use mmdfmt::ast::{BlockKind, Diagram, DiagramType, ParticipantKeyword, Statement};
use mmdfmt::formatter::normalize_content;
use mmdfmt::parser::parse;
use mmdfmt::{format_mermaid, Config, ParseError};

fn fmt(input: &str) -> String {
    format_mermaid(input, &Config::new()).unwrap()
}

#[test]
fn sequence_message_indented_one_level() {
    assert_eq!(
        fmt("sequenceDiagram\n    A ->> B: hello\n"),
        "sequenceDiagram\n    A ->> B: hello\n"
    );
    assert_eq!(fmt("sequenceDiagram\nA ->> B: hello\n"), "sequenceDiagram\n    A ->> B: hello\n");
}

#[test]
fn three_blank_lines_collapse_to_one() {
    assert_eq!(
        fmt("sequenceDiagram\n\n\n\n    A ->> B: hello\n"),
        "sequenceDiagram\n\n    A ->> B: hello\n"
    );
}

#[test]
fn bracket_padding_removed_only_after_leading_space() {
    assert_eq!(
        fmt("flowchart TD\n    A[ text ] --> B{ choice }\n"),
        "flowchart TD\n    A[text] --> B{choice}\n"
    );
    assert_eq!(normalize_content("[text ]"), "[text ]");
    assert_eq!(normalize_content("CUSTOMER ||--o{ ORDER : places"), "CUSTOMER ||--o{ ORDER : places");
    assert_eq!(normalize_content("A( [ x ] )"), "A([x])");
    assert_eq!(normalize_content("[ a [ b ] ]"), "[a [b]]");
    assert_eq!(normalize_content("[ open"), "[ open");
    assert_eq!(normalize_content("A\t\tB"), "A\t\tB");
}

#[test]
fn brace_block_lines_share_a_depth() {
    assert_eq!(
        fmt("stateDiagram-v2\nstate X {\n    [*] --> Y\n}\n"),
        "stateDiagram-v2\nstate X {\n        [*] --> Y\n}\n"
    );
    assert_eq!(
        fmt("stateDiagram-v2\n    A --> B\nstate X {\nstate Y {\nC\n}\n}\n"),
        "stateDiagram-v2\n    A --> B\n\nstate X {\n    state Y {\n            C\n    }\n}\n"
    );
}

#[test]
fn indent_width_and_tabs() {
    let two = Config::new().with_indent_size(2);
    assert_eq!(format_mermaid("flowchart TD\n    A --> B\n", &two).unwrap(), "flowchart TD\n  A --> B\n");
    let tabs = Config::new().with_indent_size(8).with_tabs();
    assert_eq!(
        format_mermaid("classDiagram\nclass A {\n+x\n}\n", &tabs).unwrap(),
        "classDiagram\nclass A {\n\t\t+x\n}\n"
    );
    assert_eq!(two.indent(3), "      ");
    assert_eq!(tabs.indent(2), "\t\t");
    assert_eq!(Config::new().indent(0), "");
}

#[test]
fn unknown_diagram_type_is_a_flowchart() {
    assert_eq!(fmt("fooDiagram\n    A --> B\n"), "flowchart\n    A --> B\n");
    let d = parse("fooDiagram LR\n").unwrap();
    assert!(matches!(d.statements[0], Statement::DiagramDecl(DiagramType::Flowchart(None))));
}

#[test]
fn formatting_twice_changes_nothing() {
    let inputs = [
        "sequenceDiagram\n  participant  A as  Alice\n\n\n  loop  every  minute\n A->>B:   hi\n  end\n",
        "flowchart LR\n  A[ x ] -->| y | B\nsubgraph s\nC\nend\n\n\n",
        "%% lead\n%%{init: {}}%%\nstateDiagram\nstate S {\n  [*] --> T\n}\n",
    ];
    let inputs = [
        inputs[0],
        inputs[1],
        inputs[2],
        "flowchart\nA -->| x | B -->| y | C\n[ a [ b ] ] --> D\n",
    ];
    for input in inputs.iter() {
        let once = fmt(input);
        assert_eq!(fmt(&once), once);
    }
}

#[test]
fn one_statement_per_line() {
    let d = parse("flowchart\n\n  A\n%% c\nend").unwrap();
    assert_eq!(d.statements.len(), 5);
    assert!(matches!(d.statements[1], Statement::BlankLine));
    assert!(matches!(d.statements[3], Statement::Comment(_)));
    assert!(matches!(d.statements[4], Statement::BlockEnd));
    assert_eq!(parse("").unwrap().statements.len(), 1);
}

#[test]
fn empty_input_gives_empty_output() {
    assert_eq!(fmt(""), "");
    assert_eq!(fmt("\n\n  \n"), "");
}

#[test]
fn declaration_must_start_with_a_letter() {
    match format_mermaid("%% lead\n\n   --> x\n", &Config::new()) {
        Err(ParseError::Grammar { line, column, .. }) => {
            assert_eq!(line, 3);
            assert_eq!(column, 4);
        }
        Ok(_) => panic!("expected an error"),
    }
}

#[test]
fn new_block_after_content_is_set_apart() {
    assert_eq!(
        fmt("sequenceDiagram\n    A ->> B: hi\n    loop every\n    A ->> B: x\n    end\n    alt ok\n    else no\n    end\n"),
        "sequenceDiagram\n    A ->> B: hi\n\nloop every\n    A ->> B: x\nend\n\nalt ok\nelse no\nend\n"
    );
}

#[test]
fn participants_and_aliases() {
    assert_eq!(
        fmt("sequenceDiagram\n  participant   A  as   Alice \n actor Bob\n"),
        "sequenceDiagram\n    participant A as Alice\n    actor Bob\n"
    );
    let d = parse("sequenceDiagram\nactor B as Bee\n").unwrap();
    match &d.statements[1] {
        Statement::Participant(p) => {
            assert_eq!(p.keyword, ParticipantKeyword::Actor);
            assert_eq!(p.name, "B");
            assert_eq!(p.alias.as_deref(), Some("Bee"));
        }
        _ => panic!("expected a participant"),
    }
}

#[test]
fn option_and_else_only_in_sequence_diagrams() {
    assert_eq!(fmt("flowchart\nelse x\n"), "flowchart\n    else x\n");
    assert_eq!(fmt("sequenceDiagram\ncritical c\noption  o \nend\n"), "sequenceDiagram\ncritical c\noption o\nend\n");
}

#[test]
fn block_labels() {
    let d = parse("flowchart\nsubgraph  one two \nsubgraph\n").unwrap();
    match &d.statements[1] {
        Statement::BlockStart(b) => {
            assert_eq!(b.kind, BlockKind::Subgraph);
            assert_eq!(b.label.as_deref(), Some("one two"));
        }
        _ => panic!("expected a block"),
    }
    match &d.statements[2] {
        Statement::BlockStart(b) => assert!(b.label.is_none()),
        _ => panic!("expected a block"),
    }
}

#[test]
fn comments_directives_and_notes() {
    assert_eq!(
        fmt("%%{init: {}}%%\n%% top\nsequenceDiagram\n%%  inner\nNote over A:  x\n"),
        "%%{init: {}}%%\n%% top\nsequenceDiagram\n    %%  inner\n    Note over A:  x\n"
    );
}

#[test]
fn diagram_type_declarations() {
    assert_eq!(fmt("pie title Pets showData\n"), "pie showData\n");
    assert_eq!(fmt("pie title Pets\n"), "pie\n");
    assert_eq!(fmt("graph   LR  \n"), "graph LR\n");
    assert_eq!(fmt("  stateDiagram-v2\n"), "stateDiagram-v2\n");
    assert_eq!(fmt("xychart-beta"), "xychart-beta\n");
    assert_eq!(DiagramType::Flowchart(Some("TD".to_string())).format(), "flowchart TD");
    assert_eq!(DiagramType::Pie(true).format(), "pie showData");
    assert_eq!(BlockKind::Rect.as_str(), "rect");
}

#[test]
fn trailing_blank_lines_removed_and_newline_added() {
    assert_eq!(fmt("flowchart\n    A\n\n\n"), "flowchart\n    A\n");
    assert_eq!(fmt("flowchart TD\n A-->B"), "flowchart TD\n    A-->B\n");
    assert_eq!(fmt("flowchart TD\r\n A-->B\r\n"), "flowchart TD\n    A-->B\n");
}

#[test]
fn unmatched_closers_are_tolerated() {
    assert_eq!(fmt("stateDiagram\n}\n}\nA\n"), "stateDiagram\n}\n}\n    A\n");
    assert_eq!(fmt("flowchart\nend\nend\nA\n"), "flowchart\nend\nend\n    A\n");
}

#[test]
fn pipe_labels_keep_space_after_closing_pipe() {
    assert_eq!(normalize_content("A -->| x | B -->| y | C"), "A -->|x| B -->|y| C");
    assert_eq!(normalize_content("A -->|x| B -->|y| C"), "A -->|x| B -->|y| C");
    assert_eq!(normalize_content("| | |"), "|| |");
    assert_eq!(normalize_content("|| |"), "|| |");
    assert_eq!(normalize_content("| open"), "| open");
}

#[test]
fn trailing_white_space_of_last_line_removed() {
    let d = Diagram { statements: vec![Statement::GenericLine("a ".to_string())] };
    assert_eq!(mmdfmt::formatter::format(&d, &Config::new()), "a\n");
    let d = Diagram {
        statements: vec![
            Statement::DiagramDecl(DiagramType::Gantt),
            Statement::Note("  ".to_string()),
        ],
    };
    assert_eq!(mmdfmt::formatter::format(&d, &Config::new()), "gantt\n");
}

#[test]
fn grammar_error_message() {
    match parse("--> x\n") {
        Err(ParseError::Grammar { line, column, message }) => {
            assert_eq!((line, column), (1, 1));
            assert_eq!(message, "expected a diagram type");
        }
        Ok(_) => panic!("expected an error"),
    }
}
