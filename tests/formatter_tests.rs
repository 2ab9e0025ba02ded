use mmdfmt::config::Config;
use mmdfmt::formatter::normalize_content;
use mmdfmt::parser::parse;

#[test]
fn test_normalize_spaces_after_colon() {
    assert_eq!(normalize_content("A:  B"), "A: B");
    assert_eq!(normalize_content("A:   B"), "A: B");
    assert_eq!(normalize_content("A: B"), "A: B");
    assert_eq!(normalize_content("A:B"), "A:B");  // No space, no change
}

#[test]
fn test_normalize_spaces_inside_brackets() {
    // Only normalize when opening bracket is followed by space
    // This avoids false positives in cases like ER diagram `||--o{`
    assert_eq!(normalize_content("[ text ]"), "[text]");
    assert_eq!(normalize_content("[  text  ]"), "[text]");
    assert_eq!(normalize_content("[ text]"), "[text]");
    assert_eq!(normalize_content("[text ]"), "[text ]");  // No leading space, don't touch
    assert_eq!(normalize_content("[text]"), "[text]");
}

#[test]
fn test_normalize_spaces_inside_braces() {
    assert_eq!(normalize_content("{ text }"), "{text}");
    assert_eq!(normalize_content("{  text  }"), "{text}");
}

#[test]
fn test_normalize_spaces_inside_parens() {
    assert_eq!(normalize_content("( text )"), "(text)");
    assert_eq!(normalize_content("(  text  )"), "(text)");
}

#[test]
fn test_normalize_spaces_inside_pipes() {
    assert_eq!(normalize_content("| text |"), "|text|");
    assert_eq!(normalize_content("|  text  |"), "|text|");
    assert_eq!(normalize_content("|text|"), "|text|");
}

#[test]
fn test_normalize_preserves_space_after_closing_pipe() {
    assert_eq!(normalize_content("| label | B"), "|label| B");
    assert_eq!(normalize_content("|label| B"), "|label| B");
}

#[test]
fn test_normalize_multiple_spaces() {
    assert_eq!(normalize_content("A  B"), "A B");
    assert_eq!(normalize_content("A   B   C"), "A B C");
}

#[test]
fn test_normalize_complex_flowchart_line() {
    assert_eq!(
        normalize_content("B -->| 共享工作区 | C[ Agent ]"),
        "B -->|共享工作区| C[Agent]"
    );
}


#[test]
fn test_format_sequence_diagram() {
    let input = "sequenceDiagram\n    A ->> B: hello\n";
    let diagram = parse(input).unwrap();
    let config = Config::default();
    let output = mmdfmt::formatter::format(&diagram, &config);
    assert!(output.contains("sequenceDiagram"));
    assert!(output.contains("    A ->> B: hello"));
}

#[test]
fn test_format_sequence_normalizes_message() {
    let input = "sequenceDiagram\n    A ->> B:  hello\n";  // Double space after :
    let diagram = parse(input).unwrap();
    let config = Config::default();
    let output = mmdfmt::formatter::format(&diagram, &config);
    assert!(output.contains("A ->> B: hello"));  // Single space
    assert!(!output.contains(":  "));  // No double space
}

#[test]
fn test_format_flowchart() {
    let input = "flowchart TD\n    A --> B\n";
    let diagram = parse(input).unwrap();
    let config = Config::default();
    let output = mmdfmt::formatter::format(&diagram, &config);
    assert!(output.contains("flowchart TD"));
    assert!(output.contains("    A --> B"));
}

#[test]
fn test_format_flowchart_normalizes_brackets() {
    let input = "flowchart TD\n    A[ text ] --> B{ choice }\n";
    let diagram = parse(input).unwrap();
    let config = Config::default();
    let output = mmdfmt::formatter::format(&diagram, &config);
    assert!(output.contains("[text]"));
    assert!(output.contains("{choice}"));
}

#[test]
fn test_format_flowchart_normalizes_edge_labels() {
    let input = "flowchart TD\n    A -->| label | B\n";
    let diagram = parse(input).unwrap();
    let config = Config::default();
    let output = mmdfmt::formatter::format(&diagram, &config);
    assert!(output.contains("|label|"));
}

#[test]
fn test_format_removes_extra_blanks() {
    let input = "sequenceDiagram\n\n\n    A ->> B: hello\n";
    let diagram = parse(input).unwrap();
    let config = Config::default();
    let output = mmdfmt::formatter::format(&diagram, &config);
    assert!(!output.contains("\n\n\n"));
}

#[test]
fn test_format_preserves_single_blank() {
    let input = "sequenceDiagram\n\ncritical Block\nend\n";
    let diagram = parse(input).unwrap();
    let config = Config::default();
    let output = mmdfmt::formatter::format(&diagram, &config);
    // Should have blank line before critical
    assert!(output.contains("sequenceDiagram\n\ncritical"));
}

#[test]
fn test_format_subgraph() {
    let input = "flowchart TD\nsubgraph one\n    A --> B\nend\n";
    let diagram = parse(input).unwrap();
    let config = Config::default();
    let output = mmdfmt::formatter::format(&diagram, &config);
    assert!(output.contains("subgraph one"));
    assert!(output.contains("    A --> B"));
    assert!(output.contains("\nend\n"));
}

#[test]
fn test_format_class_diagram() {
    let input = "classDiagram\n    Animal <|-- Duck\n";
    let diagram = parse(input).unwrap();
    let config = Config::default();
    let output = mmdfmt::formatter::format(&diagram, &config);
    assert!(output.contains("classDiagram"));
    assert!(output.contains("    Animal <|-- Duck"));
}

#[test]
fn test_format_state_diagram() {
    let input = "stateDiagram-v2\n    [*] --> Still\n    Still --> Moving\n";
    let diagram = parse(input).unwrap();
    let config = Config::default();
    let output = mmdfmt::formatter::format(&diagram, &config);
    assert!(output.contains("stateDiagram-v2"));
    assert!(output.contains("    [*] --> Still"));
}

#[test]
fn test_format_er_diagram() {
    let input = "erDiagram\n    CUSTOMER ||--o{ ORDER : places\n";
    let diagram = parse(input).unwrap();
    let config = Config::default();
    let output = mmdfmt::formatter::format(&diagram, &config);
    assert!(output.contains("erDiagram"));
    assert!(output.contains("CUSTOMER ||--o{ ORDER : places"));
}

#[test]
fn test_format_custom_indent() {
    let input = "flowchart TD\n    A --> B\n";
    let diagram = parse(input).unwrap();
    let config = Config::new().with_indent_size(2);
    let output = mmdfmt::formatter::format(&diagram, &config);
    assert!(output.contains("  A --> B"));  // 2 spaces
    assert!(!output.contains("    A"));  // Not 4 spaces
}

#[test]
fn test_format_with_tabs() {
    let input = "flowchart TD\n    A --> B\n";
    let diagram = parse(input).unwrap();
    let config = Config::new().with_tabs();
    let output = mmdfmt::formatter::format(&diagram, &config);
    assert!(output.contains("\tA --> B"));
}
