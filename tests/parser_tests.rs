use mmdfmt::parser::parse;

#[test]
fn test_parse_sequence_diagram() {
    let input = r#"sequenceDiagram
    participant A
    A ->> B: Hello
"#;
    let result = parse(input);
    assert!(result.is_ok());
}

#[test]
fn test_parse_flowchart() {
    let input = r#"flowchart TD
    A --> B
    B --> C
"#;
    let result = parse(input);
    assert!(result.is_ok());
}

#[test]
fn test_parse_with_subgraph() {
    let input = r#"flowchart TD
    subgraph one
        A --> B
    end
"#;
    let result = parse(input);
    assert!(result.is_ok());
}
