use whitehall::parser::Parser;

#[test]
fn test_parse_simple_text_component() {
    let mut parser = Parser::new("<Text>Hello, World!</Text>");
    let result = parser.parse();
    assert!(result.is_ok());
}
