//! Tests of the metadata model: parsing YAML into `ToolDefinition`,
//! projecting to `McpTool`, serialization, and the round trip.

use mcp_serve::definitions::{McpTool, ParseError, ToolDefinition, ToolInput, ToolOutput};
use mcp_serve::document::Document;

/// The value under a key of an object document.
fn doc_get<'a>(d: &'a Document, key: &str) -> &'a Document {
    match d {
        Document::Object(pairs) => match pairs.iter().find(|p| p.0 == key) {
            Some(p) => &p.1,
            None => panic!("key {} not found", key),
        },
        _ => panic!("not an object"),
    }
}

fn text(s: &str) -> Document {
    Document::Text(s.to_string())
}

#[test]
fn test_tool_definition_creation() {
    let yaml = r#"
name: test_tool
description: A test tool
input:
  template: "--name {{name}}"
  schema:
    type: object
    properties:
      name:
        type: string
        description: Name parameter
    required: [name]
output:
  template: "Result: (?<result>.*)"
  schema:
    type: object
    properties:
      result:
        type: string
        description: Operation result
"#;

    let tool = ToolDefinition::from_yaml(yaml).expect("Should parse YAML");

    assert_eq!(tool.name, "test_tool");
    assert_eq!(tool.description, "A test tool");
    assert!(tool.title.is_none());
    assert!(tool.annotations.is_none());
    assert_eq!(tool.input.template, "--name {{name}}");
    assert_eq!(tool.output.template, "Result: (?<result>.*)");
}

#[test]
fn test_tool_definition_with_optional_fields() {
    let yaml = r#"
name: test
title: Test Tool
description: Test tool
input:
  template: "--test"
  schema:
    type: object
output:
  template: "Result: (?<value>.*)"
  schema:
    type: string
"#;

    let tool = ToolDefinition::from_yaml(yaml).expect("Should parse YAML");

    assert_eq!(tool.title, Some("Test Tool".to_string()));
    assert_eq!(tool.output.template, "Result: (?<value>.*)");
}

#[test]
fn test_mcp_tool_creation() {
    // Test McpTool via conversion from ToolDefinition
    let yaml = r#"
name: mcp_test
description: MCP test tool
input:
  template: "--test"
  schema:
    type: object
output:
  template: "Result: (?<value>.*)"
  schema:
    type: string
"#;

    let tool = ToolDefinition::from_yaml(yaml).expect("Should parse YAML");
    let mcp_tool = tool.to_mcp_tool();

    assert_eq!(mcp_tool.name, "mcp_test");
    assert_eq!(mcp_tool.description, "MCP test tool");
    assert!(mcp_tool.title.is_none());
    assert!(mcp_tool.output_schema.is_some());
}

#[test]
fn test_conversion_to_mcp_tool() {
    let yaml = r#"
name: convert_test
title: Convert Test
description: Conversion test
input:
  template: "--param {{param}}"
  schema:
    type: object
    properties:
      param:
        type: string
output:
  template: "Result: (?<result>.*)"
  schema:
    type: string
"#;

    let tool = ToolDefinition::from_yaml(yaml).expect("Should parse YAML");
    let mcp_tool = tool.to_mcp_tool();

    assert_eq!(mcp_tool.name, "convert_test");
    assert_eq!(mcp_tool.title, Some("Convert Test".to_string()));
    assert_eq!(mcp_tool.description, "Conversion test");
    assert_eq!(doc_get(&mcp_tool.input_schema, "type"), &text("object"));
    assert_eq!(
        doc_get(&mcp_tool.output_schema.unwrap(), "type"),
        &text("string")
    );
}

#[test]
fn test_yaml_serialization_tool_definition() {
    let yaml = r#"
name: create_ticket
title: Create Ticket
description: Creates a ticket
input:
  template: "--title {{title}} {{body}}"
  schema:
    type: object
    properties:
      title:
        type: string
        description: Ticket title
      body:
        type: string
        description: Ticket body
    required: [title, body]
output:
  template: "Created: (?<url>https://.*)"
  schema:
    type: object
    properties:
      url:
        type: string
"#;

    // Test deserialization
    let tool = ToolDefinition::from_yaml(yaml).expect("Should deserialize from YAML");

    assert_eq!(tool.name, "create_ticket");
    assert_eq!(tool.title, Some("Create Ticket".to_string()));
    assert_eq!(tool.description, "Creates a ticket");
    assert_eq!(tool.input.template, "--title {{title}} {{body}}");
    assert!(matches!(
        doc_get(&tool.input.schema, "properties"),
        Document::Object(_)
    ));
    assert_eq!(tool.output.template, "Created: (?<url>https://.*)");

    // Test round-trip serialization
    let serialized = tool.to_yaml();
    let reparsed = ToolDefinition::from_yaml(&serialized).expect("Should deserialize again");
    assert_eq!(tool, reparsed);
}

#[test]
fn test_yaml_deserialization_from_design_example() {
    let yaml = r#"
name: CreateTicket
title: Create Ticket
description: Creates a new feature ticket in the project tracking system.
input:
  template: '--title {{title}} [--parent {{parent_id}}] [--label {{label}}...] {{body}}'
  schema:
    type: object
    properties:
      title:
        type: string
        description: "The title of the feature ticket."
      body:
        type: string
        description: "A detailed description of the feature in markdown."
      parent_id:
        type: string
        description: "Optional: The ID of the parent ticket."
      label:
        type: array
        items: { type: string }
        description: "Optional: A list of labels to apply."
    required: [ "title", "body" ]
output:
  template: |-
    Ticket created: (?<url>https://.*)
    ID: (?<id>\d+)
  schema:
    type: object
    properties:
      url: { type: string }
      id: { type: string }
"#;

    let tool = ToolDefinition::from_yaml(yaml).expect("Should parse YAML");

    assert_eq!(tool.name, "CreateTicket");
    assert_eq!(tool.title, Some("Create Ticket".to_string()));
    assert_eq!(
        tool.description,
        "Creates a new feature ticket in the project tracking system."
    );

    // Verify input
    assert_eq!(
        tool.input.template,
        "--title {{title}} [--parent {{parent_id}}] [--label {{label}}...] {{body}}"
    );
    assert_eq!(doc_get(&tool.input.schema, "type"), &text("object"));
    assert!(matches!(
        doc_get(&tool.input.schema, "properties"),
        Document::Object(_)
    ));
    assert_eq!(
        doc_get(&tool.input.schema, "required"),
        &Document::List(vec![text("title"), text("body")])
    );

    // Verify output
    assert!(tool
        .output
        .template
        .contains("Ticket created: (?<url>https://.*)"));
    assert!(tool.output.template.contains("ID: (?<id>\\d+)"));
    assert_eq!(doc_get(&tool.output.schema, "type"), &text("object"));
}

#[test]
fn test_mcp_tool_yaml_serialization() {
    // Test McpTool serialization via conversion from ToolDefinition
    let yaml = r#"
name: mcp_tool
description: MCP tool
input:
  template: "--param {{param}}"
  schema:
    type: object
    properties:
      param:
        type: string
output:
  template: "Result: (?<value>.*)"
  schema:
    type: string
"#;

    let tool = ToolDefinition::from_yaml(yaml).expect("Should parse YAML");
    let mcp_tool = tool.to_mcp_tool();

    let mcp_yaml = mcp_tool.to_yaml();
    assert!(mcp_yaml.contains("name: mcp_tool"));
    assert!(mcp_yaml.contains("input_schema:"));
    assert!(!mcp_yaml.contains("template:")); // Should not have template fields

    let parsed = McpTool::from_yaml(&mcp_yaml).expect("Should parse");
    assert_eq!(parsed.name, "mcp_tool");
    assert_eq!(parsed.description, "MCP tool");
}

#[test]
fn test_json_value_schema_flexibility() {
    // Test that we can handle various schema shapes as opaque values
    let simple_yaml = r#"
template: "--name {{name}}"
schema:
  type: string
"#;

    let complex_yaml = r#"
template: "--name {{name}} --age {{age}}"
schema:
  type: object
  properties:
    name:
      type: string
    age:
      type: integer
      minimum: 0
  required: [name]
"#;

    // Both should serialize and deserialize fine
    let input1 = ToolInput::from_yaml(simple_yaml).unwrap();
    let input2 = ToolInput::from_yaml(complex_yaml).unwrap();

    let yaml1 = input1.to_yaml();
    let yaml2 = input2.to_yaml();

    let _parsed1 = ToolInput::from_yaml(&yaml1).unwrap();
    let _parsed2 = ToolInput::from_yaml(&yaml2).unwrap();
}

#[test]
fn test_error_handling_malformed_yaml() {
    let malformed_yaml = r#"
name: "test_tool"
description: A test tool
input:
  template: "--test"
  schema:
    type: object
    properties:
      invalid: [unclosed
output:
  template: "Result: (?<result>.*)"
  schema:
    type: string
"#;

    let result = ToolDefinition::from_yaml(malformed_yaml);
    assert!(result.is_err(), "Malformed YAML should produce an error");

    let error = result.unwrap_err();
    let error_str = error.message();
    assert!(!error_str.is_empty(), "Error message should not be empty");
}

#[test]
fn test_serde_yaml_ng_error_handling() {
    // Malformed YAML is rejected by the YAML library the parser leans on
    let malformed_yaml = r#"
name: "test_tool"
description: A test tool for validation
version: 1.0.0
invalid_yaml: [unclosed_list
"#;

    let result: Result<serde_yaml_ng::Value, _> = serde_yaml_ng::from_str(malformed_yaml);
    assert!(result.is_err(), "Malformed YAML should produce an error");

    // Verify error contains useful information
    let error = result.unwrap_err();
    let error_str = error.to_string();
    assert!(!error_str.is_empty(), "Error message should not be empty");
}

#[test]
fn test_missing_output_is_an_error() {
    // A document without the required output block fails with a parse
    // error naming the field, not a silently defaulted output.
    let yaml = r#"
name: no_output
description: lacks an output block
input:
  template: "--x"
  schema:
    type: object
"#;

    match ToolDefinition::from_yaml(yaml) {
        Err(ParseError::MissingField { field }) => assert_eq!(field, "output"),
        other => panic!("expected a missing-field error, got {:?}", other),
    }
}

#[test]
fn test_missing_name_and_wrong_shapes() {
    let no_name = r#"
description: d
input: {template: "x", schema: {}}
output: {template: "y", schema: {}}
"#;
    match ToolDefinition::from_yaml(no_name) {
        Err(ParseError::MissingField { field }) => assert_eq!(field, "name"),
        other => panic!("expected a missing-field error, got {:?}", other),
    }

    let scalar_input = r#"
name: t
description: d
input: 7
output: {template: "y", schema: {}}
"#;
    match ToolDefinition::from_yaml(scalar_input) {
        Err(ParseError::WrongShape { field }) => assert_eq!(field, "input"),
        other => panic!("expected a wrong-shape error, got {:?}", other),
    }

    let no_template = r#"
name: t
description: d
input: {schema: {}}
output: {template: "y", schema: {}}
"#;
    match ToolDefinition::from_yaml(no_template) {
        Err(ParseError::MissingField { field }) => assert_eq!(field, "input.template"),
        other => panic!("expected a missing-field error, got {:?}", other),
    }

    let not_a_mapping = "just a scalar";
    match ToolDefinition::from_yaml(not_a_mapping) {
        Err(ParseError::WrongShape { field }) => assert_eq!(field, "document"),
        other => panic!("expected a wrong-shape error, got {:?}", other),
    }

    let malformed = "a: [unclosed";
    match ToolDefinition::from_yaml(malformed) {
        Err(ParseError::Syntax { message }) => assert!(!message.is_empty()),
        other => panic!("expected a syntax error, got {:?}", other),
    }
}

#[test]
fn test_serialization_exact_form() {
    let tool = ToolDefinition {
        name: "t".to_string(),
        title: None,
        description: "d".to_string(),
        input: ToolInput {
            template: "x".to_string(),
            schema: Document::Object(vec![("type".to_string(), text("object"))]),
        },
        output: ToolOutput {
            template: "y".to_string(),
            schema: Document::Object(vec![("type".to_string(), text("string"))]),
        },
        annotations: None,
    };

    assert_eq!(
        tool.to_yaml(),
        "{name: t, title: null, description: d, \
         input: {template: x, schema: {type: object}}, \
         output: {template: y, schema: {type: string}}, \
         annotations: null}"
    );
}

#[test]
fn test_round_trip_with_awkward_values() {
    // Quoting, escapes, integers, booleans, lists and annotations all
    // survive the round trip.
    let tool = ToolDefinition {
        name: "true".to_string(),
        title: Some("A \"quoted\" title\nwith a newline".to_string()),
        description: "-starts with a dash: and holds a colon".to_string(),
        input: ToolInput {
            template: "--title {{title}}".to_string(),
            schema: Document::Object(vec![
                ("minimum".to_string(), Document::Int(-42)),
                ("maximum".to_string(), Document::Int(9007199254740991)),
                ("nullable".to_string(), Document::Bool(true)),
                ("default".to_string(), Document::Null),
            ]),
        },
        output: ToolOutput {
            template: "ID: (?<id>\\d+)".to_string(),
            schema: Document::List(vec![
                text("a b"),
                Document::Int(0),
                Document::Bool(false),
                Document::List(vec![]),
                Document::Object(vec![]),
            ]),
        },
        annotations: Some(vec![
            ("trusted".to_string(), Document::Bool(false)),
            ("note".to_string(), text("tab\there")),
        ]),
    };

    let serialized = tool.to_yaml();
    let reparsed = ToolDefinition::from_yaml(&serialized).expect("round trip should parse");
    assert_eq!(tool, reparsed);
}

#[test]
fn test_unicode_escape_in_document() {
    let yaml = "{name: \"\\u0041tool\", description: d, \
                input: {template: x, schema: null}, \
                output: {template: y, schema: null}}";
    let tool = ToolDefinition::from_yaml(yaml).expect("Should parse");
    assert_eq!(tool.name, "Atool");
}

#[test]
fn test_duplicate_keys_take_first() {
    let yaml = "{name: first, name: second, description: d, \
                input: {template: x, schema: null}, \
                output: {template: y, schema: null}}";
    let tool = ToolDefinition::from_yaml(yaml).expect("Should parse");
    assert_eq!(tool.name, "first");
}

#[test]
fn test_projection_drops_templates_everywhere() {
    let yaml = r#"
name: create_ticket
description: Creates a ticket
input:
  template: "--title {{title}} {{body}}"
  schema:
    type: object
output:
  template: "Created: (?<url>https://.*)"
  schema:
    type: object
"#;
    let tool = ToolDefinition::from_yaml(yaml).expect("Should parse YAML");
    assert_eq!(tool.name, "create_ticket");
    let mcp = tool.to_mcp_tool();
    assert_eq!(mcp.name, "create_ticket");
    let serialized = mcp.to_yaml();
    assert!(!serialized.contains("template"));
    assert!(!serialized.contains("--title"));
}

#[test]
fn test_escape_and_integer_exact_form() {
    let quoted = ToolInput {
        template: "say \"hi\"\n".to_string(),
        schema: Document::Int(-12),
    };
    assert_eq!(
        quoted.to_yaml(),
        "{template: \"say \\\"hi\\\"\\n\", schema: -12}"
    );

    let control = ToolInput {
        template: "\u{1f}".to_string(),
        schema: Document::Null,
    };
    assert_eq!(control.to_yaml(), "{template: \"\\u001f\", schema: null}");

    let reparsed = ToolInput::from_yaml(&quoted.to_yaml()).expect("round trip should parse");
    assert_eq!(reparsed.template, "say \"hi\"\n");
    assert_eq!(reparsed.schema, Document::Int(-12));
}

#[test]
fn test_serialized_form_is_valid_yaml() {
    // The flow-style serialization is ordinary YAML: the YAML library reads
    // it and sees the same fields.
    let yaml = r#"
name: compat_check
title: Compat Check
description: Emitted text must stay valid YAML
input:
  template: "--a {{a}}"
  schema:
    type: object
output:
  template: "R: (?<r>.*)"
  schema:
    type: string
"#;
    let tool = ToolDefinition::from_yaml(yaml).expect("Should parse YAML");
    let serialized = tool.to_yaml();

    let value: serde_yaml_ng::Value =
        serde_yaml_ng::from_str(&serialized).expect("serialized form should be valid YAML");
    assert_eq!(value["name"], serde_yaml_ng::Value::from("compat_check"));
    assert_eq!(value["title"], serde_yaml_ng::Value::from("Compat Check"));
    assert_eq!(
        value["input"]["template"],
        serde_yaml_ng::Value::from("--a {{a}}")
    );
}

#[test]
fn test_opaque_schemas_keep_non_integer_numbers() {
    // Fractions, exponent forms and unsigned values above i64::MAX are
    // opaque schema content: they parse, are kept verbatim, and round trip.
    let yaml = r#"
name: numeric
description: schema with awkward numbers
input:
  template: "--v {{v}}"
  schema:
    type: number
    multipleOf: 0.5
    default: 1.5
    maximum: 9223372036854775808
output:
  template: "R: (?<r>.*)"
  schema:
    type: number
    minimum: -2.5e-3
"#;
    let tool = ToolDefinition::from_yaml(yaml).expect("Should parse YAML");
    assert_eq!(
        doc_get(&tool.input.schema, "multipleOf"),
        &Document::Number("0.5".to_string())
    );
    assert_eq!(
        doc_get(&tool.input.schema, "default"),
        &Document::Number("1.5".to_string())
    );
    assert_eq!(
        doc_get(&tool.input.schema, "maximum"),
        &Document::Number("9223372036854775808".to_string())
    );
    assert!(matches!(
        doc_get(&tool.output.schema, "minimum"),
        Document::Number(_)
    ));

    let serialized = tool.to_yaml();
    let reparsed = ToolDefinition::from_yaml(&serialized).expect("round trip should parse");
    assert_eq!(tool, reparsed);
}

#[test]
fn test_flow_scalars_follow_yaml_readings() {
    // Scalar spellings the flow subset does not read directly are left to
    // the YAML library, so they keep their YAML meanings.
    let yaml = "{name: t, title: ~, description: d, \
                input: {template: x, schema: {a: True, b: +1, c: 0x10, d: 007}}, \
                output: {template: y, schema: null}}";
    let tool = ToolDefinition::from_yaml(yaml).expect("Should parse YAML");
    assert_eq!(tool.title, None, "a tilde title is an absent title");
    assert_eq!(doc_get(&tool.input.schema, "a"), &Document::Bool(true));
    assert_eq!(doc_get(&tool.input.schema, "b"), &Document::Int(1));
    assert_eq!(doc_get(&tool.input.schema, "c"), &Document::Int(16));
    assert_eq!(doc_get(&tool.input.schema, "d"), &text("007"));

    let upper = "{name: t, title: NULL, description: d, \
                 input: {template: x, schema: FALSE}, \
                 output: {template: y, schema: null}}";
    let tool = ToolDefinition::from_yaml(upper).expect("Should parse YAML");
    assert_eq!(tool.title, None);
    assert_eq!(tool.input.schema, Document::Bool(false));
}

#[test]
fn test_number_exact_form() {
    let io = ToolInput {
        template: "x".to_string(),
        schema: Document::Number("2.5e300".to_string()),
    };
    assert_eq!(io.to_yaml(), "{template: x, schema: 2.5e300}");
    let reparsed = ToolInput::from_yaml(&io.to_yaml()).expect("round trip should parse");
    assert_eq!(reparsed.schema, Document::Number("2.5e300".to_string()));
}
