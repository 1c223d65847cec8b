//! The metadata model: the rich serving-oriented [`ToolDefinition`] shape,
//! its minimal protocol projection [`McpTool`], and the parsing and
//! serialization between those shapes and YAML text.
//!
//! A definition document carries `name`, optional `title`, `description`,
//! required `input` and `output` blocks (each a `template` string and an
//! opaque `schema`), and optional free-form `annotations`. The protocol
//! shape keeps only names, descriptions, schemas and annotations: the
//! templates are deliberately dropped.

use vstd::prelude::*;

verus! {

use crate::document::{
    DocView,
    Document,
    clone_pairs,
    doc_equal,
    doc_view,
    lookup,
    pairs_equal,
    pairs_view,
    spec_lookup,
};
use crate::yaml::{lemma_lookup_wf, spec_emit, spec_load_document, wf_doc, wf_pairs};

// ---------------------------------------------------------------------------
// Shapes
// ---------------------------------------------------------------------------

/// The input half of a tool's interface: how to build a command line from
/// structured arguments, and the schema those arguments must satisfy.
#[derive(Debug, Clone)]
pub struct ToolInput {
    /// Template rendering structured input into command-line arguments.
    pub template: String,
    /// Opaque schema for the input parameters.
    pub schema: Document,
}

/// The output half of a tool's interface: how to read structured results out
/// of the tool's output, and the schema those results follow.
#[derive(Debug, Clone)]
pub struct ToolOutput {
    /// Template with named captures for parsing the tool's output.
    pub template: String,
    /// Opaque schema for the output structure.
    pub schema: Document,
}

/// The mathematical shape of a [`ToolInput`] or [`ToolOutput`].
pub struct ToolIoView {
    pub template: Seq<char>,
    pub schema: DocView,
}

impl View for ToolInput {
    type V = ToolIoView;

    open spec fn view(&self) -> ToolIoView {
        ToolIoView { template: self.template@, schema: self.schema@ }
    }
}

impl View for ToolOutput {
    type V = ToolIoView;

    open spec fn view(&self) -> ToolIoView {
        ToolIoView { template: self.template@, schema: self.schema@ }
    }
}

impl PartialEq for ToolInput {
    fn eq(&self, other: &Self) -> bool {
        self.template == other.template && doc_equal(&self.schema, &other.schema)
    }
}

impl vstd::std_specs::cmp::PartialEqSpecImpl for ToolInput {
    open spec fn obeys_eq_spec() -> bool {
        true
    }

    open spec fn eq_spec(&self, other: &Self) -> bool {
        self@ == other@
    }
}

impl PartialEq for ToolOutput {
    fn eq(&self, other: &Self) -> bool {
        self.template == other.template && doc_equal(&self.schema, &other.schema)
    }
}

impl vstd::std_specs::cmp::PartialEqSpecImpl for ToolOutput {
    open spec fn obeys_eq_spec() -> bool {
        true
    }

    open spec fn eq_spec(&self, other: &Self) -> bool {
        self@ == other@
    }
}

/// The rich, serving-oriented description of one tool.
#[derive(Debug, Clone)]
pub struct ToolDefinition {
    /// Unique identifier for the tool.
    pub name: String,
    /// Optional human-readable display name.
    pub title: Option<String>,
    /// Human-readable description of the tool's functionality.
    pub description: String,
    /// Input specification, required.
    pub input: ToolInput,
    /// Output specification, required.
    pub output: ToolOutput,
    /// Optional free-form metadata annotations, in document order.
    pub annotations: Option<Vec<(String, Document)>>,
}

/// The mathematical shape of a [`ToolDefinition`].
pub struct ToolDefinitionView {
    pub name: Seq<char>,
    pub title: Option<Seq<char>>,
    pub description: Seq<char>,
    pub input: ToolIoView,
    pub output: ToolIoView,
    pub annotations: Option<Seq<(Seq<char>, DocView)>>,
}

impl View for ToolDefinition {
    type V = ToolDefinitionView;

    open spec fn view(&self) -> ToolDefinitionView {
        ToolDefinitionView {
            name: self.name@,
            title: match self.title {
                Some(t) => Some(t@),
                None => None,
            },
            description: self.description@,
            input: self.input@,
            output: self.output@,
            annotations: match self.annotations {
                Some(ps) => Some(pairs_view(ps@)),
                None => None,
            },
        }
    }
}

fn option_string_eq(a: &Option<String>, b: &Option<String>) -> (r: bool)
    ensures
        r == ((match a {
            Some(x) => Some(x@),
            None => None::<Seq<char>>,
        }) == (match b {
            Some(y) => Some(y@),
            None => None::<Seq<char>>,
        })),
{
    match (a, b) {
        (Some(x), Some(y)) => *x == *y,
        (None, None) => true,
        _ => false,
    }
}

fn option_pairs_eq(a: &Option<Vec<(String, Document)>>, b: &Option<Vec<(String, Document)>>) -> (r:
    bool)
    ensures
        r == ((match a {
            Some(x) => Some(pairs_view(x@)),
            None => None::<Seq<(Seq<char>, DocView)>>,
        }) == (match b {
            Some(y) => Some(pairs_view(y@)),
            None => None::<Seq<(Seq<char>, DocView)>>,
        })),
{
    match (a, b) {
        (Some(x), Some(y)) => pairs_equal(x, y),
        (None, None) => true,
        _ => false,
    }
}

impl PartialEq for ToolDefinition {
    fn eq(&self, other: &Self) -> bool {
        self.name == other.name && option_string_eq(&self.title, &other.title) && self.description
            == other.description && self.input == other.input && self.output == other.output
            && option_pairs_eq(&self.annotations, &other.annotations)
    }
}

impl vstd::std_specs::cmp::PartialEqSpecImpl for ToolDefinition {
    open spec fn obeys_eq_spec() -> bool {
        true
    }

    open spec fn eq_spec(&self, other: &Self) -> bool {
        self@ == other@
    }
}

/// The minimal, protocol-pure projection of a tool definition.
#[derive(Debug, Clone)]
pub struct McpTool {
    /// Unique identifier for the tool.
    pub name: String,
    /// Optional human-readable display name.
    pub title: Option<String>,
    /// Human-readable description of the tool's functionality.
    pub description: String,
    /// Opaque schema for the input parameters.
    pub input_schema: Document,
    /// Optional opaque schema for the output structure.
    pub output_schema: Option<Document>,
    /// Optional free-form metadata annotations, in document order.
    pub annotations: Option<Vec<(String, Document)>>,
}

/// The mathematical shape of an [`McpTool`].
pub struct McpToolView {
    pub name: Seq<char>,
    pub title: Option<Seq<char>>,
    pub description: Seq<char>,
    pub input_schema: DocView,
    pub output_schema: Option<DocView>,
    pub annotations: Option<Seq<(Seq<char>, DocView)>>,
}

impl View for McpTool {
    type V = McpToolView;

    open spec fn view(&self) -> McpToolView {
        McpToolView {
            name: self.name@,
            title: match self.title {
                Some(t) => Some(t@),
                None => None,
            },
            description: self.description@,
            input_schema: self.input_schema@,
            output_schema: match self.output_schema {
                Some(d) => Some(d@),
                None => None,
            },
            annotations: match self.annotations {
                Some(ps) => Some(pairs_view(ps@)),
                None => None,
            },
        }
    }
}

impl PartialEq for McpTool {
    fn eq(&self, other: &Self) -> bool {
        let schemas = match (&self.output_schema, &other.output_schema) {
            (Some(x), Some(y)) => doc_equal(x, y),
            (None, None) => true,
            _ => false,
        };
        self.name == other.name && option_string_eq(&self.title, &other.title) && self.description
            == other.description && doc_equal(&self.input_schema, &other.input_schema) && schemas
            && option_pairs_eq(&self.annotations, &other.annotations)
    }
}

impl vstd::std_specs::cmp::PartialEqSpecImpl for McpTool {
    open spec fn obeys_eq_spec() -> bool {
        true
    }

    open spec fn eq_spec(&self, other: &Self) -> bool {
        self@ == other@
    }
}

// ---------------------------------------------------------------------------
// Parse errors
// ---------------------------------------------------------------------------

/// Why a document could not be read as a tool description.
#[derive(Debug, Clone)]
pub enum ParseError {
    /// The text is not a document the parser accepts; carries a description.
    Syntax { message: String },
    /// A required field is absent.
    MissingField { field: String },
    /// A field (or the document itself) does not have the required shape.
    WrongShape { field: String },
}

/// The mathematical shape of a [`ParseError`].
pub enum ParseErrorView {
    Syntax(Seq<char>),
    MissingField(Seq<char>),
    WrongShape(Seq<char>),
}

impl View for ParseError {
    type V = ParseErrorView;

    open spec fn view(&self) -> ParseErrorView {
        match self {
            ParseError::Syntax { message } => ParseErrorView::Syntax(message@),
            ParseError::MissingField { field } => ParseErrorView::MissingField(field@),
            ParseError::WrongShape { field } => ParseErrorView::WrongShape(field@),
        }
    }
}

impl ParseError {
    /// A human-readable description of the error; never empty.
    pub fn message(&self) -> (r: String)
        ensures
            r@ == match self@ {
                ParseErrorView::Syntax(m) => "invalid document: "@ + m,
                ParseErrorView::MissingField(f) => "missing required field: "@ + f,
                ParseErrorView::WrongShape(f) => "field has the wrong shape: "@ + f,
            },
            r@.len() > 0,
    {
        match self {
            ParseError::Syntax { message } => {
                let r = String::from_str("invalid document: ").concat(message.as_str());
                proof {
                    reveal_strlit("invalid document: ");
                }
                r
            },
            ParseError::MissingField { field } => {
                let r = String::from_str("missing required field: ").concat(field.as_str());
                proof {
                    reveal_strlit("missing required field: ");
                }
                r
            },
            ParseError::WrongShape { field } => {
                let r = String::from_str("field has the wrong shape: ").concat(field.as_str());
                proof {
                    reveal_strlit("field has the wrong shape: ");
                }
                r
            },
        }
    }
}

// ---------------------------------------------------------------------------
// Validation: document shape to definition shape
// ---------------------------------------------------------------------------

/// Check one `input`/`output` block: a mapping holding a text `template`
/// and a `schema` of any shape.
pub open spec fn spec_validate_io(
    v: DocView,
    block_field: Seq<char>,
    template_field: Seq<char>,
    schema_field: Seq<char>,
) -> Result<ToolIoView, ParseErrorView> {
    match v {
        DocView::Object(pairs) => match spec_lookup(pairs, "template"@) {
            Some(tv) => match tv {
                DocView::Text(template) => match spec_lookup(pairs, "schema"@) {
                    Some(schema) => Ok(ToolIoView { template, schema }),
                    None => Err(ParseErrorView::MissingField(schema_field)),
                },
                _ => Err(ParseErrorView::WrongShape(template_field)),
            },
            None => Err(ParseErrorView::MissingField(template_field)),
        },
        _ => Err(ParseErrorView::WrongShape(block_field)),
    }
}

/// Check a whole definition document: a mapping with a text `name`, an
/// optional text `title`, a text `description`, mandatory `input` and
/// `output` blocks, and optional mapping `annotations`. Fields the shape
/// does not know are ignored.
pub open spec fn spec_validate(doc: DocView) -> Result<ToolDefinitionView, ParseErrorView> {
    match doc {
        DocView::Object(pairs) => match spec_lookup(pairs, "name"@) {
            None => Err(ParseErrorView::MissingField("name"@)),
            Some(nv) => match nv {
                DocView::Text(name) => {
                    let title = spec_lookup(pairs, "title"@);
                    if !(title is None || title matches Some(DocView::Null) || title matches Some(
                        DocView::Text(_),
                    )) {
                        Err(ParseErrorView::WrongShape("title"@))
                    } else {
                        match spec_lookup(pairs, "description"@) {
                            None => Err(ParseErrorView::MissingField("description"@)),
                            Some(dv) => match dv {
                                DocView::Text(description) => match spec_lookup(
                                    pairs,
                                    "input"@,
                                ) {
                                    None => Err(ParseErrorView::MissingField("input"@)),
                                    Some(iv) => match spec_validate_io(
                                        iv,
                                        "input"@,
                                        "input.template"@,
                                        "input.schema"@,
                                    ) {
                                        Err(e) => Err(e),
                                        Ok(input) => match spec_lookup(pairs, "output"@) {
                                            None => Err(
                                                ParseErrorView::MissingField("output"@),
                                            ),
                                            Some(ov) => match spec_validate_io(
                                                ov,
                                                "output"@,
                                                "output.template"@,
                                                "output.schema"@,
                                            ) {
                                                Err(e) => Err(e),
                                                Ok(output) => match spec_lookup(
                                                    pairs,
                                                    "annotations"@,
                                                ) {
                                                    None => Ok(
                                                        ToolDefinitionView {
                                                            name,
                                                            title: match title {
                                                                Some(DocView::Text(t)) => Some(
                                                                    t,
                                                                ),
                                                                _ => None,
                                                            },
                                                            description,
                                                            input,
                                                            output,
                                                            annotations: None,
                                                        },
                                                    ),
                                                    Some(av) => match av {
                                                        DocView::Null => Ok(
                                                            ToolDefinitionView {
                                                                name,
                                                                title: match title {
                                                                    Some(DocView::Text(t))
                                                                        => Some(t),
                                                                    _ => None,
                                                                },
                                                                description,
                                                                input,
                                                                output,
                                                                annotations: None,
                                                            },
                                                        ),
                                                        DocView::Object(aps) => Ok(
                                                            ToolDefinitionView {
                                                                name,
                                                                title: match title {
                                                                    Some(DocView::Text(t))
                                                                        => Some(t),
                                                                    _ => None,
                                                                },
                                                                description,
                                                                input,
                                                                output,
                                                                annotations: Some(aps),
                                                            },
                                                        ),
                                                        _ => Err(
                                                            ParseErrorView::WrongShape(
                                                                "annotations"@,
                                                            ),
                                                        ),
                                                    },
                                                },
                                            },
                                        },
                                    },
                                },
                                _ => Err(ParseErrorView::WrongShape("description"@)),
                            },
                        }
                    }
                },
                _ => Err(ParseErrorView::WrongShape("name"@)),
            },
        },
        _ => Err(ParseErrorView::WrongShape("document"@)),
    }
}

/// Check one `input`/`output` block of a loaded document.
fn validate_io(v: &Document, block_field: &str, template_field: &str, schema_field: &str) -> (r:
    Result<(String, Document), ParseError>)
    ensures
        match r {
            Ok(io) => spec_validate_io(v@, block_field@, template_field@, schema_field@)
                == Ok::<ToolIoView, ParseErrorView>(ToolIoView { template: io.0@, schema: io.1@ }),
            Err(e) => spec_validate_io(v@, block_field@, template_field@, schema_field@)
                == Err::<ToolIoView, ParseErrorView>(e@),
        },
{
    match v {
        Document::Object(pairs) => match lookup(pairs, "template") {
            Some(Document::Text(template)) => match lookup(pairs, "schema") {
                Some(schema) => Ok((template.clone(), schema.clone())),
                None => Err(
                    ParseError::MissingField { field: String::from_str(schema_field) },
                ),
            },
            Some(_) => Err(ParseError::WrongShape { field: String::from_str(template_field) }),
            None => Err(ParseError::MissingField { field: String::from_str(template_field) }),
        },
        _ => Err(ParseError::WrongShape { field: String::from_str(block_field) }),
    }
}

/// Check a loaded document as a whole definition.
fn validate_definition(doc: &Document) -> (r: Result<ToolDefinition, ParseError>)
    ensures
        match r {
            Ok(td) => spec_validate(doc@) == Ok::<ToolDefinitionView, ParseErrorView>(td@),
            Err(e) => spec_validate(doc@) == Err::<ToolDefinitionView, ParseErrorView>(e@),
        },
{
    let pairs = match doc {
        Document::Object(pairs) => pairs,
        _ => {
            return Err(ParseError::WrongShape { field: String::from_str("document") });
        },
    };
    let name = match lookup(pairs, "name") {
        None => {
            return Err(ParseError::MissingField { field: String::from_str("name") });
        },
        Some(Document::Text(s)) => s.clone(),
        Some(_) => {
            return Err(ParseError::WrongShape { field: String::from_str("name") });
        },
    };
    let title = match lookup(pairs, "title") {
        None => None,
        Some(Document::Null) => None,
        Some(Document::Text(s)) => Some(s.clone()),
        Some(_) => {
            return Err(ParseError::WrongShape { field: String::from_str("title") });
        },
    };
    let description = match lookup(pairs, "description") {
        None => {
            return Err(ParseError::MissingField { field: String::from_str("description") });
        },
        Some(Document::Text(s)) => s.clone(),
        Some(_) => {
            return Err(ParseError::WrongShape { field: String::from_str("description") });
        },
    };
    let input = match lookup(pairs, "input") {
        None => {
            return Err(ParseError::MissingField { field: String::from_str("input") });
        },
        Some(iv) => match validate_io(iv, "input", "input.template", "input.schema") {
            Ok(io) => ToolInput { template: io.0, schema: io.1 },
            Err(e) => {
                return Err(e);
            },
        },
    };
    let output = match lookup(pairs, "output") {
        None => {
            return Err(ParseError::MissingField { field: String::from_str("output") });
        },
        Some(ov) => match validate_io(ov, "output", "output.template", "output.schema") {
            Ok(io) => ToolOutput { template: io.0, schema: io.1 },
            Err(e) => {
                return Err(e);
            },
        },
    };
    let annotations = match lookup(pairs, "annotations") {
        None => None,
        Some(Document::Null) => None,
        Some(Document::Object(aps)) => Some(clone_pairs(aps)),
        Some(_) => {
            return Err(ParseError::WrongShape { field: String::from_str("annotations") });
        },
    };
    Ok(ToolDefinition { name, title, description, input, output, annotations })
}

// ---------------------------------------------------------------------------
// Serialization: definition shape to document shape
// ---------------------------------------------------------------------------

/// The document a definition serializes to: one mapping carrying every
/// field, with `null` for an absent title or absent annotations.
pub open spec fn spec_def_doc(d: ToolDefinitionView) -> DocView {
    DocView::Object(
        seq![
            ("name"@, DocView::Text(d.name)),
            (
                "title"@,
                match d.title {
                    Some(t) => DocView::Text(t),
                    None => DocView::Null,
                },
            ),
            ("description"@, DocView::Text(d.description)),
            (
                "input"@,
                DocView::Object(
                    seq![
                        ("template"@, DocView::Text(d.input.template)),
                        ("schema"@, d.input.schema),
                    ],
                ),
            ),
            (
                "output"@,
                DocView::Object(
                    seq![
                        ("template"@, DocView::Text(d.output.template)),
                        ("schema"@, d.output.schema),
                    ],
                ),
            ),
            (
                "annotations"@,
                match d.annotations {
                    Some(ps) => DocView::Object(ps),
                    None => DocView::Null,
                },
            ),
        ],
    )
}

/// The document a protocol tool serializes to.
pub open spec fn spec_mcp_doc(m: McpToolView) -> DocView {
    DocView::Object(
        seq![
            ("name"@, DocView::Text(m.name)),
            (
                "title"@,
                match m.title {
                    Some(t) => DocView::Text(t),
                    None => DocView::Null,
                },
            ),
            ("description"@, DocView::Text(m.description)),
            ("input_schema"@, m.input_schema),
            (
                "output_schema"@,
                match m.output_schema {
                    Some(v) => v,
                    None => DocView::Null,
                },
            ),
            (
                "annotations"@,
                match m.annotations {
                    Some(ps) => DocView::Object(ps),
                    None => DocView::Null,
                },
            ),
        ],
    )
}

/// The protocol projection of a definition: templates are dropped, schemas
/// and descriptive fields are kept.
pub open spec fn spec_to_mcp(d: ToolDefinitionView) -> McpToolView {
    McpToolView {
        name: d.name,
        title: d.title,
        description: d.description,
        input_schema: d.input.schema,
        output_schema: Some(d.output.schema),
        annotations: d.annotations,
    }
}

impl ToolDefinition {
    /// Serialize this definition into its document shape.
    pub fn to_document(&self) -> (r: Document)
        ensures
            r@ == spec_def_doc(self@),
    {
        broadcast use crate::document::group_document_views;

        let mut input_pairs: Vec<(String, Document)> = Vec::new();
        input_pairs.push(
            (String::from_str("template"), Document::Text(self.input.template.clone())),
        );
        input_pairs.push((String::from_str("schema"), self.input.schema.clone()));
        let ghost ipv = pairs_view(input_pairs@);
        let mut output_pairs: Vec<(String, Document)> = Vec::new();
        output_pairs.push(
            (String::from_str("template"), Document::Text(self.output.template.clone())),
        );
        output_pairs.push((String::from_str("schema"), self.output.schema.clone()));
        let ghost opv = pairs_view(output_pairs@);
        let title_doc = match &self.title {
            Some(t) => Document::Text(t.clone()),
            None => Document::Null,
        };
        let annotations_doc = match &self.annotations {
            Some(ps) => Document::Object(clone_pairs(ps)),
            None => Document::Null,
        };
        let mut pairs: Vec<(String, Document)> = Vec::new();
        pairs.push((String::from_str("name"), Document::Text(self.name.clone())));
        pairs.push((String::from_str("title"), title_doc));
        pairs.push((String::from_str("description"), Document::Text(self.description.clone())));
        pairs.push((String::from_str("input"), Document::Object(input_pairs)));
        pairs.push((String::from_str("output"), Document::Object(output_pairs)));
        pairs.push((String::from_str("annotations"), annotations_doc));
        let r = Document::Object(pairs);
        proof {
            assert(ipv =~= spec_def_doc(self@)->Object_0[3].1->Object_0) by {
                assert(ipv[0] == ("template"@, DocView::Text(self.input.template@)));
                assert(ipv[1] == ("schema"@, doc_view(self.input.schema)));
            }
            assert(opv =~= spec_def_doc(self@)->Object_0[4].1->Object_0) by {
                assert(opv[0] == ("template"@, DocView::Text(self.output.template@)));
                assert(opv[1] == ("schema"@, doc_view(self.output.schema)));
            }
            assert(pairs_view(pairs@) =~= spec_def_doc(self@)->Object_0) by {
                assert(pairs_view(pairs@)[0] == ("name"@, doc_view(pairs@[0].1)));
                assert(pairs_view(pairs@)[1] == ("title"@, doc_view(pairs@[1].1)));
                assert(pairs_view(pairs@)[2] == ("description"@, doc_view(pairs@[2].1)));
                assert(pairs_view(pairs@)[3] == ("input"@, doc_view(pairs@[3].1)));
                assert(pairs_view(pairs@)[4] == ("output"@, doc_view(pairs@[4].1)));
                assert(pairs_view(pairs@)[5] == ("annotations"@, doc_view(pairs@[5].1)));
            }
        }
        r
    }

    /// Serialize this definition as one line of flow-style YAML.
    pub fn to_yaml(&self) -> (r: String)
        ensures
            r@ == spec_emit(spec_def_doc(self@)),
    {
        let doc = self.to_document();
        crate::yaml::document_to_yaml(&doc)
    }

    /// Parse a tool definition from a YAML document.
    ///
    /// The document must be a mapping carrying a text `name`, a text
    /// `description`, and `input` and `output` blocks each holding a text
    /// `template` and a `schema`; `title` and `annotations` are optional.
    /// Anything else is a [`ParseError`] saying what was missing or
    /// malformed.
    pub fn from_yaml(yaml: &str) -> (r: Result<Self, ParseError>)
        ensures
            match spec_load_document(yaml@) {
                Some(doc) => match spec_validate(doc) {
                    Ok(v) => r matches Ok(td) && td@ == v,
                    Err(e) => r matches Err(pe) && pe@ == e,
                },
                None => r matches Err(pe) && pe@ is Syntax,
            },
    {
        match crate::yaml::load_document(yaml) {
            Ok(doc) => validate_definition(&doc),
            Err(message) => Err(ParseError::Syntax { message }),
        }
    }

    /// Project this definition to its protocol shape, dropping the
    /// templates.
    pub fn to_mcp_tool(&self) -> (r: McpTool)
        ensures
            r@ == spec_to_mcp(self@),
    {
        McpTool {
            name: self.name.clone(),
            title: match &self.title {
                Some(t) => Some(t.clone()),
                None => None,
            },
            description: self.description.clone(),
            input_schema: self.input.schema.clone(),
            output_schema: Some(self.output.schema.clone()),
            annotations: match &self.annotations {
                Some(ps) => Some(clone_pairs(ps)),
                None => None,
            },
        }
    }
}

/// The document an `input`/`output` block serializes to.
pub open spec fn spec_io_doc(v: ToolIoView) -> DocView {
    DocView::Object(
        seq![("template"@, DocView::Text(v.template)), ("schema"@, v.schema)],
    )
}

fn io_to_document(template: &String, schema: &Document) -> (r: Document)
    ensures
        r@ == spec_io_doc(ToolIoView { template: template@, schema: schema@ }),
{
    broadcast use crate::document::group_document_views;

    let mut pairs: Vec<(String, Document)> = Vec::new();
    pairs.push((String::from_str("template"), Document::Text(template.clone())));
    pairs.push((String::from_str("schema"), schema.clone()));
    let r = Document::Object(pairs);
    proof {
        assert(pairs_view(pairs@) =~= spec_io_doc(
            ToolIoView { template: template@, schema: schema@ },
        )->Object_0) by {
            assert(pairs_view(pairs@)[0] == ("template"@, doc_view(pairs@[0].1)));
            assert(pairs_view(pairs@)[1] == ("schema"@, doc_view(pairs@[1].1)));
        }
    }
    r
}

impl ToolInput {
    /// Serialize this block as one line of flow-style YAML.
    pub fn to_yaml(&self) -> (r: String)
        ensures
            r@ == spec_emit(spec_io_doc(self@)),
    {
        let doc = io_to_document(&self.template, &self.schema);
        crate::yaml::document_to_yaml(&doc)
    }

    /// Parse an input block from a YAML document: a mapping holding a text
    /// `template` and a `schema` of any shape.
    pub fn from_yaml(yaml: &str) -> (r: Result<Self, ParseError>)
        ensures
            match spec_load_document(yaml@) {
                Some(doc) => match spec_validate_io(doc, "document"@, "template"@, "schema"@) {
                    Ok(v) => r matches Ok(io) && io@ == v,
                    Err(e) => r matches Err(pe) && pe@ == e,
                },
                None => r matches Err(pe) && pe@ is Syntax,
            },
    {
        match crate::yaml::load_document(yaml) {
            Ok(doc) => match validate_io(&doc, "document", "template", "schema") {
                Ok(io) => Ok(ToolInput { template: io.0, schema: io.1 }),
                Err(e) => Err(e),
            },
            Err(message) => Err(ParseError::Syntax { message }),
        }
    }
}

impl ToolOutput {
    /// Serialize this block as one line of flow-style YAML.
    pub fn to_yaml(&self) -> (r: String)
        ensures
            r@ == spec_emit(spec_io_doc(self@)),
    {
        let doc = io_to_document(&self.template, &self.schema);
        crate::yaml::document_to_yaml(&doc)
    }

    /// Parse an output block from a YAML document: a mapping holding a text
    /// `template` and a `schema` of any shape.
    pub fn from_yaml(yaml: &str) -> (r: Result<Self, ParseError>)
        ensures
            match spec_load_document(yaml@) {
                Some(doc) => match spec_validate_io(doc, "document"@, "template"@, "schema"@) {
                    Ok(v) => r matches Ok(io) && io@ == v,
                    Err(e) => r matches Err(pe) && pe@ == e,
                },
                None => r matches Err(pe) && pe@ is Syntax,
            },
    {
        match crate::yaml::load_document(yaml) {
            Ok(doc) => match validate_io(&doc, "document", "template", "schema") {
                Ok(io) => Ok(ToolOutput { template: io.0, schema: io.1 }),
                Err(e) => Err(e),
            },
            Err(message) => Err(ParseError::Syntax { message }),
        }
    }
}

// ---------------------------------------------------------------------------
// The protocol shape's own document form
// ---------------------------------------------------------------------------

/// Check a loaded document as a protocol tool: a mapping with a text
/// `name`, an optional text `title`, a text `description`, a mandatory
/// `input_schema` of any shape, an optional `output_schema`, and optional
/// mapping `annotations`.
pub open spec fn spec_validate_mcp(doc: DocView) -> Result<McpToolView, ParseErrorView> {
    match doc {
        DocView::Object(pairs) => match spec_lookup(pairs, "name"@) {
            None => Err(ParseErrorView::MissingField("name"@)),
            Some(nv) => match nv {
                DocView::Text(name) => {
                    let title = spec_lookup(pairs, "title"@);
                    if !(title is None || title matches Some(DocView::Null) || title matches Some(
                        DocView::Text(_),
                    )) {
                        Err(ParseErrorView::WrongShape("title"@))
                    } else {
                        match spec_lookup(pairs, "description"@) {
                            None => Err(ParseErrorView::MissingField("description"@)),
                            Some(dv) => match dv {
                                DocView::Text(description) => match spec_lookup(
                                    pairs,
                                    "input_schema"@,
                                ) {
                                    None => Err(ParseErrorView::MissingField("input_schema"@)),
                                    Some(input_schema) => {
                                        let os = spec_lookup(pairs, "output_schema"@);
                                        match spec_lookup(pairs, "annotations"@) {
                                            None => Ok(
                                                McpToolView {
                                                    name,
                                                    title: match title {
                                                        Some(DocView::Text(t)) => Some(t),
                                                        _ => None,
                                                    },
                                                    description,
                                                    input_schema,
                                                    output_schema: match os {
                                                        Some(DocView::Null) => None,
                                                        Some(v) => Some(v),
                                                        None => None,
                                                    },
                                                    annotations: None,
                                                },
                                            ),
                                            Some(av) => match av {
                                                DocView::Null => Ok(
                                                    McpToolView {
                                                        name,
                                                        title: match title {
                                                            Some(DocView::Text(t)) => Some(t),
                                                            _ => None,
                                                        },
                                                        description,
                                                        input_schema,
                                                        output_schema: match os {
                                                            Some(DocView::Null) => None,
                                                            Some(v) => Some(v),
                                                            None => None,
                                                        },
                                                        annotations: None,
                                                    },
                                                ),
                                                DocView::Object(aps) => Ok(
                                                    McpToolView {
                                                        name,
                                                        title: match title {
                                                            Some(DocView::Text(t)) => Some(t),
                                                            _ => None,
                                                        },
                                                        description,
                                                        input_schema,
                                                        output_schema: match os {
                                                            Some(DocView::Null) => None,
                                                            Some(v) => Some(v),
                                                            None => None,
                                                        },
                                                        annotations: Some(aps),
                                                    },
                                                ),
                                                _ => Err(
                                                    ParseErrorView::WrongShape("annotations"@),
                                                ),
                                            },
                                        }
                                    },
                                },
                                _ => Err(ParseErrorView::WrongShape("description"@)),
                            },
                        }
                    }
                },
                _ => Err(ParseErrorView::WrongShape("name"@)),
            },
        },
        _ => Err(ParseErrorView::WrongShape("document"@)),
    }
}

fn validate_mcp(doc: &Document) -> (r: Result<McpTool, ParseError>)
    ensures
        match r {
            Ok(m) => spec_validate_mcp(doc@) == Ok::<McpToolView, ParseErrorView>(m@),
            Err(e) => spec_validate_mcp(doc@) == Err::<McpToolView, ParseErrorView>(e@),
        },
{
    let pairs = match doc {
        Document::Object(pairs) => pairs,
        _ => {
            return Err(ParseError::WrongShape { field: String::from_str("document") });
        },
    };
    let name = match lookup(pairs, "name") {
        None => {
            return Err(ParseError::MissingField { field: String::from_str("name") });
        },
        Some(Document::Text(s)) => s.clone(),
        Some(_) => {
            return Err(ParseError::WrongShape { field: String::from_str("name") });
        },
    };
    let title = match lookup(pairs, "title") {
        None => None,
        Some(Document::Null) => None,
        Some(Document::Text(s)) => Some(s.clone()),
        Some(_) => {
            return Err(ParseError::WrongShape { field: String::from_str("title") });
        },
    };
    let description = match lookup(pairs, "description") {
        None => {
            return Err(ParseError::MissingField { field: String::from_str("description") });
        },
        Some(Document::Text(s)) => s.clone(),
        Some(_) => {
            return Err(ParseError::WrongShape { field: String::from_str("description") });
        },
    };
    let input_schema = match lookup(pairs, "input_schema") {
        None => {
            return Err(ParseError::MissingField { field: String::from_str("input_schema") });
        },
        Some(v) => v.clone(),
    };
    let output_schema = match lookup(pairs, "output_schema") {
        None => None,
        Some(Document::Null) => None,
        Some(v) => Some(v.clone()),
    };
    let annotations = match lookup(pairs, "annotations") {
        None => None,
        Some(Document::Null) => None,
        Some(Document::Object(aps)) => Some(clone_pairs(aps)),
        Some(_) => {
            return Err(ParseError::WrongShape { field: String::from_str("annotations") });
        },
    };
    Ok(McpTool { name, title, description, input_schema, output_schema, annotations })
}

impl McpTool {
    /// Serialize this protocol tool into its document shape.
    pub fn to_document(&self) -> (r: Document)
        ensures
            r@ == spec_mcp_doc(self@),
    {
        broadcast use crate::document::group_document_views;

        let title_doc = match &self.title {
            Some(t) => Document::Text(t.clone()),
            None => Document::Null,
        };
        let output_doc = match &self.output_schema {
            Some(v) => v.clone(),
            None => Document::Null,
        };
        let annotations_doc = match &self.annotations {
            Some(ps) => Document::Object(clone_pairs(ps)),
            None => Document::Null,
        };
        let mut pairs: Vec<(String, Document)> = Vec::new();
        pairs.push((String::from_str("name"), Document::Text(self.name.clone())));
        pairs.push((String::from_str("title"), title_doc));
        pairs.push((String::from_str("description"), Document::Text(self.description.clone())));
        pairs.push((String::from_str("input_schema"), self.input_schema.clone()));
        pairs.push((String::from_str("output_schema"), output_doc));
        pairs.push((String::from_str("annotations"), annotations_doc));
        let r = Document::Object(pairs);
        proof {
            assert(pairs_view(pairs@) =~= spec_mcp_doc(self@)->Object_0) by {
                assert(pairs_view(pairs@)[0] == ("name"@, doc_view(pairs@[0].1)));
                assert(pairs_view(pairs@)[1] == ("title"@, doc_view(pairs@[1].1)));
                assert(pairs_view(pairs@)[2] == ("description"@, doc_view(pairs@[2].1)));
                assert(pairs_view(pairs@)[3] == ("input_schema"@, doc_view(pairs@[3].1)));
                assert(pairs_view(pairs@)[4] == ("output_schema"@, doc_view(pairs@[4].1)));
                assert(pairs_view(pairs@)[5] == ("annotations"@, doc_view(pairs@[5].1)));
            }
        }
        r
    }

    /// Serialize this protocol tool as one line of flow-style YAML. The
    /// rendering never carries a template.
    pub fn to_yaml(&self) -> (r: String)
        ensures
            r@ == spec_emit(spec_mcp_doc(self@)),
    {
        let doc = self.to_document();
        crate::yaml::document_to_yaml(&doc)
    }

    /// Parse a protocol tool from a YAML document.
    pub fn from_yaml(yaml: &str) -> (r: Result<Self, ParseError>)
        ensures
            match spec_load_document(yaml@) {
                Some(doc) => match spec_validate_mcp(doc) {
                    Ok(v) => r matches Ok(m) && m@ == v,
                    Err(e) => r matches Err(pe) && pe@ == e,
                },
                None => r matches Err(pe) && pe@ is Syntax,
            },
    {
        match crate::yaml::load_document(yaml) {
            Ok(doc) => validate_mcp(&doc),
            Err(message) => Err(ParseError::Syntax { message }),
        }
    }
}

// ---------------------------------------------------------------------------
// Laws
// ---------------------------------------------------------------------------

/// Whether a definition shape is representable and serializable: its
/// schemas and annotation values are well formed. Every definition obtained
/// by parsing is (`crate::yaml::lemma_load_wf` with [`lemma_validate_wf`]);
/// only a hand-built verbatim numeric scalar can break it.
pub open spec fn wf_def(d: ToolDefinitionView) -> bool {
    &&& wf_doc(d.input.schema)
    &&& wf_doc(d.output.schema)
    &&& match d.annotations {
        Some(ps) => wf_pairs(ps),
        None => true,
    }
}

/// Validating a well-formed document yields a well-formed definition, so
/// every definition parsed from text satisfies [`wf_def`].
pub proof fn lemma_validate_wf(doc: DocView)
    requires
        wf_doc(doc),
    ensures
        spec_validate(doc) matches Ok(v) ==> wf_def(v),
{
    match doc {
        DocView::Object(pairs) => {
            match spec_lookup(pairs, "input"@) {
                Some(iv) => {
                    lemma_lookup_wf(pairs, "input"@);
                    match iv {
                        DocView::Object(ipairs) => {
                            lemma_lookup_wf(ipairs, "schema"@);
                        },
                        _ => {},
                    }
                },
                None => {},
            }
            match spec_lookup(pairs, "output"@) {
                Some(ov) => {
                    lemma_lookup_wf(pairs, "output"@);
                    match ov {
                        DocView::Object(opairs) => {
                            lemma_lookup_wf(opairs, "schema"@);
                        },
                        _ => {},
                    }
                },
                None => {},
            }
            match spec_lookup(pairs, "annotations"@) {
                Some(av) => {
                    lemma_lookup_wf(pairs, "annotations"@);
                },
                None => {},
            }
        },
        _ => {},
    }
}

proof fn lemma_wf_pairs_snoc(s: Seq<(Seq<char>, DocView)>, x: (Seq<char>, DocView))
    requires
        wf_pairs(s),
        wf_doc(x.1),
    ensures
        wf_pairs(s.push(x)),
{
    assert(s.push(x).drop_last() =~= s);
    assert(s.push(x).last() == x);
}

proof fn lemma_def_doc_wf(d: ToolDefinitionView)
    requires
        wf_def(d),
    ensures
        wf_doc(spec_def_doc(d)),
{
    let p = spec_def_doc(d)->Object_0;
    let ip = p[3].1->Object_0;
    let op = p[4].1->Object_0;
    assert(wf_pairs(ip)) by {
        assert(wf_pairs(Seq::<(Seq<char>, DocView)>::empty()));
        lemma_wf_pairs_snoc(Seq::<(Seq<char>, DocView)>::empty(), ip[0]);
        assert(Seq::<(Seq<char>, DocView)>::empty().push(ip[0]) =~= ip.subrange(0, 1));
        lemma_wf_pairs_snoc(ip.subrange(0, 1), ip[1]);
        assert(ip.subrange(0, 1).push(ip[1]) =~= ip);
    }
    assert(wf_pairs(op)) by {
        assert(wf_pairs(Seq::<(Seq<char>, DocView)>::empty()));
        lemma_wf_pairs_snoc(Seq::<(Seq<char>, DocView)>::empty(), op[0]);
        assert(Seq::<(Seq<char>, DocView)>::empty().push(op[0]) =~= op.subrange(0, 1));
        lemma_wf_pairs_snoc(op.subrange(0, 1), op[1]);
        assert(op.subrange(0, 1).push(op[1]) =~= op);
    }
    assert(wf_doc(p[0].1));
    assert(wf_doc(p[1].1));
    assert(wf_doc(p[2].1));
    assert(wf_doc(p[3].1));
    assert(wf_doc(p[4].1));
    assert(wf_doc(p[5].1));
    assert(wf_pairs(p)) by {
        assert(wf_pairs(Seq::<(Seq<char>, DocView)>::empty()));
        lemma_wf_pairs_snoc(Seq::<(Seq<char>, DocView)>::empty(), p[0]);
        assert(Seq::<(Seq<char>, DocView)>::empty().push(p[0]) =~= p.subrange(0, 1));
        lemma_wf_pairs_snoc(p.subrange(0, 1), p[1]);
        assert(p.subrange(0, 1).push(p[1]) =~= p.subrange(0, 2));
        lemma_wf_pairs_snoc(p.subrange(0, 2), p[2]);
        assert(p.subrange(0, 2).push(p[2]) =~= p.subrange(0, 3));
        lemma_wf_pairs_snoc(p.subrange(0, 3), p[3]);
        assert(p.subrange(0, 3).push(p[3]) =~= p.subrange(0, 4));
        lemma_wf_pairs_snoc(p.subrange(0, 4), p[4]);
        assert(p.subrange(0, 4).push(p[4]) =~= p.subrange(0, 5));
        lemma_wf_pairs_snoc(p.subrange(0, 5), p[5]);
        assert(p.subrange(0, 5).push(p[5]) =~= p);
    }
}

proof fn lemma_keys_distinct()
    ensures
        "name"@ != "title"@,
        "name"@ != "description"@,
        "name"@ != "input"@,
        "name"@ != "output"@,
        "name"@ != "annotations"@,
        "title"@ != "description"@,
        "title"@ != "input"@,
        "title"@ != "output"@,
        "title"@ != "annotations"@,
        "description"@ != "input"@,
        "description"@ != "output"@,
        "description"@ != "annotations"@,
        "input"@ != "output"@,
        "input"@ != "annotations"@,
        "output"@ != "annotations"@,
        "template"@ != "schema"@,
        "input_schema"@ != "name"@,
        "input_schema"@ != "title"@,
        "input_schema"@ != "description"@,
        "input_schema"@ != "output_schema"@,
        "input_schema"@ != "annotations"@,
        "output_schema"@ != "name"@,
        "output_schema"@ != "title"@,
        "output_schema"@ != "description"@,
        "output_schema"@ != "annotations"@,
{
    reveal_strlit("name");
    reveal_strlit("title");
    reveal_strlit("description");
    reveal_strlit("input");
    reveal_strlit("output");
    reveal_strlit("annotations");
    reveal_strlit("template");
    reveal_strlit("schema");
    reveal_strlit("input_schema");
    reveal_strlit("output_schema");
    assert("title"@ != "input"@) by {
        assert("title"@[0] == 't' && "input"@[0] == 'i');
    }
    assert("description"@ != "annotations"@) by {
        assert("description"@[0] == 'd' && "annotations"@[0] == 'a');
    }
    assert("name"@ != "title"@) by {
        assert("name"@.len() == 4 && "title"@.len() == 5);
    }
    assert("name"@ != "description"@) by {
        assert("name"@.len() == 4 && "description"@.len() == 11);
    }
    assert("name"@ != "input"@) by {
        assert("name"@.len() == 4 && "input"@.len() == 5);
    }
    assert("name"@ != "output"@) by {
        assert("name"@.len() == 4 && "output"@.len() == 6);
    }
    assert("name"@ != "annotations"@) by {
        assert("name"@.len() == 4 && "annotations"@.len() == 11);
    }
    assert("title"@ != "description"@) by {
        assert("title"@.len() == 5 && "description"@.len() == 11);
    }
    assert("title"@ != "output"@) by {
        assert("title"@.len() == 5 && "output"@.len() == 6);
    }
    assert("title"@ != "annotations"@) by {
        assert("title"@.len() == 5 && "annotations"@.len() == 11);
    }
    assert("description"@ != "input"@) by {
        assert("description"@.len() == 11 && "input"@.len() == 5);
    }
    assert("description"@ != "output"@) by {
        assert("description"@.len() == 11 && "output"@.len() == 6);
    }
    assert("input"@ != "output"@) by {
        assert("input"@.len() == 5 && "output"@.len() == 6);
    }
    assert("input"@ != "annotations"@) by {
        assert("input"@.len() == 5 && "annotations"@.len() == 11);
    }
    assert("output"@ != "annotations"@) by {
        assert("output"@.len() == 6 && "annotations"@.len() == 11);
    }
    assert("template"@ != "schema"@) by {
        assert("template"@.len() == 8 && "schema"@.len() == 6);
    }
    assert("input_schema"@ != "name"@) by {
        assert("input_schema"@.len() == 12 && "name"@.len() == 4);
    }
    assert("input_schema"@ != "title"@) by {
        assert("input_schema"@.len() == 12 && "title"@.len() == 5);
    }
    assert("input_schema"@ != "description"@) by {
        assert("input_schema"@.len() == 12 && "description"@.len() == 11);
    }
    assert("input_schema"@ != "output_schema"@) by {
        assert("input_schema"@.len() == 12 && "output_schema"@.len() == 13);
    }
    assert("input_schema"@ != "annotations"@) by {
        assert("input_schema"@.len() == 12 && "annotations"@.len() == 11);
    }
    assert("output_schema"@ != "name"@) by {
        assert("output_schema"@.len() == 13 && "name"@.len() == 4);
    }
    assert("output_schema"@ != "title"@) by {
        assert("output_schema"@.len() == 13 && "title"@.len() == 5);
    }
    assert("output_schema"@ != "description"@) by {
        assert("output_schema"@.len() == 13 && "description"@.len() == 11);
    }
    assert("output_schema"@ != "annotations"@) by {
        assert("output_schema"@.len() == 13 && "annotations"@.len() == 11);
    }
}

proof fn lemma_validate_of_def_doc(d: ToolDefinitionView)
    ensures
        spec_validate(spec_def_doc(d)) == Ok::<ToolDefinitionView, ParseErrorView>(d),
{
    lemma_keys_distinct();
    let p = spec_def_doc(d)->Object_0;
    let t1 = p.drop_first();
    let t2 = t1.drop_first();
    let t3 = t2.drop_first();
    let t4 = t3.drop_first();
    let t5 = t4.drop_first();
    assert(t1[0] == p[1] && t2[0] == p[2] && t3[0] == p[3] && t4[0] == p[4] && t5[0] == p[5]);
    assert(t1.len() == 5 && t2.len() == 4 && t3.len() == 3 && t4.len() == 2 && t5.len() == 1);
    assert(t1.drop_first() == t2 && t2.drop_first() == t3 && t3.drop_first() == t4
        && t4.drop_first() == t5);
    assert(spec_lookup(p, "name"@) == Some(DocView::Text(d.name)));
    assert(spec_lookup(p, "title"@) == spec_lookup(t1, "title"@));
    assert(spec_lookup(p, "title"@) == Some(p[1].1));
    assert(spec_lookup(p, "description"@) == spec_lookup(t1, "description"@));
    assert(spec_lookup(t1, "description"@) == spec_lookup(t2, "description"@));
    assert(spec_lookup(p, "description"@) == Some(DocView::Text(d.description)));
    assert(spec_lookup(p, "input"@) == spec_lookup(t1, "input"@));
    assert(spec_lookup(t1, "input"@) == spec_lookup(t2, "input"@));
    assert(spec_lookup(t2, "input"@) == spec_lookup(t3, "input"@));
    assert(spec_lookup(p, "input"@) == Some(p[3].1));
    assert(spec_lookup(p, "output"@) == spec_lookup(t1, "output"@));
    assert(spec_lookup(t1, "output"@) == spec_lookup(t2, "output"@));
    assert(spec_lookup(t2, "output"@) == spec_lookup(t3, "output"@));
    assert(spec_lookup(t3, "output"@) == spec_lookup(t4, "output"@));
    assert(spec_lookup(p, "output"@) == Some(p[4].1));
    assert(spec_lookup(p, "annotations"@) == spec_lookup(t1, "annotations"@));
    assert(spec_lookup(t1, "annotations"@) == spec_lookup(t2, "annotations"@));
    assert(spec_lookup(t2, "annotations"@) == spec_lookup(t3, "annotations"@));
    assert(spec_lookup(t3, "annotations"@) == spec_lookup(t4, "annotations"@));
    assert(spec_lookup(t4, "annotations"@) == spec_lookup(t5, "annotations"@));
    assert(spec_lookup(p, "annotations"@) == Some(p[5].1));
    let ip = p[3].1->Object_0;
    assert(spec_lookup(ip, "template"@) == Some(DocView::Text(d.input.template)));
    assert(spec_lookup(ip, "schema"@) == spec_lookup(ip.drop_first(), "schema"@));
    assert(ip.drop_first()[0] == ip[1]);
    assert(spec_lookup(ip, "schema"@) == Some(d.input.schema));
    assert(spec_validate_io(p[3].1, "input"@, "input.template"@, "input.schema"@)
        == Ok::<ToolIoView, ParseErrorView>(d.input)) by {
        assert(d.input == ToolIoView { template: d.input.template, schema: d.input.schema });
    }
    let op = p[4].1->Object_0;
    assert(spec_lookup(op, "template"@) == Some(DocView::Text(d.output.template)));
    assert(spec_lookup(op, "schema"@) == spec_lookup(op.drop_first(), "schema"@));
    assert(op.drop_first()[0] == op[1]);
    assert(spec_lookup(op, "schema"@) == Some(d.output.schema));
    assert(spec_validate_io(p[4].1, "output"@, "output.template"@, "output.schema"@)
        == Ok::<ToolIoView, ParseErrorView>(d.output)) by {
        assert(d.output == ToolIoView { template: d.output.template, schema: d.output.schema });
    }
    assert(spec_validate(spec_def_doc(d)) == Ok::<ToolDefinitionView, ParseErrorView>(d)) by {
        assert(d == ToolDefinitionView {
            name: d.name,
            title: d.title,
            description: d.description,
            input: d.input,
            output: d.output,
            annotations: d.annotations,
        });
    }
}

/// Round trip: serializing a well-formed definition shape and parsing the
/// text back reproduces the shape field for field. The serialized document
/// loads as itself, and validating it returns the original definition.
pub proof fn lemma_round_trip(d: ToolDefinitionView)
    requires
        wf_def(d),
    ensures
        spec_load_document(spec_emit(spec_def_doc(d))) == Some(spec_def_doc(d)),
        spec_validate(spec_def_doc(d)) == Ok::<ToolDefinitionView, ParseErrorView>(d),
{
    lemma_def_doc_wf(d);
    crate::yaml::lemma_load_of_emit(spec_def_doc(d));
    lemma_validate_of_def_doc(d);
}

/// Whether a protocol-tool shape is representable and serializable: its
/// schemas and annotation values are well formed, as every parsed protocol
/// tool's are.
pub open spec fn wf_mcp(m: McpToolView) -> bool {
    &&& wf_doc(m.input_schema)
    &&& match m.output_schema {
        Some(v) => wf_doc(v),
        None => true,
    }
    &&& match m.annotations {
        Some(ps) => wf_pairs(ps),
        None => true,
    }
}

proof fn lemma_mcp_doc_wf(m: McpToolView)
    requires
        wf_mcp(m),
    ensures
        wf_doc(spec_mcp_doc(m)),
{
    let p = spec_mcp_doc(m)->Object_0;
    assert(wf_doc(p[0].1));
    assert(wf_doc(p[1].1));
    assert(wf_doc(p[2].1));
    assert(wf_doc(p[3].1));
    assert(wf_doc(p[4].1));
    assert(wf_doc(p[5].1));
    assert(wf_pairs(p)) by {
        assert(wf_pairs(Seq::<(Seq<char>, DocView)>::empty()));
        lemma_wf_pairs_snoc(Seq::<(Seq<char>, DocView)>::empty(), p[0]);
        assert(Seq::<(Seq<char>, DocView)>::empty().push(p[0]) =~= p.subrange(0, 1));
        lemma_wf_pairs_snoc(p.subrange(0, 1), p[1]);
        assert(p.subrange(0, 1).push(p[1]) =~= p.subrange(0, 2));
        lemma_wf_pairs_snoc(p.subrange(0, 2), p[2]);
        assert(p.subrange(0, 2).push(p[2]) =~= p.subrange(0, 3));
        lemma_wf_pairs_snoc(p.subrange(0, 3), p[3]);
        assert(p.subrange(0, 3).push(p[3]) =~= p.subrange(0, 4));
        lemma_wf_pairs_snoc(p.subrange(0, 4), p[4]);
        assert(p.subrange(0, 4).push(p[4]) =~= p.subrange(0, 5));
        lemma_wf_pairs_snoc(p.subrange(0, 5), p[5]);
        assert(p.subrange(0, 5).push(p[5]) =~= p);
    }
}

/// Round trip for the protocol shape: serializing a well-formed protocol
/// tool and parsing the text back reproduces it. The one shape left out is
/// an output schema that is itself `null`: on the wire that is
/// indistinguishable from an absent output schema and reads back as absent.
pub proof fn lemma_mcp_round_trip(m: McpToolView)
    requires
        wf_mcp(m),
        m.output_schema != Some(DocView::Null),
    ensures
        spec_load_document(spec_emit(spec_mcp_doc(m))) == Some(spec_mcp_doc(m)),
        spec_validate_mcp(spec_mcp_doc(m)) == Ok::<McpToolView, ParseErrorView>(m),
{
    lemma_mcp_doc_wf(m);
    crate::yaml::lemma_load_of_emit(spec_mcp_doc(m));
    lemma_keys_distinct();
    let p = spec_mcp_doc(m)->Object_0;
    let t1 = p.drop_first();
    let t2 = t1.drop_first();
    let t3 = t2.drop_first();
    let t4 = t3.drop_first();
    let t5 = t4.drop_first();
    assert(t1[0] == p[1] && t2[0] == p[2] && t3[0] == p[3] && t4[0] == p[4] && t5[0] == p[5]);
    assert(t1.len() == 5 && t2.len() == 4 && t3.len() == 3 && t4.len() == 2 && t5.len() == 1);
    assert(t1.drop_first() == t2 && t2.drop_first() == t3 && t3.drop_first() == t4
        && t4.drop_first() == t5);
    assert(spec_lookup(p, "name"@) == Some(DocView::Text(m.name)));
    assert(spec_lookup(p, "title"@) == spec_lookup(t1, "title"@));
    assert(spec_lookup(p, "title"@) == Some(p[1].1));
    assert(spec_lookup(p, "description"@) == spec_lookup(t1, "description"@));
    assert(spec_lookup(t1, "description"@) == spec_lookup(t2, "description"@));
    assert(spec_lookup(p, "description"@) == Some(DocView::Text(m.description)));
    assert(spec_lookup(p, "input_schema"@) == spec_lookup(t1, "input_schema"@));
    assert(spec_lookup(t1, "input_schema"@) == spec_lookup(t2, "input_schema"@));
    assert(spec_lookup(t2, "input_schema"@) == spec_lookup(t3, "input_schema"@));
    assert(spec_lookup(p, "input_schema"@) == Some(m.input_schema));
    assert(spec_lookup(p, "output_schema"@) == spec_lookup(t1, "output_schema"@));
    assert(spec_lookup(t1, "output_schema"@) == spec_lookup(t2, "output_schema"@));
    assert(spec_lookup(t2, "output_schema"@) == spec_lookup(t3, "output_schema"@));
    assert(spec_lookup(t3, "output_schema"@) == spec_lookup(t4, "output_schema"@));
    assert(spec_lookup(p, "output_schema"@) == Some(p[4].1));
    assert(spec_lookup(p, "annotations"@) == spec_lookup(t1, "annotations"@));
    assert(spec_lookup(t1, "annotations"@) == spec_lookup(t2, "annotations"@));
    assert(spec_lookup(t2, "annotations"@) == spec_lookup(t3, "annotations"@));
    assert(spec_lookup(t3, "annotations"@) == spec_lookup(t4, "annotations"@));
    assert(spec_lookup(t4, "annotations"@) == spec_lookup(t5, "annotations"@));
    assert(spec_lookup(p, "annotations"@) == Some(p[5].1));
    assert(spec_validate_mcp(spec_mcp_doc(m)) == Ok::<McpToolView, ParseErrorView>(m)) by {
        assert(m == McpToolView {
            name: m.name,
            title: m.title,
            description: m.description,
            input_schema: m.input_schema,
            output_schema: m.output_schema,
            annotations: m.annotations,
        });
    }
}

} // verus!
