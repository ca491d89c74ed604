use vstd::prelude::*;

use crate::type_var::str_eq;

verus! {

/// A position in the source: row (from 0) and column (from 0).
#[derive(Debug, Clone, Copy, PartialEq, Eq)]
pub struct Point {
    pub row: usize,
    pub column: usize,
}

/// A node of a syntax tree, with the role it has in its parent, its span, the
/// source text it covers and all its children, named and anonymous, in order.
#[derive(Debug)]
pub struct SyntaxNode {
    pub kind: String,
    pub field: Option<String>,
    pub named: bool,
    pub start: Point,
    pub end: Point,
    pub text: String,
    pub children: Vec<SyntaxNode>,
}

/// The node kinds that the checker treats in their own way.
#[derive(Debug, Clone, Copy, PartialEq, Eq, Structural)]
pub enum NodeKind {
    Module,
    ExpressionStatement,
    Assignment,
    BinaryOperator,
    FunctionDefinition,
    Call,
    Identifier,
    Integer,
    StringLiteral,
    ReturnStatement,
    TypedParameter,
    NoneLiteral,
    Other,
}

pub open spec fn kind_of(s: Seq<char>) -> NodeKind {
    if s == "module"@ {
        NodeKind::Module
    } else if s == "expression_statement"@ {
        NodeKind::ExpressionStatement
    } else if s == "assignment"@ {
        NodeKind::Assignment
    } else if s == "binary_operator"@ {
        NodeKind::BinaryOperator
    } else if s == "function_definition"@ {
        NodeKind::FunctionDefinition
    } else if s == "call"@ {
        NodeKind::Call
    } else if s == "identifier"@ {
        NodeKind::Identifier
    } else if s == "integer"@ {
        NodeKind::Integer
    } else if s == "string"@ {
        NodeKind::StringLiteral
    } else if s == "return_statement"@ {
        NodeKind::ReturnStatement
    } else if s == "typed_parameter"@ {
        NodeKind::TypedParameter
    } else if s == "none"@ {
        NodeKind::NoneLiteral
    } else {
        NodeKind::Other
    }
}

/// The kind of node that a grammar's kind name stands for.
pub fn classify(s: &str) -> (r: NodeKind)
    ensures
        r == kind_of(s@),
{
    if str_eq(s, "module") {
        NodeKind::Module
    } else if str_eq(s, "expression_statement") {
        NodeKind::ExpressionStatement
    } else if str_eq(s, "assignment") {
        NodeKind::Assignment
    } else if str_eq(s, "binary_operator") {
        NodeKind::BinaryOperator
    } else if str_eq(s, "function_definition") {
        NodeKind::FunctionDefinition
    } else if str_eq(s, "call") {
        NodeKind::Call
    } else if str_eq(s, "identifier") {
        NodeKind::Identifier
    } else if str_eq(s, "integer") {
        NodeKind::Integer
    } else if str_eq(s, "string") {
        NodeKind::StringLiteral
    } else if str_eq(s, "return_statement") {
        NodeKind::ReturnStatement
    } else if str_eq(s, "typed_parameter") {
        NodeKind::TypedParameter
    } else if str_eq(s, "none") {
        NodeKind::NoneLiteral
    } else {
        NodeKind::Other
    }
}

pub open spec fn has_field(c: SyntaxNode, role: Seq<char>) -> bool {
    c.field matches Some(f) && f@ == role
}

/// The index of the first of `s[k..]` that has the given role.
pub open spec fn field_from(s: Seq<SyntaxNode>, role: Seq<char>, k: int) -> Option<int>
    decreases s.len() - k,
{
    if k < 0 || k >= s.len() {
        None
    } else if has_field(s[k], role) {
        Some(k)
    } else {
        field_from(s, role, k + 1)
    }
}

/// The first child of a node that has the given role.
pub open spec fn field_child(n: SyntaxNode, role: Seq<char>) -> Option<SyntaxNode> {
    match field_from(n.children@, role, 0) {
        Some(i) => Some(n.children@[i]),
        None => None,
    }
}

/// The named nodes of a list, in order.
pub open spec fn named_of(s: Seq<SyntaxNode>) -> Seq<SyntaxNode>
    decreases s.len(),
{
    if s.len() == 0 {
        Seq::empty()
    } else if s.last().named {
        named_of(s.drop_last()).push(s.last())
    } else {
        named_of(s.drop_last())
    }
}

/// The named children of a node, in order.
pub open spec fn named_children(n: SyntaxNode) -> Seq<SyntaxNode> {
    named_of(n.children@)
}

pub proof fn lemma_named_of_step(s: Seq<SyntaxNode>, i: int)
    requires
        0 <= i < s.len(),
    ensures
        named_of(s.take(i + 1)) == (if s[i].named {
            named_of(s.take(i)).push(s[i])
        } else {
            named_of(s.take(i))
        }),
{
    assert(s.take(i + 1).drop_last() =~= s.take(i));
}

pub proof fn lemma_named_len(s: Seq<SyntaxNode>)
    ensures
        named_of(s).len() <= s.len(),
    decreases s.len(),
{
    if s.len() > 0 {
        lemma_named_len(s.drop_last());
    }
}

pub proof fn lemma_named_of_all(s: Seq<SyntaxNode>)
    ensures
        s.take(s.len() as int) == s,
{
    assert(s.take(s.len() as int) =~= s);
}

impl SyntaxNode {
    pub open spec fn spec_kind(&self) -> NodeKind {
        kind_of(self.kind@)
    }

    pub fn node_kind(&self) -> (r: NodeKind)
        ensures
            r == self.spec_kind(),
    {
        classify(self.kind.as_str())
    }

    /// The first child that has the given role.
    pub fn child_by_field_name(&self, role: &str) -> (r: Option<&SyntaxNode>)
        ensures
            r matches Some(c) ==> field_child(*self, role@) == Some(*c),
            r is None ==> field_child(*self, role@) is None,
    {
        let mut i: usize = 0;
        while i < self.children.len()
            invariant
                0 <= i <= self.children@.len(),
                field_from(self.children@, role@, i as int) == field_from(
                    self.children@,
                    role@,
                    0,
                ),
            decreases self.children.len() - i,
        {
            let c = &self.children[i];
            let found = match &c.field {
                Some(f) => str_eq(f.as_str(), role),
                None => false,
            };
            if found {
                return Some(c);
            }
            i = i + 1;
        }
        None
    }

    /// The first named child, if there is one.
    pub fn first_named_child(&self) -> (r: Option<&SyntaxNode>)
        ensures
            r matches Some(c) ==> named_children(*self).len() > 0 && named_children(*self)[0]
                == *c,
            r is None ==> named_children(*self).len() == 0,
    {
        let mut i: usize = 0;
        while i < self.children.len()
            invariant
                0 <= i <= self.children@.len(),
                named_of(self.children@.take(i as int)).len() == 0,
            decreases self.children.len() - i,
        {
            proof {
                lemma_named_of_step(self.children@, i as int);
            }
            if self.children[i].named {
                proof {
                    lemma_named_prefix(self.children@, i as int + 1);
                    assert(named_of(self.children@.take(i as int + 1))[0] == self.children@[i as int]);
                }
                return Some(&self.children[i]);
            }
            i = i + 1;
        }
        proof {
            lemma_named_of_all(self.children@);
        }
        None
    }
}

/// The named nodes of a prefix come first among the named nodes of the whole list.
pub proof fn lemma_named_prefix(s: Seq<SyntaxNode>, k: int)
    requires
        0 <= k <= s.len(),
    ensures
        named_of(s.take(k)).len() <= named_of(s).len(),
        forall|j: int|
            0 <= j < named_of(s.take(k)).len() ==> named_of(s)[j] == #[trigger] named_of(
                s.take(k),
            )[j],
    decreases s.len() - k,
{
    if k < s.len() {
        lemma_named_of_step(s, k);
        lemma_named_prefix(s, k + 1);
        assert forall|j: int| 0 <= j < named_of(s.take(k)).len() implies named_of(s)[j]
            == #[trigger] named_of(s.take(k))[j] by {
            assert(named_of(s.take(k + 1))[j] == named_of(s.take(k))[j]);
        }
    } else {
        lemma_named_of_all(s);
    }
}

pub proof fn lemma_field_from_range(s: Seq<SyntaxNode>, role: Seq<char>, k: int)
    ensures
        field_from(s, role, k) matches Some(i) ==> k <= i < s.len() && has_field(s[i], role),
    decreases s.len() - k,
{
    if 0 <= k < s.len() && !has_field(s[k], role) {
        lemma_field_from_range(s, role, k + 1);
    }
}

/// A child found by its role lies below its parent.
pub proof fn lemma_field_child_decreases(n: SyntaxNode, role: Seq<char>)
    ensures
        field_child(n, role) matches Some(c) ==> decreases_to!(n => c),
{
    lemma_field_from_range(n.children@, role, 0);
    if let Some(i) = field_from(n.children@, role, 0) {
        assert(decreases_to!(n => n.children));
        assert(decreases_to!(n.children => n.children[i]));
    }
}

/// Each named node of a list is one of its nodes.
pub proof fn lemma_named_of_members(s: Seq<SyntaxNode>)
    ensures
        forall|j: int|
            0 <= j < named_of(s).len() ==> exists|i: int|
                0 <= i < s.len() && s[i] == #[trigger] named_of(s)[j],
    decreases s.len(),
{
    if s.len() > 0 {
        lemma_named_of_members(s.drop_last());
        assert forall|j: int| 0 <= j < named_of(s).len() implies exists|i: int|
            0 <= i < s.len() && s[i] == #[trigger] named_of(s)[j] by {
            if j < named_of(s.drop_last()).len() {
                let i = choose|i: int|
                    0 <= i < s.drop_last().len() && s.drop_last()[i] == named_of(s.drop_last())[j];
                assert(s[i] == named_of(s)[j]);
            } else {
                assert(s[s.len() - 1] == named_of(s)[j]);
            }
        }
    }
}

/// The first named child lies below its parent.
pub proof fn lemma_first_named_decreases(n: SyntaxNode)
    ensures
        named_children(n).len() > 0 ==> decreases_to!(n => named_children(n)[0]),
{
    lemma_named_of_members(n.children@);
    if named_children(n).len() > 0 {
        let i = choose|i: int|
            0 <= i < n.children@.len() && n.children@[i] == #[trigger] named_of(n.children@)[0];
        assert(decreases_to!(n => n.children));
        assert(decreases_to!(n.children => n.children[i]));
    }
}

/// A name for the tree that the Python grammar gives to a source text.
pub uninterp spec fn python_syntax(src: Seq<char>) -> Option<SyntaxNode>;

#[verifier::external_type_specification]
#[verifier::external_body]
pub struct ExTsNode<'a>(tree_sitter::Node<'a>);

/// Relies on tree_sitter::Node (kind, is_named, start_position, end_position,
/// utf8_text, walk) and TreeCursor (goto_first_child, field_name,
/// goto_next_sibling) to copy a node and its subtree into a `SyntaxNode`.
#[verifier::external_body]
fn lift(node: tree_sitter::Node, field: Option<&str>, src: &[u8]) -> SyntaxNode {
    let mut cursor = node.walk();
    let mut children = Vec::new();
    let mut more = cursor.goto_first_child();
    while more {
        children.push(lift(cursor.node(), cursor.field_name(), src));
        more = cursor.goto_next_sibling();
    }
    let (s, e) = (node.start_position(), node.end_position());
    let (start, end) = (Point { row: s.row, column: s.column }, Point { row: e.row, column: e.column });
    let text = node.utf8_text(src).unwrap_or_default().to_string();
    let (kind, field) = (node.kind().to_string(), field.map(|f| f.to_string()));
    SyntaxNode { kind, field, named: node.is_named(), start, end, text, children }
}

/// Relies on tree_sitter::Parser with the tree_sitter_python grammar to parse a
/// source text; the tree depends on the text alone.
#[verifier::external_body]
pub fn parse(src: &str) -> (r: Option<SyntaxNode>)
    ensures
        r == python_syntax(src@),
{
    let mut parser = tree_sitter::Parser::new();
    parser.set_language(&tree_sitter_python::LANGUAGE.into()).ok()?;
    let tree = parser.parse(src, None)?;
    Some(lift(tree.root_node(), None, src.as_bytes()))
}

} // verus!
