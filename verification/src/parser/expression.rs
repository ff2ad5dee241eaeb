//! The tree that parsing builds, and what each node stands for in contracts.
use vstd::prelude::*;

verus! {

/// A named, parameterised sequence of statements.
#[derive(Debug, PartialEq, Eq)]
pub struct Function {
    pub name: String,
    pub arguments: Vec<Expression>,
    pub body: Vec<Expression>,
}

/// A named aggregate of typed fields.
#[derive(Debug, PartialEq, Eq)]
pub struct Container {
    pub name: String,
    pub variables: Vec<Expression>,
}

/// A node of the tree.
#[derive(Debug, PartialEq, Eq)]
pub enum Expression {
    VariableDeclaration(String, String),
    ContainerDeclaration(Container),
    FunctionDeclaration(Function),
    StringLiteral(String),
    VariableAssignment(String, String, Option<Vec<Expression>>),
    Identifier(String),
    Comment(String),
    IntegerLiteral(String),
}

/// What a `Container` stands for.
pub struct ContainerNode {
    pub name: Seq<char>,
    pub variables: Seq<Node>,
}

/// What a `Function` stands for.
pub struct FunctionNode {
    pub name: Seq<char>,
    pub arguments: Seq<Node>,
    pub body: Seq<Node>,
}

/// What an `Expression` stands for: the same tree over sequences.
pub enum Node {
    VariableDeclaration(Seq<char>, Seq<char>),
    ContainerDeclaration(ContainerNode),
    FunctionDeclaration(FunctionNode),
    StringLiteral(Seq<char>),
    VariableAssignment(Seq<char>, Seq<char>, Option<Seq<Node>>),
    Identifier(Seq<char>),
    Comment(Seq<char>),
    IntegerLiteral(Seq<char>),
}

impl Node {
    /// Whether the node may stand as the value of an initializer: a number, a
    /// string or a name.
    pub open spec fn is_value(self) -> bool {
        self is IntegerLiteral || self is StringLiteral || self is Identifier
    }

    /// Whether the node may stand in a scope: a comment, a string, or a
    /// definition whose initializer, where it has one, holds one value.
    pub open spec fn is_statement(self) -> bool {
        match self {
            Node::Comment(_) => true,
            Node::StringLiteral(_) => true,
            Node::VariableAssignment(_, _, None) => true,
            Node::VariableAssignment(_, _, Some(list)) => list.len() == 1 && list[0].is_value(),
            _ => false,
        }
    }

    /// Whether the node may stand at the top level: a container whose
    /// variables are declarations, or a function whose arguments are
    /// declarations and whose body holds statements.
    pub open spec fn is_top_level(self) -> bool {
        match self {
            Node::ContainerDeclaration(c) => forall|k: int|
                0 <= k < c.variables.len() ==> (#[trigger] c.variables[k]) is VariableDeclaration,
            Node::FunctionDeclaration(f) => {
                &&& forall|k: int|
                    0 <= k < f.arguments.len() ==> (#[trigger] f.arguments[k])
                        is VariableDeclaration
                &&& forall|k: int| 0 <= k < f.body.len() ==> (#[trigger] f.body[k]).is_statement()
            },
            _ => false,
        }
    }
}

/// The node of an expression.
pub open spec fn node_of(e: Expression) -> Node
    decreases e, 0int,
{
    match e {
        Expression::VariableDeclaration(ty, name) => Node::VariableDeclaration(ty@, name@),
        Expression::ContainerDeclaration(c) => Node::ContainerDeclaration(
            ContainerNode { name: c.name@, variables: nodes_in(c.variables) },
        ),
        Expression::FunctionDeclaration(f) => Node::FunctionDeclaration(
            FunctionNode {
                name: f.name@,
                arguments: nodes_in(f.arguments),
                body: nodes_in(f.body),
            },
        ),
        Expression::StringLiteral(text) => Node::StringLiteral(text@),
        Expression::VariableAssignment(ty, name, None) => Node::VariableAssignment(
            ty@,
            name@,
            None,
        ),
        Expression::VariableAssignment(ty, name, Some(list)) => Node::VariableAssignment(
            ty@,
            name@,
            Some(nodes_in(list)),
        ),
        Expression::Identifier(name) => Node::Identifier(name@),
        Expression::Comment(text) => Node::Comment(text@),
        Expression::IntegerLiteral(digits) => Node::IntegerLiteral(digits@),
    }
}

/// The nodes of the expressions in a vector, in order.
pub open spec fn nodes_in(list: Vec<Expression>) -> Seq<Node>
    decreases list, 1int,
{
    Seq::new(
        list.len() as nat,
        |i: int|
            if 0 <= i < list.len() {
                node_of(list[i])
            } else {
                Node::Comment(Seq::empty())
            },
    )
}

impl View for Expression {
    type V = Node;

    open spec fn view(&self) -> Node {
        node_of(*self)
    }
}

/// What a list of expressions stands for, node by node.
pub open spec fn nodes_of(list: Seq<Expression>) -> Seq<Node> {
    list.map_values(|e: Expression| e@)
}

/// What an optional initializer stands for.
pub open spec fn initializer_of(def: Option<Vec<Expression>>) -> Option<Seq<Node>> {
    match def {
        Some(list) => Some(nodes_of(list@)),
        None => None,
    }
}

impl View for Container {
    type V = ContainerNode;

    open spec fn view(&self) -> ContainerNode {
        ContainerNode { name: self.name@, variables: nodes_of(self.variables@) }
    }
}

impl View for Function {
    type V = FunctionNode;

    open spec fn view(&self) -> FunctionNode {
        FunctionNode {
            name: self.name@,
            arguments: nodes_of(self.arguments@),
            body: nodes_of(self.body@),
        }
    }
}

/// The nodes of a vector are the nodes of its elements.
pub proof fn lemma_nodes_in(list: Vec<Expression>)
    ensures
        nodes_in(list) == nodes_of(list@),
{
    assert(nodes_in(list) =~= nodes_of(list@));
}

/// The node of an expression, with each list inside it taken as a whole.
pub proof fn lemma_node(e: Expression)
    ensures
        e@ == (match e {
            Expression::VariableDeclaration(ty, name) => Node::VariableDeclaration(ty@, name@),
            Expression::ContainerDeclaration(c) => Node::ContainerDeclaration(c@),
            Expression::FunctionDeclaration(f) => Node::FunctionDeclaration(f@),
            Expression::StringLiteral(text) => Node::StringLiteral(text@),
            Expression::VariableAssignment(ty, name, def) => Node::VariableAssignment(
                ty@,
                name@,
                initializer_of(def),
            ),
            Expression::Identifier(name) => Node::Identifier(name@),
            Expression::Comment(text) => Node::Comment(text@),
            Expression::IntegerLiteral(digits) => Node::IntegerLiteral(digits@),
        }),
{
    match e {
        Expression::ContainerDeclaration(c) => {
            lemma_nodes_in(c.variables);
        },
        Expression::FunctionDeclaration(f) => {
            lemma_nodes_in(f.arguments);
            lemma_nodes_in(f.body);
        },
        Expression::VariableAssignment(ty, name, Some(list)) => {
            lemma_nodes_in(list);
        },
        _ => {},
    }
}

impl Function {
    /// The function of a name, its parameters and its body.
    pub fn new(name: String, arguments: Vec<Expression>, body: Vec<Expression>) -> (r: Self)
        ensures
            r.name == name,
            r.arguments == arguments,
            r.body == body,
    {
        Self { name, arguments, body }
    }
}

impl Container {
    /// The container of a name and its fields.
    pub fn new(name: String, variables: Vec<Expression>) -> (r: Self)
        ensures
            r.name == name,
            r.variables == variables,
    {
        Self { name, variables }
    }
}

impl Expression {
    /// The definition that a declaration and an optional initializer make: the
    /// declaration's type and name, with the initializer as it is.
    pub fn assign_from_declaration(expr: Self, def: Option<Vec<Self>>) -> (r: Self)
        requires
            expr is VariableDeclaration,
        ensures
            r == Expression::VariableAssignment(
                expr->VariableDeclaration_0,
                expr->VariableDeclaration_1,
                def,
            ),
            r@ == Node::VariableAssignment(
                expr@->VariableDeclaration_0,
                expr@->VariableDeclaration_1,
                initializer_of(def),
            ),
    {
        let (ty, ident) = match expr {
            Self::VariableDeclaration(ty, ident) => (ty, ident),
            _ => {
                proof {
                    assert(false);
                }
                (String::new(), String::new())
            },
        };
        let r = Self::VariableAssignment(ty, ident, def);
        proof {
            lemma_node(r);
        }
        r
    }
}

} // verus!
