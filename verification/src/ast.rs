//! The syntax tree: literals, variables, operations, statements and control
//! forms. Each compound node owns its children.

use vstd::prelude::*;

verus! {

/// The operations with two operands.
#[derive(Clone, Copy, Debug, PartialEq, Eq, Structural)]
pub enum BinaryOp {
    Add,
    Sub,
    Mul,
    Div,
    Modulo,
    EqCheck,
    NeqCheck,
    GtCheck,
    LtCheck,
    GteCheck,
    LteCheck,
}

/// The ways to write to a variable.
#[derive(Clone, Copy, Debug, PartialEq, Eq, Structural)]
pub enum AssignOp {
    /// First binding (`let`): always binds.
    Let,
    /// Plain assignment: changes an existing binding only.
    Change,
    /// `+=`: changes an existing binding only.
    AddEq,
    /// `-=`: changes an existing binding only.
    SubEq,
}

/// A node of the syntax tree. A number is held as its decimal numeral.
#[derive(Debug, PartialEq)]
pub enum ASTNode {
    Nothing,
    Number(String),
    Text(String),
    Boolean(bool),
    Variable(String),
    /// The kind of write, the target variable, the value written.
    Assign(AssignOp, String, Box<ASTNode>),
    /// The operation, the left operand, the right operand.
    Binary(BinaryOp, Box<ASTNode>, Box<ASTNode>),
    /// The function's name, the arguments.
    FunctionCall(String, Vec<ASTNode>),
    /// The function's name, the parameters' names, the body.
    FunctionDecl(String, Vec<String>, Vec<ASTNode>),
    /// The condition, the body, whether there is an `else`, its body.
    IfStatement(Box<ASTNode>, Vec<ASTNode>, bool, Vec<ASTNode>),
    /// The condition, the body.
    ConditionalLoop(Box<ASTNode>, Vec<ASTNode>),
    /// The counter's name, the lower bound, the upper bound, the body.
    IncrementingLoop(String, Box<ASTNode>, Box<ASTNode>, Vec<ASTNode>),
    LoopBreak,
}

/// The mathematical value of an `ASTNode`.
pub enum Node {
    Nothing,
    Number(Seq<char>),
    Text(Seq<char>),
    Boolean(bool),
    Variable(Seq<char>),
    Assign(AssignOp, Seq<char>, Box<Node>),
    Binary(BinaryOp, Box<Node>, Box<Node>),
    FunctionCall(Seq<char>, Seq<Node>),
    FunctionDecl(Seq<char>, Seq<Seq<char>>, Seq<Node>),
    IfStatement(Box<Node>, Seq<Node>, bool, Seq<Node>),
    ConditionalLoop(Box<Node>, Seq<Node>),
    IncrementingLoop(Seq<char>, Box<Node>, Box<Node>, Seq<Node>),
    LoopBreak,
}

/// The values of a list of nodes.
pub open spec fn nodes_of(v: Seq<ASTNode>) -> Seq<Node>
    decreases v, 0nat,
{
    Seq::new(
        v.len(),
        |i: int|
            if 0 <= i < v.len() {
                v[i].view()
            } else {
                Node::Nothing
            },
    )
}

/// The values of a list of names.
pub open spec fn names_of(v: Seq<String>) -> Seq<Seq<char>> {
    Seq::new(v.len(), |i: int| v[i]@)
}

impl ASTNode {
    pub open spec fn view(&self) -> Node
        decreases self, 1nat,
    {
        match self {
            ASTNode::Nothing => Node::Nothing,
            ASTNode::Number(n) => Node::Number(n@),
            ASTNode::Text(t) => Node::Text(t@),
            ASTNode::Boolean(b) => Node::Boolean(*b),
            ASTNode::Variable(name) => Node::Variable(name@),
            ASTNode::Assign(op, name, value) => Node::Assign(
                *op,
                name@,
                Box::new(value.view()),
            ),
            ASTNode::Binary(op, lhs, rhs) => Node::Binary(
                *op,
                Box::new(lhs.view()),
                Box::new(rhs.view()),
            ),
            ASTNode::FunctionCall(name, args) => Node::FunctionCall(name@, nodes_of(args@)),
            ASTNode::FunctionDecl(name, params, body) => Node::FunctionDecl(
                name@,
                names_of(params@),
                nodes_of(body@),
            ),
            ASTNode::IfStatement(cond, body, has_else, else_body) => Node::IfStatement(
                Box::new(cond.view()),
                nodes_of(body@),
                *has_else,
                nodes_of(else_body@),
            ),
            ASTNode::ConditionalLoop(cond, body) => Node::ConditionalLoop(
                Box::new(cond.view()),
                nodes_of(body@),
            ),
            ASTNode::IncrementingLoop(name, lower, upper, body) => Node::IncrementingLoop(
                name@,
                Box::new(lower.view()),
                Box::new(upper.view()),
                nodes_of(body@),
            ),
            ASTNode::LoopBreak => Node::LoopBreak,
        }
    }

    /// A copy of the node and of all that it owns.
    pub fn copy(&self) -> (r: ASTNode)
        ensures
            r@ == self@,
        decreases self, 1nat,
    {
        match self {
            ASTNode::Nothing => ASTNode::Nothing,
            ASTNode::Number(n) => ASTNode::Number(n.clone()),
            ASTNode::Text(t) => ASTNode::Text(t.clone()),
            ASTNode::Boolean(b) => ASTNode::Boolean(*b),
            ASTNode::Variable(name) => ASTNode::Variable(name.clone()),
            ASTNode::Assign(op, name, value) => ASTNode::Assign(
                *op,
                name.clone(),
                Box::new(value.copy()),
            ),
            ASTNode::Binary(op, lhs, rhs) => ASTNode::Binary(
                *op,
                Box::new(lhs.copy()),
                Box::new(rhs.copy()),
            ),
            ASTNode::FunctionCall(name, args) => ASTNode::FunctionCall(
                name.clone(),
                copy_nodes(args),
            ),
            ASTNode::FunctionDecl(name, params, body) => ASTNode::FunctionDecl(
                name.clone(),
                copy_names(params),
                copy_nodes(body),
            ),
            ASTNode::IfStatement(cond, body, has_else, else_body) => ASTNode::IfStatement(
                Box::new(cond.copy()),
                copy_nodes(body),
                *has_else,
                copy_nodes(else_body),
            ),
            ASTNode::ConditionalLoop(cond, body) => ASTNode::ConditionalLoop(
                Box::new(cond.copy()),
                copy_nodes(body),
            ),
            ASTNode::IncrementingLoop(name, lower, upper, body) => ASTNode::IncrementingLoop(
                name.clone(),
                Box::new(lower.copy()),
                Box::new(upper.copy()),
                copy_nodes(body),
            ),
            ASTNode::LoopBreak => ASTNode::LoopBreak,
        }
    }
}

impl Clone for ASTNode {
    fn clone(&self) -> (r: ASTNode)
        ensures
            r@ == self@,
    {
        self.copy()
    }
}

/// A copy of a list of nodes.
pub fn copy_nodes(v: &Vec<ASTNode>) -> (r: Vec<ASTNode>)
    ensures
        nodes_of(r@) == nodes_of(v@),
    decreases v, 0nat,
{
    let mut out: Vec<ASTNode> = Vec::new();
    let mut i: usize = 0;
    while i < v.len()
        invariant
            i <= v.len(),
            out@.len() == i,
            forall|j: int| 0 <= j < i ==> out@[j]@ == v@[j]@,
        decreases v.len() - i,
    {
        out.push(v[i].copy());
        i += 1;
    }
    assert(nodes_of(out@) =~= nodes_of(v@));
    out
}

/// A copy of a list of names.
pub fn copy_names(v: &Vec<String>) -> (r: Vec<String>)
    ensures
        names_of(r@) == names_of(v@),
{
    let mut out: Vec<String> = Vec::new();
    let mut i: usize = 0;
    while i < v.len()
        invariant
            i <= v.len(),
            out@.len() == i,
            forall|j: int| 0 <= j < i ==> out@[j]@ == v@[j]@,
        decreases v.len() - i,
    {
        out.push(v[i].clone());
        i += 1;
    }
    assert(names_of(out@) =~= names_of(v@));
    out
}

} // verus!
