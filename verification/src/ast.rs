use vstd::prelude::*;

verus! {

/// The four arithmetic operators of the language.
#[derive(Debug, Clone, Copy, PartialEq, Eq, Structural)]
pub enum Operator {
    Add,
    Sub,
    Mul,
    Div,
}

impl Operator {
    /// The character that spells the operator in source text.
    pub open spec fn spec_symbol(self) -> char {
        match self {
            Operator::Add => '+',
            Operator::Sub => '-',
            Operator::Mul => '*',
            Operator::Div => '/',
        }
    }

    /// The operator that a character spells, if it spells one.
    pub open spec fn spec_from_symbol(c: char) -> Option<Operator> {
        if c == '+' {
            Some(Operator::Add)
        } else if c == '-' {
            Some(Operator::Sub)
        } else if c == '*' {
            Some(Operator::Mul)
        } else if c == '/' {
            Some(Operator::Div)
        } else {
            None
        }
    }

    /// Addition and subtraction bind loosest.
    pub open spec fn is_additive(self) -> bool {
        self == Operator::Add || self == Operator::Sub
    }

    /// Multiplication and division bind tighter than the additive operators.
    pub open spec fn is_multiplicative(self) -> bool {
        self == Operator::Mul || self == Operator::Div
    }

    #[verifier::when_used_as_spec(spec_symbol)]
    pub fn symbol(self) -> (c: char)
        ensures
            c == self.spec_symbol(),
    {
        match self {
            Operator::Add => '+',
            Operator::Sub => '-',
            Operator::Mul => '*',
            Operator::Div => '/',
        }
    }

    #[verifier::when_used_as_spec(spec_from_symbol)]
    pub fn from_symbol(c: char) -> (op: Option<Operator>)
        ensures
            op == Operator::spec_from_symbol(c),
    {
        if c == '+' {
            Some(Operator::Add)
        } else if c == '-' {
            Some(Operator::Sub)
        } else if c == '*' {
            Some(Operator::Mul)
        } else if c == '/' {
            Some(Operator::Div)
        } else {
            None
        }
    }
}

/// A node of the syntax tree. Every composite node owns its children.
#[derive(Debug, PartialEq)]
pub enum ASTNode {
    Number(i32),
    Identifier(String),
    Assignment(String, Box<ASTNode>),
    BinaryOp { op: Operator, left: Box<ASTNode>, right: Box<ASTNode> },
    Return(Box<ASTNode>),
}

/// A syntax tree as contracts speak of it: names are sequences of characters.
pub enum NodeView {
    Number(i32),
    Identifier(Seq<char>),
    Assignment(Seq<char>, Box<NodeView>),
    BinaryOp { op: Operator, left: Box<NodeView>, right: Box<NodeView> },
    Return(Box<NodeView>),
}

impl ASTNode {
    /// The tree that this node stands for.
    pub open spec fn tree(self) -> NodeView
        decreases self,
    {
        match self {
            ASTNode::Number(value) => NodeView::Number(value),
            ASTNode::Identifier(name) => NodeView::Identifier(name@),
            ASTNode::Assignment(name, value) => NodeView::Assignment(
                name@,
                Box::new((*value).tree()),
            ),
            ASTNode::BinaryOp { op, left, right } => NodeView::BinaryOp {
                op,
                left: Box::new((*left).tree()),
                right: Box::new((*right).tree()),
            },
            ASTNode::Return(value) => NodeView::Return(Box::new((*value).tree())),
        }
    }
}

impl View for ASTNode {
    type V = NodeView;

    open spec fn view(&self) -> NodeView {
        self.tree()
    }
}

} // verus!
