//! The execution environment: the number variables, the text variables and
//! the functions that a statement list runs against.

use vstd::prelude::*;
use crate::ast::{names_of, nodes_of, ASTNode, Node};
use crate::table::Table;

verus! {

/// The mathematical value of an `ExecutionContext`: three maps from names.
/// A number variable is bound to a `Number` node, a text variable to a
/// `Text` node, a function to its declaration with the name left empty.
pub struct Environment {
    pub numbers: Map<Seq<char>, Node>,
    pub texts: Map<Seq<char>, Node>,
    pub functions: Map<Seq<char>, Node>,
}

impl Environment {
    /// The environment without variables and functions.
    pub open spec fn empty() -> Environment {
        Environment { numbers: Map::empty(), texts: Map::empty(), functions: Map::empty() }
    }

    /// Whether `name` is a variable, of either shape.
    pub open spec fn is_bound(self, name: Seq<char>) -> bool {
        self.numbers.contains_key(name) || self.texts.contains_key(name)
    }

    /// The value of the variable `name`: its number if it has one, else its
    /// text, else nothing.
    pub open spec fn read(self, name: Seq<char>) -> Node {
        if self.numbers.contains_key(name) {
            self.numbers[name]
        } else if self.texts.contains_key(name) {
            self.texts[name]
        } else {
            Node::Nothing
        }
    }

    /// The environment after `name` is bound to `value`: a number or a text
    /// becomes the variable's one value, whatever shape it had before; any
    /// other value binds nothing.
    pub open spec fn bind(self, name: Seq<char>, value: Node) -> Environment {
        match value {
            Node::Number(_) => Environment {
                numbers: self.numbers.insert(name, value),
                texts: self.texts.remove(name),
                ..self
            },
            Node::Text(_) => Environment {
                numbers: self.numbers.remove(name),
                texts: self.texts.insert(name, value),
                ..self
            },
            _ => self,
        }
    }

    /// The environment after `value` is assigned to `name`: as `bind` if
    /// `name` is a variable already, else unchanged.
    pub open spec fn change(self, name: Seq<char>, value: Node) -> Environment {
        if self.is_bound(name) {
            self.bind(name, value)
        } else {
            self
        }
    }

    /// The environment after the function `name` is declared: the table
    /// holds the declaration under the name, with the name in it left empty.
    pub open spec fn declare(self, name: Seq<char>, params: Seq<Seq<char>>, body: Seq<Node>)
        -> Environment {
        Environment {
            functions: self.functions.insert(
                name,
                Node::FunctionDecl(Seq::empty(), params, body),
            ),
            ..self
        }
    }

    /// The environment that a call starts with: no variables, and the
    /// caller's functions.
    pub open spec fn child(self) -> Environment {
        Environment { numbers: Map::empty(), texts: Map::empty(), functions: self.functions }
    }

    /// Whether no name is both a number variable and a text variable, every
    /// number variable holds a number and every text variable a text.
    pub open spec fn well_shaped(self) -> bool {
        &&& forall|name: Seq<char>|
            !(#[trigger] self.numbers.contains_key(name) && self.texts.contains_key(name))
        &&& forall|name: Seq<char>| #[trigger]
            self.numbers.contains_key(name) ==> self.numbers[name] is Number
        &&& forall|name: Seq<char>| #[trigger]
            self.texts.contains_key(name) ==> self.texts[name] is Text
    }
}

/// The callee's environment after the parameter `param` is bound from the
/// argument node `arg` as it was written: a number or a text literal binds
/// directly, a variable binds what it holds in the caller's environment, and
/// any other argument is not evaluated and binds nothing.
pub open spec fn bind_argument(callee: Environment, param: Seq<char>, arg: Node, caller: Environment)
    -> Environment {
    match arg {
        Node::Number(_) => callee.bind(param, arg),
        Node::Text(_) => callee.bind(param, arg),
        Node::Variable(name) => callee.bind(param, caller.read(name)),
        _ => callee,
    }
}

/// The callee's environment after the parameters from index `from` on are
/// bound, each from the argument at its position.
pub open spec fn bind_arguments(
    callee: Environment,
    params: Seq<Seq<char>>,
    args: Seq<Node>,
    caller: Environment,
    from: int,
) -> Environment
    decreases params.len() - from,
{
    if from < 0 || from >= params.len() || from >= args.len() {
        callee
    } else {
        bind_arguments(
            bind_argument(callee, params[from], args[from], caller),
            params,
            args,
            caller,
            from + 1,
        )
    }
}

/// The execution environment.
#[derive(Debug)]
pub struct ExecutionContext {
    pub n_vars: Table,
    pub s_vars: Table,
    pub functions: Table,
}

impl View for ExecutionContext {
    type V = Environment;

    open spec fn view(&self) -> Environment {
        Environment { numbers: self.n_vars@, texts: self.s_vars@, functions: self.functions@ }
    }
}

impl ExecutionContext {
    /// The environment without variables and functions.
    pub fn new() -> (r: ExecutionContext)
        ensures
            r@ == Environment::empty(),
    {
        ExecutionContext { n_vars: Table::new(), s_vars: Table::new(), functions: Table::new() }
    }

    /// Whether `name` is a variable.
    pub fn is_bound(&self, name: &String) -> (r: bool)
        ensures
            r == self@.is_bound(name@),
    {
        self.n_vars.contains(name) || self.s_vars.contains(name)
    }

    /// Reads the variable `name`. A name that is not a variable reads as
    /// nothing.
    pub fn read(&self, name: &String) -> (r: ASTNode)
        ensures
            r@ == self@.read(name@),
    {
        match self.n_vars.get(name) {
            Some(node) => node.copy(),
            None => match self.s_vars.get(name) {
                Some(node) => node.copy(),
                None => ASTNode::Nothing,
            },
        }
    }

    /// Binds `name` to `value` if `value` is a number or a text.
    pub fn bind(&mut self, name: String, value: ASTNode)
        ensures
            final(self)@ == old(self)@.bind(name@, value@),
    {
        match value {
            ASTNode::Number(_) => {
                self.s_vars.remove(&name);
                self.n_vars.put(name, value);
            },
            ASTNode::Text(_) => {
                self.n_vars.remove(&name);
                self.s_vars.put(name, value);
            },
            _ => {},
        }
    }

    /// Assigns `value` to `name` if `name` is a variable.
    pub fn change(&mut self, name: String, value: ASTNode)
        ensures
            final(self)@ == old(self)@.change(name@, value@),
    {
        if self.is_bound(&name) {
            self.bind(name, value);
        }
    }

    /// Declares the function `name`.
    pub fn declare(&mut self, name: String, params: Vec<String>, body: Vec<ASTNode>)
        ensures
            final(self)@ == old(self)@.declare(name@, names_of(params@), nodes_of(body@)),
    {
        let erased = String::new();
        self.functions.put(name, ASTNode::FunctionDecl(erased, params, body));
    }

    /// The environment that a call from this one starts with.
    pub fn child(&self) -> (r: ExecutionContext)
        ensures
            r@ == self@.child(),
    {
        ExecutionContext {
            n_vars: Table::new(),
            s_vars: Table::new(),
            functions: self.functions.copy(),
        }
    }

    /// A copy of the environment and of all that it owns.
    pub fn copy(&self) -> (r: ExecutionContext)
        ensures
            r@ == self@,
    {
        ExecutionContext {
            n_vars: self.n_vars.copy(),
            s_vars: self.s_vars.copy(),
            functions: self.functions.copy(),
        }
    }

    /// Binds the parameters of a call in `self`, the callee's environment,
    /// each from the argument written at its position, read against the
    /// caller's environment.
    pub fn bind_arguments(
        &mut self,
        params: &Vec<String>,
        args: &Vec<ASTNode>,
        caller: &ExecutionContext,
    )
        ensures
            final(self)@ == bind_arguments(
                old(self)@,
                names_of(params@),
                nodes_of(args@),
                caller@,
                0,
            ),
    {
        let ghost start = self@;
        let ghost ps = names_of(params@);
        let ghost xs = nodes_of(args@);
        let mut i: usize = 0;
        while i < params.len() && i < args.len()
            invariant
                i <= params.len(),
                i <= args.len(),
                ps == names_of(params@),
                xs == nodes_of(args@),
                bind_arguments(self@, ps, xs, caller@, i as int) == bind_arguments(
                    start,
                    ps,
                    xs,
                    caller@,
                    0,
                ),
            decreases params.len() - i,
        {
            match &args[i] {
                ASTNode::Number(n) => {
                    self.bind(params[i].clone(), ASTNode::Number(n.clone()));
                },
                ASTNode::Text(t) => {
                    self.bind(params[i].clone(), ASTNode::Text(t.clone()));
                },
                ASTNode::Variable(name) => {
                    self.bind(params[i].clone(), caller.read(name));
                },
                _ => {},
            }
            i += 1;
        }
    }
}

} // verus!
