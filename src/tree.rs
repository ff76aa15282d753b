//! The statements of a source file as the structural parser hands them over,
//! and what a statement declares.
use vstd::prelude::*;

verus! {

/// The kinds of syntax node that the logic tells apart.
#[derive(PartialEq, Eq, Structural, Clone, Copy, Debug)]
pub enum NodeKind {
    Comment,
    VariableDeclaration,
    AssignmentStatement,
    VariableList,
    ExpressionList,
    FunctionDeclaration,
    /// An anonymous function: `function(...) ... end`.
    FunctionDefinition,
    Identifier,
    /// `a.b` or `a:b`.
    IndexExpression,
    Other,
}

/// The field under which a node stands in its parent.
#[derive(PartialEq, Eq, Structural, Clone, Copy, Debug)]
pub enum Field {
    Name,
    Table,
    Body,
    Value,
    Other,
}

/// One node of a syntax tree: its kind, its field in its parent, its text,
/// the line it starts on, and its children as indices into the tree.
pub struct SyntaxNode {
    pub kind: NodeKind,
    pub field: Field,
    pub text: String,
    pub start_row: usize,
    pub children: Vec<usize>,
}

/// A syntax tree held as a list of nodes; the root is node 0.
pub struct SyntaxTree {
    pub nodes: Vec<SyntaxNode>,
}

impl SyntaxTree {
    /// Node 0 exists and every child index names a node.
    pub open spec fn wf(&self) -> bool {
        &&& self.nodes@.len() > 0
        &&& forall|n: int, k: int|
            0 <= n < self.nodes@.len() && 0 <= k < self.nodes@[n].children@.len()
                ==> #[trigger] self.nodes@[n].children@[k] < self.nodes@.len()
    }

    pub open spec fn kind(&self, n: int) -> NodeKind {
        self.nodes@[n].kind
    }

    pub open spec fn kids(&self, n: int) -> Seq<usize> {
        self.nodes@[n].children@
    }

    pub open spec fn text(&self, n: int) -> Seq<char> {
        self.nodes@[n].text@
    }

    pub open spec fn row(&self, n: int) -> int {
        self.nodes@[n].start_row as int
    }
}

/// The first child of `n`, from the `i`-th on, that has kind `k`.
pub open spec fn child_of_kind(t: &SyntaxTree, n: int, k: NodeKind, i: int) -> Option<int>
    decreases t.kids(n).len() - i,
{
    if i < 0 || i >= t.kids(n).len() {
        None
    } else if t.kind(t.kids(n)[i] as int) == k {
        Some(t.kids(n)[i] as int)
    } else {
        child_of_kind(t, n, k, i + 1)
    }
}

/// The first child of `n`, from the `i`-th on, that stands under field `f`.
pub open spec fn child_of_field(t: &SyntaxTree, n: int, f: Field, i: int) -> Option<int>
    decreases t.kids(n).len() - i,
{
    if i < 0 || i >= t.kids(n).len() {
        None
    } else if t.nodes@[t.kids(n)[i] as int].field == f {
        Some(t.kids(n)[i] as int)
    } else {
        child_of_field(t, n, f, i + 1)
    }
}

fn find_child_of_kind(t: &SyntaxTree, n: usize, k: NodeKind) -> (r: Option<usize>)
    requires
        t.wf(),
        n < t.nodes@.len(),
    ensures
        match r {
            Some(c) => child_of_kind(t, n as int, k, 0) == Some(c as int) && c < t.nodes@.len(),
            None => child_of_kind(t, n as int, k, 0) is None,
        },
{
    let kids = &t.nodes[n].children;
    let mut i: usize = 0;
    while i < kids.len()
        invariant
            t.wf(),
            n < t.nodes@.len(),
            kids@ == t.kids(n as int),
            i <= kids.len(),
            child_of_kind(t, n as int, k, i as int) == child_of_kind(t, n as int, k, 0),
        decreases kids.len() - i,
    {
        let c = kids[i];
        assert(c < t.nodes@.len()) by {
            assert(t.nodes@[n as int].children@[i as int] == c);
        }
        if t.nodes[c].kind == k {
            return Some(c);
        }
        i += 1;
    }
    None
}

pub fn find_child_of_field(t: &SyntaxTree, n: usize, f: Field) -> (r: Option<usize>)
    requires
        t.wf(),
        n < t.nodes@.len(),
    ensures
        match r {
            Some(c) => child_of_field(t, n as int, f, 0) == Some(c as int) && c < t.nodes@.len(),
            None => child_of_field(t, n as int, f, 0) is None,
        },
{
    let kids = &t.nodes[n].children;
    let mut i: usize = 0;
    while i < kids.len()
        invariant
            t.wf(),
            n < t.nodes@.len(),
            kids@ == t.kids(n as int),
            i <= kids.len(),
            child_of_field(t, n as int, f, i as int) == child_of_field(t, n as int, f, 0),
        decreases kids.len() - i,
    {
        let c = kids[i];
        assert(c < t.nodes@.len()) by {
            assert(t.nodes@[n as int].children@[i as int] == c);
        }
        if t.nodes[c].field == f {
            return Some(c);
        }
        i += 1;
    }
    None
}

/// What a statement declares, with the index of its node.
pub enum Declaration {
    /// A function, with the name it is filed under: its own for a plain
    /// name, the table's for `T.f` or `T:f`, none where neither resolves.
    Function(Option<String>, usize),
    /// A variable, named by its first target.
    Variable(String, usize),
    Other(usize),
}

pub enum DeclModel {
    Function(Option<Seq<char>>, int),
    Variable(Seq<char>, int),
    Other(int),
}

impl View for Declaration {
    type V = DeclModel;

    open spec fn view(&self) -> DeclModel {
        match self {
            Declaration::Function(Some(s), n) => DeclModel::Function(Some(s@), *n as int),
            Declaration::Function(None, n) => DeclModel::Function(None, *n as int),
            Declaration::Variable(s, n) => DeclModel::Variable(s@, *n as int),
            Declaration::Other(n) => DeclModel::Other(*n as int),
        }
    }
}

impl Declaration {
    pub open spec fn node(&self) -> int {
        match self {
            Declaration::Function(_, n) => *n as int,
            Declaration::Variable(_, n) => *n as int,
            Declaration::Other(n) => *n as int,
        }
    }

    /// The name under which the declaration is filed, if it has one.
    pub open spec fn name(&self) -> Option<Seq<char>> {
        match self {
            Declaration::Function(Some(s), _) => Some(s@),
            Declaration::Function(None, _) => None,
            Declaration::Variable(s, _) => Some(s@),
            Declaration::Other(_) => None,
        }
    }
}

/// The name that a variable list declares: the text of its `name` field.
pub open spec fn list_name(t: &SyntaxTree, vl: int) -> Option<Seq<char>> {
    match child_of_field(t, vl, Field::Name, 0) {
        Some(c) => Some(t.text(c)),
        None => None,
    }
}

/// The variable that a node declares through a variable list among its children.
pub open spec fn var_of(t: &SyntaxTree, n: int) -> Option<Seq<char>> {
    match child_of_kind(t, n, NodeKind::VariableList, 0) {
        Some(vl) => list_name(t, vl),
        None => None,
    }
}

/// The name of a function declaration, when it has a `name` field.
pub open spec fn fun_name(t: &SyntaxTree, n: int) -> Option<Option<Seq<char>>> {
    match child_of_field(t, n, Field::Name, 0) {
        Some(c) => Some(
            if t.kind(c) == NodeKind::IndexExpression {
                match child_of_field(t, c, Field::Table, 0) {
                    Some(tb) => Some(t.text(tb)),
                    None => None,
                }
            } else if t.kind(c) == NodeKind::Identifier {
                Some(t.text(c))
            } else {
                None
            },
        ),
        None => None,
    }
}

/// Where `a` assigns a function to a field of a table (`M.f = function() end`),
/// the name of that table, if it resolves.
pub open spec fn method_of(t: &SyntaxTree, a: int) -> Option<Option<Seq<char>>> {
    match (child_of_kind(t, a, NodeKind::VariableList, 0), child_of_kind(
        t,
        a,
        NodeKind::ExpressionList,
        0,
    )) {
        (Some(vl), Some(el)) => match (child_of_field(t, vl, Field::Name, 0), child_of_field(
            t,
            el,
            Field::Value,
            0,
        )) {
            (Some(nm), Some(v)) => if t.kind(nm) == NodeKind::IndexExpression && t.kind(v)
                == NodeKind::FunctionDefinition {
                Some(
                    match child_of_field(t, nm, Field::Table, 0) {
                        Some(tb) => Some(t.text(tb)),
                        None => None,
                    },
                )
            } else {
                None
            },
            _ => None,
        },
        _ => None,
    }
}

/// What statement `n` declares through the assignment `a`: a method
/// definition declares a function filed under its table, any other
/// assignment the variable it names first.
pub open spec fn assign_decl(t: &SyntaxTree, a: int, n: int) -> DeclModel {
    match method_of(t, a) {
        Some(name) => DeclModel::Function(name, n),
        None => match var_of(t, a) {
            Some(s) => DeclModel::Variable(s, n),
            None => DeclModel::Other(n),
        },
    }
}

/// What node `n` declares.
pub open spec fn decl_of(t: &SyntaxTree, n: int) -> DeclModel {
    let k = t.kind(n);
    if k == NodeKind::VariableDeclaration {
        match child_of_kind(t, n, NodeKind::AssignmentStatement, 0) {
            Some(a) => assign_decl(t, a, n),
            None => assign_decl(t, n, n),
        }
    } else if k == NodeKind::AssignmentStatement {
        assign_decl(t, n, n)
    } else if k == NodeKind::FunctionDeclaration {
        match fun_name(t, n) {
            Some(name) => DeclModel::Function(name, n),
            None => DeclModel::Other(n),
        }
    } else {
        DeclModel::Other(n)
    }
}

fn method_table(t: &SyntaxTree, a: usize) -> (r: Option<Option<String>>)
    requires
        t.wf(),
        a < t.nodes@.len(),
    ensures
        match r {
            Some(Some(s)) => method_of(t, a as int) == Some(Some(s@)),
            Some(None) => method_of(t, a as int) == Some(None::<Seq<char>>),
            None => method_of(t, a as int) is None,
        },
{
    let vl = find_child_of_kind(t, a, NodeKind::VariableList)?;
    let el = find_child_of_kind(t, a, NodeKind::ExpressionList)?;
    let nm = find_child_of_field(t, vl, Field::Name)?;
    let v = find_child_of_field(t, el, Field::Value)?;
    if t.nodes[nm].kind == NodeKind::IndexExpression && t.nodes[v].kind
        == NodeKind::FunctionDefinition {
        match find_child_of_field(t, nm, Field::Table) {
            Some(tb) => Some(Some(t.nodes[tb].text.clone())),
            None => Some(None),
        }
    } else {
        None
    }
}

fn assignment_decl(t: &SyntaxTree, a: usize, n: usize) -> (r: Declaration)
    requires
        t.wf(),
        a < t.nodes@.len(),
    ensures
        r@ == assign_decl(t, a as int, n as int),
        r.node() == n,
{
    match method_table(t, a) {
        Some(name) => Declaration::Function(name, n),
        None => match var_name(t, a) {
            Some(s) => Declaration::Variable(s, n),
            None => Declaration::Other(n),
        },
    }
}

fn var_name(t: &SyntaxTree, n: usize) -> (r: Option<String>)
    requires
        t.wf(),
        n < t.nodes@.len(),
    ensures
        match r {
            Some(s) => var_of(t, n as int) == Some(s@),
            None => var_of(t, n as int) is None,
        },
{
    let vl = find_child_of_kind(t, n, NodeKind::VariableList)?;
    let c = find_child_of_field(t, vl, Field::Name)?;
    Some(t.nodes[c].text.clone())
}

/// Classifies the statement at node `n`.
pub fn node_to_decl(t: &SyntaxTree, n: usize) -> (r: Declaration)
    requires
        t.wf(),
        n < t.nodes@.len(),
    ensures
        r@ == decl_of(t, n as int),
        r.node() == n,
{
    let k = t.nodes[n].kind;
    if k == NodeKind::VariableDeclaration {
        let target = match find_child_of_kind(t, n, NodeKind::AssignmentStatement) {
            Some(a) => a,
            None => n,
        };
        assignment_decl(t, target, n)
    } else if k == NodeKind::AssignmentStatement {
        assignment_decl(t, n, n)
    } else if k == NodeKind::FunctionDeclaration {
        match find_child_of_field(t, n, Field::Name) {
            Some(c) => {
                let ck = t.nodes[c].kind;
                if ck == NodeKind::IndexExpression {
                    match find_child_of_field(t, c, Field::Table) {
                        Some(tb) => Declaration::Function(Some(t.nodes[tb].text.clone()), n),
                        None => Declaration::Function(None, n),
                    }
                } else if ck == NodeKind::Identifier {
                    Declaration::Function(Some(t.nodes[c].text.clone()), n)
                } else {
                    Declaration::Function(None, n)
                }
            },
            None => Declaration::Other(n),
        }
    } else {
        Declaration::Other(n)
    }
}

} // verus!
