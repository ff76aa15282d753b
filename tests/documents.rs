use ldoc_gen::alias::{extract_alias, parse_alias, remove_type_tags};
use ldoc_gen::assemble::find_stray_alias;
use ldoc_gen::assemble::collect_runs;
use ldoc_gen::attr::Attribute;
use ldoc_gen::examples::replace_examples;
use ldoc_gen::group::document;
use ldoc_gen::tree::{node_to_decl, Declaration, Field, NodeKind, SyntaxNode, SyntaxTree};

struct Builder {
    nodes: Vec<SyntaxNode>,
}

impl Builder {
    fn new() -> Self {
        Builder {
            nodes: vec![SyntaxNode {
                kind: NodeKind::Other,
                field: Field::Other,
                text: String::new(),
                start_row: 0,
                children: vec![],
            }],
        }
    }

    fn add(&mut self, parent: usize, kind: NodeKind, field: Field, text: &str, row: usize) -> usize {
        let i = self.nodes.len();
        self.nodes.push(SyntaxNode { kind, field, text: text.to_string(), start_row: row, children: vec![] });
        self.nodes[parent].children.push(i);
        i
    }

    fn comment(&mut self, text: &str, row: usize) -> usize {
        self.add(0, NodeKind::Comment, Field::Other, text, row)
    }

    /// `function T.f() end` on one line.
    fn method(&mut self, table: &str, f: &str, row: usize) -> usize {
        let text = format!("function {table}.{f}() end");
        let n = self.add(0, NodeKind::FunctionDeclaration, Field::Other, &text, row);
        let name = self.add(n, NodeKind::IndexExpression, Field::Name, &format!("{table}.{f}"), row);
        self.add(name, NodeKind::Identifier, Field::Table, table, row);
        self.add(name, NodeKind::Identifier, Field::Other, f, row);
        n
    }

    /// `local name = {}`.
    fn local(&mut self, name: &str, row: usize) -> usize {
        let n = self.add(0, NodeKind::VariableDeclaration, Field::Other, &format!("local {name} = {{}}"), row);
        let a = self.add(n, NodeKind::AssignmentStatement, Field::Other, &format!("{name} = {{}}"), row);
        let vl = self.add(a, NodeKind::VariableList, Field::Other, name, row);
        self.add(vl, NodeKind::Identifier, Field::Name, name, row);
        n
    }

    fn tree(self) -> SyntaxTree {
        SyntaxTree { nodes: self.nodes }
    }
}

#[test]
fn blank_line_breaks_association() {
    let mut b = Builder::new();
    b.comment("--- doc", 0);
    b.method("M", "f", 2);
    let t = b.tree();
    assert_eq!(collect_runs(&t).len(), 0);
    assert_eq!(document(&t), "");

    let mut b = Builder::new();
    b.comment("--- doc", 0);
    b.method("M", "f", 1);
    let t = b.tree();
    assert_eq!(collect_runs(&t).len(), 1);
    assert_eq!(document(&t), "\n--- doc\nfunction M.f() end\n");
}

#[test]
fn gap_between_comments_restarts_the_run() {
    let mut b = Builder::new();
    b.comment("--- first", 0);
    b.comment("--- second", 2);
    b.method("M", "f", 3);
    let runs = collect_runs(&b.tree());
    assert_eq!(runs.len(), 1);
    assert_eq!(runs[0].comments.len(), 1);
}

#[test]
fn classmod_section() {
    let mut b = Builder::new();
    b.comment("---@class Foo", 0);
    b.comment("---@classmod", 1);
    b.method("Foo", "bar", 2);
    let out = document(&b.tree());
    assert!(out.starts_with("\n---@classmod Foo\n"));
    assert!(!out.contains("@module"));
    assert_eq!(out, "\n---@classmod Foo\nfunction Foo.bar() end\n");
}

#[test]
fn unowned_members_keep_their_order() {
    let mut b = Builder::new();
    b.comment("--- a", 0);
    b.method("Foo", "a", 1);
    b.comment("--- b", 3);
    b.method("Bar", "b", 4);
    let out = document(&b.tree());
    assert_eq!(out, "\n--- a\nfunction Foo.a() end\n\n--- b\nfunction Bar.b() end\n");
}

#[test]
fn members_follow_their_module() {
    let mut b = Builder::new();
    b.comment("--- helper", 0);
    b.method("M", "helper", 1);
    b.comment("--- free", 3);
    b.method("X", "free", 4);
    b.comment("---@class M", 6);
    b.local("M", 7);
    b.comment("---@nodoc", 9);
    b.method("M", "hidden", 10);
    let out = document(&b.tree());
    assert_eq!(
        out,
        "\n---\n---@module M\nlocal M = {}\n\n--- helper\nfunction M.helper() end\n\n--- free\nfunction X.free() end\n"
    );
}

#[test]
fn declaration_names() {
    let mut b = Builder::new();
    let f = b.method("M", "f", 0);
    let v = b.local("x", 1);
    let t = b.tree();
    assert!(matches!(node_to_decl(&t, f), Declaration::Function(Some(ref n), _) if n == "M"));
    assert!(matches!(node_to_decl(&t, v), Declaration::Variable(ref n, _) if n == "x"));
    assert!(matches!(node_to_decl(&t, 0), Declaration::Other(0)));
}

#[test]
fn function_body_is_left_out() {
    let mut b = Builder::new();
    b.comment("---@param x number the x", 0);
    let n = b.add(0, NodeKind::FunctionDeclaration, Field::Other, "function f(x)\n  return x\nend", 1);
    b.add(n, NodeKind::Identifier, Field::Name, "f", 1);
    b.add(n, NodeKind::Other, Field::Body, "return x", 2);
    let out = document(&b.tree());
    assert_eq!(out, "\n---@tparam number x the x\nfunction f(x)\n  \nend\n");
}

#[test]
fn stray_alias_is_found() {
    let mut b = Builder::new();
    b.comment("---@alias Mode string", 0);
    b.method("M", "f", 1);
    let t = b.tree();
    let n = find_stray_alias(&t).unwrap();
    assert_eq!(t.nodes[n].text, "---@alias Mode string");

    let mut b = Builder::new();
    b.comment("---@param x number", 0);
    b.method("M", "f", 1);
    assert!(find_stray_alias(&b.tree()).is_none());
}

#[test]
fn alias_blocks_are_extracted() {
    let mut s = String::from("---@alias Mode \"a\"\n---| \"b\" # second\n---|  string?\nlocal x = 1\n---@alias N integer\n");
    let found = extract_alias(&mut s);
    assert_eq!(s, "local x = 1\n");
    assert_eq!(found.len(), 2);
    match &found[0] {
        Attribute::Alias { types } => assert_eq!(types, "\"a\"|\"b\"|string?"),
        _ => panic!("not an alias"),
    }
    match &found[1] {
        Attribute::Alias { types } => assert_eq!(types, "integer"),
        _ => panic!("not an alias"),
    }
}

#[test]
fn text_without_alias_is_unchanged() {
    let mut s = String::from("---@param x number\n---| not after an alias\n");
    let found = extract_alias(&mut s);
    assert_eq!(found.len(), 0);
    assert_eq!(s, "---@param x number\n---| not after an alias\n");
}

#[test]
fn example_block_becomes_usage() {
    let mut s = String::from("--- Doc\n--- ### Examples\n---\n--- ```lua\n--- foo()\n--- ```\nfunction x() end\n");
    replace_examples(&mut s);
    assert_eq!(s, "--- Doc\n---@usage\n--- foo()\nfunction x() end\n");
}

#[test]
fn two_example_blocks_are_rewritten_apart() {
    let mut s = String::from(
        "--- # example\n--- ```\n--- a()\n--- ```\n--- middle\n--- ## Example\n--- ```\n--- b()\n--- ```\n",
    );
    replace_examples(&mut s);
    assert_eq!(s, "---@usage\n--- a()\n--- middle\n---@usage\n--- b()\n");
}

#[test]
fn heading_without_fence_stays() {
    let mut s = String::from("--- ###### Examples\n--- ```\n--- a\n--- ```\n--- # Examples\ntext\n");
    replace_examples(&mut s);
    assert_eq!(s, "--- ###### Examples\n--- ```\n--- a\n--- ```\n--- # Examples\ntext\n");
}

#[test]
fn alias_block_is_parsed_from_its_first_line() {
    let s: Vec<char> = "x\n---@alias Kind fun(a: number)\n--- | { a: b }  -- table form\nlocal y\n".chars().collect();
    assert!(parse_alias(&s, 0).is_none());
    let (end, alias) = parse_alias(&s, 2).unwrap();
    assert_eq!(s[end..].iter().collect::<String>(), "local y\n");
    match alias {
        Attribute::Alias { types } => assert_eq!(types, "fun(a:number)|{a:b}"),
        _ => panic!("not an alias"),
    }
}

#[test]
fn extracted_text_holds_no_alias_line() {
    let mut s = String::from("--- doc\n---@alias A string\n---@alias B number\n---| nil\nfunction f() end\n");
    let found = extract_alias(&mut s);
    assert_eq!(found.len(), 2);
    assert_eq!(s, "--- doc\nfunction f() end\n");
    assert!(!s.contains("@alias"));
}

#[test]
fn method_definition_is_filed_under_its_table() {
    let mut b = Builder::new();
    b.comment("---@class M", 0);
    b.local("M", 1);
    b.comment("--- does foo", 3);
    let a = b.add(0, NodeKind::AssignmentStatement, Field::Other, "M.foo = function() end", 4);
    let vl = b.add(a, NodeKind::VariableList, Field::Other, "M.foo", 4);
    let nm = b.add(vl, NodeKind::IndexExpression, Field::Name, "M.foo", 4);
    b.add(nm, NodeKind::Identifier, Field::Table, "M", 4);
    let el = b.add(a, NodeKind::ExpressionList, Field::Other, "function() end", 4);
    b.add(el, NodeKind::FunctionDefinition, Field::Value, "function() end", 4);
    b.comment("--- unrelated", 6);
    b.local("y", 7);
    let t = b.tree();
    assert!(matches!(node_to_decl(&t, a), Declaration::Function(Some(ref n), _) if n == "M"));
    assert_eq!(
        document(&t),
        "\n---\n---@module M\nlocal M = {}\n\n--- does foo\nM.foo = function() end\n\n--- unrelated\nlocal y = {}\n"
    );
}

#[test]
fn plain_field_assignment_is_a_variable() {
    let mut b = Builder::new();
    let a = b.add(0, NodeKind::AssignmentStatement, Field::Other, "M.x = 1", 0);
    let vl = b.add(a, NodeKind::VariableList, Field::Other, "M.x", 0);
    let nm = b.add(vl, NodeKind::IndexExpression, Field::Name, "M.x", 0);
    b.add(nm, NodeKind::Identifier, Field::Table, "M", 0);
    let el = b.add(a, NodeKind::ExpressionList, Field::Other, "1", 0);
    b.add(el, NodeKind::Other, Field::Value, "1", 0);
    let t = b.tree();
    assert!(matches!(node_to_decl(&t, a), Declaration::Variable(ref n, _) if n == "M.x"));
}

#[test]
fn upper_case_example_heading_is_rewritten() {
    let mut s = String::from("--- ## EXAMPLES\n--- ```\n--- a()\n--- ```\n");
    replace_examples(&mut s);
    assert_eq!(s, "---@usage\n--- a()\n");
    let mut s = String::from("--- # eXaMpLe\n--- ```\n--- b()\n--- ```\n");
    replace_examples(&mut s);
    assert_eq!(s, "---@usage\n--- b()\n");
}

#[test]
fn type_tags_are_removed() {
    let mut s = String::from("---@type number\nlocal x = 1 ---@type string\n");
    remove_type_tags(&mut s);
    assert_eq!(s, "--- number\nlocal x = 1 --- string\n");
}
