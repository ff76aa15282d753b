use ldoc_gen::attr::{parse_line, Attribute, LineKind};
use ldoc_gen::render::render_type;

fn attr(line: &str) -> Attribute {
    match parse_line(line) {
        LineKind::Attr(a) => a,
        LineKind::Skipped => panic!("skipped: {line}"),
        LineKind::Body => panic!("body: {line}"),
        LineKind::StrayAlias => panic!("alias: {line}"),
    }
}

fn render(t: &str) -> String {
    render_type(&t.chars().collect()).into_iter().collect()
}

#[test]
fn param_with_union_and_description() {
    match attr("---@param x string|nil the x value") {
        Attribute::Param { name, ty, desc } => {
            assert_eq!(name, "x");
            assert_eq!(ty, "string|nil");
            assert_eq!(desc.as_deref(), Some("the x value"));
        }
        _ => panic!("not a param"),
    }
    assert_eq!(
        attr("---@param x string|nil the x value").to_ldoc_string(),
        "---@tparam string|nil x the x value"
    );
}

#[test]
fn param_of_function_type_collapses() {
    let a = attr("---@param cb fun(a: number): boolean");
    match &a {
        Attribute::Param { name, ty, desc } => {
            assert_eq!(name, "cb");
            assert_eq!(ty, "fun(a: number): boolean");
            assert!(desc.is_none());
        }
        _ => panic!("not a param"),
    }
    assert_eq!(a.to_ldoc_string(), "---@tparam function cb");
}

#[test]
fn param_optional_marker_becomes_nil_union() {
    assert_eq!(attr("--- @param  opts table?  the options").to_ldoc_string(), "---@tparam table|nil opts the options");
    assert_eq!(attr("---@param n integer?").to_ldoc_string(), "---@tparam integer|nil n");
}

#[test]
fn param_nested_types() {
    match attr("---@param m table<string, fun(x: integer): string[]>|nil map") {
        Attribute::Param { name, ty, desc } => {
            assert_eq!(name, "m");
            assert_eq!(ty, "table<string, fun(x: integer): string[]>|nil");
            assert_eq!(desc.as_deref(), Some("map"));
        }
        _ => panic!("not a param"),
    }
    match attr("---@param t { a: { b: number } } nested") {
        Attribute::Param { ty, desc, .. } => {
            assert_eq!(ty, "{ a: { b: number } }");
            assert_eq!(desc.as_deref(), Some("nested"));
        }
        _ => panic!("not a param"),
    }
    match attr("---@param ... (string | number)[] rest") {
        Attribute::Param { name, ty, desc } => {
            assert_eq!(name, "...");
            assert_eq!(ty, "(string | number)[]");
            assert_eq!(desc.as_deref(), Some("rest"));
        }
        _ => panic!("not a param"),
    }
}

#[test]
fn table_literal_param_renders_as_table() {
    assert_eq!(attr("---@param t { a: number } x").to_ldoc_string(), "---@tparam table t x");
}

#[test]
fn return_with_name_and_description() {
    match attr("---@return boolean? ok whether it worked") {
        Attribute::Return { ty, name, desc } => {
            assert_eq!(ty, "boolean?");
            assert_eq!(name.as_deref(), Some("ok"));
            assert_eq!(desc.as_deref(), Some("whether it worked"));
        }
        _ => panic!("not a return"),
    }
    assert_eq!(
        attr("---@return boolean? ok whether it worked").to_ldoc_string(),
        "---@treturn boolean|nil whether it worked"
    );
    assert_eq!(attr("---@return string").to_ldoc_string(), "---@treturn string");
}

#[test]
fn see_class_classmod_nodoc() {
    match attr("---@see awful.client the client module") {
        Attribute::See { link, desc } => {
            assert_eq!(link, "awful.client");
            assert_eq!(desc.as_deref(), Some("the client module"));
        }
        _ => panic!("not a see"),
    }
    assert_eq!(attr("---@see foo").to_ldoc_string(), "---@see foo");
    assert_eq!(attr("---@class Foo").to_ldoc_string(), "---\n---@module Foo");
    assert!(matches!(attr("---@classmod"), Attribute::ClassMod));
    assert!(matches!(attr("---@nodoc"), Attribute::NoDoc));
    assert_eq!(attr("---@classmod").to_ldoc_string(), "---@classmod");
}

#[test]
fn non_attribute_lines() {
    assert!(matches!(parse_line("--- Some summary text"), LineKind::Body));
    assert!(matches!(parse_line("---@param"), LineKind::Body));
    assert!(matches!(parse_line("-- plain comment"), LineKind::Skipped));
    assert!(matches!(parse_line("---@alias Mode string"), LineKind::StrayAlias));
}

#[test]
fn render_plain_types() {
    assert_eq!(render("string?"), "string|nil");
    assert_eq!(render(" a | b ?"), "a|b|nil");
    assert_eq!(render(&render(" a | b ?")), render(" a | b ?"));
    assert_eq!(render("table<string, integer>"), "table<string,integer>");
}

#[test]
fn render_collapses_function_and_table() {
    assert_eq!(render("{ a: { b: c } }"), "table");
    assert_eq!(render("fun(a: fun(): x): fun(): y"), "function");
    assert_eq!(render(&render("{x}")), "table");
    assert_eq!(render(&render("fun()")), "function");
}
