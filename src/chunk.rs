//! Chunks: a run of comment lines together with the statement they document.
use vstd::prelude::*;
use crate::attr::{classify, ldoc_of, parse_line, AttrModel, Attribute, LineKind, LineModel};
use crate::render::{render_type, simplify};
use crate::text::{chars_of, push_all, push_str, remove_all, remove_all_chars, string_of};
use crate::tree::{child_of_field, Declaration, Field, SyntaxTree};

verus! {

/// A run of comment lines and the statement right below it.
pub struct Chunk {
    /// The free-text lines of the comment.
    pub body: Vec<String>,
    /// The lines that carry an attribute, parsed.
    pub attributes: Vec<Attribute>,
    /// The statement being documented.
    pub decl: Declaration,
}

/// The body lines and the attributes of a run of comment lines; lines that
/// are not documentation comments are left out.
pub open spec fn parsed(texts: Seq<Seq<char>>) -> (Seq<Seq<char>>, Seq<AttrModel>)
    decreases texts.len(),
{
    if texts.len() == 0 {
        (seq![], seq![])
    } else {
        let (b, a) = parsed(texts.drop_last());
        match classify(texts.last()) {
            LineModel::Attr(m) => (b, a.push(m)),
            LineModel::Body => (b.push(texts.last()), a),
            _ => (b, a),
        }
    }
}

/// None of the lines declares a type alias: aliases are taken out of the
/// text before it is parsed, so none may reach the comment parser.
pub open spec fn alias_free(texts: Seq<Seq<char>>) -> bool {
    forall|i: int| 0 <= i < texts.len() ==> !(classify(#[trigger] texts[i]) is StrayAlias)
}

pub open spec fn texts(v: Seq<String>) -> Seq<Seq<char>> {
    v.map_values(|s: String| s@)
}

pub open spec fn models(v: Seq<Attribute>) -> Seq<AttrModel> {
    v.map_values(|a: Attribute| a@)
}

/// Splits a run of comment lines into body lines and attributes.
pub fn parse_comments(comments: &Vec<String>) -> (r: (Vec<String>, Vec<Attribute>))
    requires
        alias_free(texts(comments@)),
    ensures
        parsed(texts(comments@)) == (texts(r.0@), models(r.1@)),
{
    let mut body: Vec<String> = Vec::new();
    let mut attributes: Vec<Attribute> = Vec::new();
    let mut i: usize = 0;
    while i < comments.len()
        invariant
            i <= comments.len(),
            alias_free(texts(comments@)),
            parsed(texts(comments@.take(i as int))) == (texts(body@), models(attributes@)),
        decreases comments.len() - i,
    {
        assert(texts(comments@.take(i + 1)).drop_last() =~= texts(comments@.take(i as int)));
        assert(texts(comments@.take(i + 1)).last() == comments@[i as int]@);
        let line = &comments[i];
        assert(texts(comments@)[i as int] == line@);
        let ghost b0 = body@;
        let ghost a0 = attributes@;
        match parse_line(line.as_str()) {
            LineKind::Skipped => {},
            LineKind::Attr(a) => {
                attributes.push(a);
                assert(models(attributes@) =~= models(a0).push(a@));
            },
            LineKind::Body => {
                body.push(line.clone());
                assert(texts(body@) =~= texts(b0).push(line@));
            },
            LineKind::StrayAlias => {},
        }
        i += 1;
    }
    assert(comments@.take(comments.len() as int) =~= comments@);
    (body, attributes)
}

} // verus!

verus! {

/// Whether a `ClassMod` marker is among the attributes.
pub open spec fn has_classmod(attrs: Seq<Attribute>) -> bool {
    exists|i: int| 0 <= i < attrs.len() && (#[trigger] attrs[i]@) is ClassMod
}

/// The line (with its line break) that an attribute of a chunk becomes: a
/// class is written as a `classmod` where the chunk has the marker, the
/// marker itself is never written.
pub open spec fn attr_line(a: AttrModel, cm: bool) -> Seq<char> {
    match a {
        AttrModel::ClassMod => seq![],
        AttrModel::Class { ty } => if cm {
            "---@classmod "@ + simplify(ty) + seq!['\n']
        } else {
            ldoc_of(a) + seq!['\n']
        },
        _ => ldoc_of(a) + seq!['\n'],
    }
}

pub open spec fn attrs_text(attrs: Seq<Attribute>, cm: bool) -> Seq<char>
    decreases attrs.len(),
{
    if attrs.len() == 0 {
        seq![]
    } else {
        attrs_text(attrs.drop_last(), cm) + attr_line(attrs.last()@, cm)
    }
}

/// Each body line followed by a line break.
pub open spec fn body_text(body: Seq<String>) -> Seq<char>
    decreases body.len(),
{
    if body.len() == 0 {
        seq![]
    } else {
        body_text(body.drop_last()) + body.last()@ + seq!['\n']
    }
}

/// The text of the declared statement; a function's body is left out.
pub open spec fn decl_text(t: &SyntaxTree, d: Declaration) -> Seq<char> {
    match d {
        Declaration::Function(_, n) => match child_of_field(t, n as int, Field::Body, 0) {
            Some(b) => remove_all(t.text(n as int), t.text(b)),
            None => t.text(n as int),
        },
        Declaration::Variable(_, n) => t.text(n as int),
        Declaration::Other(n) => t.text(n as int),
    }
}

/// A chunk in the target dialect: a blank line, the body lines, the
/// attribute lines, and the statement.
pub open spec fn chunk_text(t: &SyntaxTree, c: Chunk) -> Seq<char> {
    seq!['\n'] + body_text(c.body@) + attrs_text(c.attributes@, has_classmod(c.attributes@))
        + decl_text(t, c.decl) + seq!['\n']
}

fn find_classmod(attrs: &Vec<Attribute>) -> (r: bool)
    ensures
        r == has_classmod(attrs@),
{
    let mut i: usize = 0;
    while i < attrs.len()
        invariant
            i <= attrs.len(),
            forall|j: int| 0 <= j < i ==> !((#[trigger] attrs@[j])@ is ClassMod),
        decreases attrs.len() - i,
    {
        if let Attribute::ClassMod = &attrs[i] {
            return true;
        }
        i += 1;
    }
    false
}

impl Chunk {
    /// The chunk written in the target dialect.
    pub fn to_ldoc_string(&self, tree: &SyntaxTree) -> (r: String)
        requires
            tree.wf(),
            0 <= self.decl.node() < tree.nodes@.len(),
        ensures
            r@ == chunk_text(tree, *self),
    {
        let mut out: Vec<char> = Vec::new();
        out.push('\n');
        let mut i: usize = 0;
        while i < self.body.len()
            invariant
                i <= self.body.len(),
                out@ == seq!['\n'] + body_text(self.body@.take(i as int)),
            decreases self.body.len() - i,
        {
            assert(self.body@.take(i + 1).drop_last() =~= self.body@.take(i as int));
            push_str(&mut out, self.body[i].as_str());
            out.push('\n');
            i += 1;
            assert(out@ =~= seq!['\n'] + body_text(self.body@.take(i as int)));
        }
        assert(self.body@.take(self.body.len() as int) =~= self.body@);
        let ghost head = out@;
        let cm = find_classmod(&self.attributes);
        let mut k: usize = 0;
        while k < self.attributes.len()
            invariant
                k <= self.attributes.len(),
                cm == has_classmod(self.attributes@),
                out@ == head + attrs_text(self.attributes@.take(k as int), cm),
            decreases self.attributes.len() - k,
        {
            assert(self.attributes@.take(k + 1).drop_last() =~= self.attributes@.take(k as int));
            let ghost before = out@;
            let a = &self.attributes[k];
            match a {
                Attribute::ClassMod => {},
                Attribute::Class { ty } => {
                    if cm {
                        push_str(&mut out, "---@classmod ");
                        let t = render_type(&chars_of(ty.as_str()));
                        push_all(&mut out, &t);
                    } else {
                        let s = a.to_ldoc_string();
                        push_str(&mut out, s.as_str());
                    }
                    out.push('\n');
                },
                _ => {
                    let s = a.to_ldoc_string();
                    push_str(&mut out, s.as_str());
                    out.push('\n');
                },
            }
            assert(out@ =~= before + attr_line(a@, cm));
            k += 1;
        }
        assert(self.attributes@.take(self.attributes.len() as int) =~= self.attributes@);
        let n = match &self.decl {
            Declaration::Function(_, n) => *n,
            Declaration::Variable(_, n) => *n,
            Declaration::Other(n) => *n,
        };
        let whole = chars_of(tree.nodes[n].text.as_str());
        let text = match &self.decl {
            Declaration::Function(_, _) => match crate::tree::find_child_of_field(
                tree,
                n,
                Field::Body,
            ) {
                Some(b) => remove_all_chars(&whole, &chars_of(tree.nodes[b].text.as_str())),
                None => whole,
            },
            _ => whole,
        };
        push_all(&mut out, &text);
        out.push('\n');
        assert(out@ =~= chunk_text(tree, *self));
        string_of(&out)
    }
}

} // verus!
