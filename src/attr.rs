//! Attributes: the structured facts that single comment lines carry, how a
//! comment line is recognised as one, and how each is written in the target
//! dialect.
use vstd::prelude::*;
use crate::render::{render_type, simplify};
use crate::text::{chars_of, has_lit, lit_at, push_all, push_str, slice_chars, string_of};
use crate::typexpr::{
    char_at, ident_end, ident_end_from, same_pos, skip_blanks, skip_blanks_from, type_end,
    type_end_from, word_end,
    word_end_from,
};

verus! {

/// One attribute of a documentation comment.
pub enum Attribute {
    Param { name: String, ty: String, desc: Option<String> },
    Return { ty: String, name: Option<String>, desc: Option<String> },
    Class { ty: String },
    ClassMod,
    See { link: String, desc: Option<String> },
    Alias { types: String },
    NoDoc,
}

/// An attribute with its texts as character sequences.
pub enum AttrModel {
    Param { name: Seq<char>, ty: Seq<char>, desc: Option<Seq<char>> },
    Return { ty: Seq<char>, name: Option<Seq<char>>, desc: Option<Seq<char>> },
    Class { ty: Seq<char> },
    ClassMod,
    See { link: Seq<char>, desc: Option<Seq<char>> },
    Alias { types: Seq<char> },
    NoDoc,
}

pub open spec fn opt_text(o: Option<String>) -> Option<Seq<char>> {
    match o {
        Some(s) => Some(s@),
        None => None,
    }
}

impl View for Attribute {
    type V = AttrModel;

    open spec fn view(&self) -> AttrModel {
        match self {
            Attribute::Param { name, ty, desc } => AttrModel::Param {
                name: name@,
                ty: ty@,
                desc: opt_text(*desc),
            },
            Attribute::Return { ty, name, desc } => AttrModel::Return {
                ty: ty@,
                name: opt_text(*name),
                desc: opt_text(*desc),
            },
            Attribute::Class { ty } => AttrModel::Class { ty: ty@ },
            Attribute::ClassMod => AttrModel::ClassMod,
            Attribute::See { link, desc } => AttrModel::See { link: link@, desc: opt_text(*desc) },
            Attribute::Alias { types } => AttrModel::Alias { types: types@ },
            Attribute::NoDoc => AttrModel::NoDoc,
        }
    }
}

/// A description as it follows a rendered attribute: a space and the text.
pub open spec fn desc_text(d: Option<Seq<char>>) -> Seq<char> {
    match d {
        Some(x) => seq![' '] + x,
        None => seq![],
    }
}

/// How an attribute is written in the target dialect.
pub open spec fn ldoc_of(a: AttrModel) -> Seq<char> {
    match a {
        AttrModel::Param { name, ty, desc } => "---@tparam "@ + simplify(ty) + seq![' '] + name
            + desc_text(desc),
        AttrModel::Return { ty, name, desc } => "---@treturn "@ + simplify(ty) + desc_text(desc),
        AttrModel::Class { ty } => "---\n---@module "@ + simplify(ty),
        AttrModel::ClassMod => "---@classmod"@,
        AttrModel::See { link, desc } => "---@see "@ + link,
        AttrModel::Alias { types } => seq![],
        AttrModel::NoDoc => seq![],
    }
}

fn push_desc(out: &mut Vec<char>, desc: &Option<String>)
    ensures
        final(out)@ == old(out)@ + desc_text(opt_text(*desc)),
{
    match desc {
        Some(d) => {
            out.push(' ');
            let v = chars_of(d.as_str());
            push_all(out, &v);
            assert(final(out)@ =~= old(out)@ + desc_text(opt_text(*desc)));
        },
        None => {
            assert(final(out)@ =~= old(out)@ + desc_text(opt_text(*desc)));
        },
    }
}

impl Attribute {
    /// The attribute as a line (or, for a class, two lines) of the target dialect.
    pub fn to_ldoc_string(&self) -> (r: String)
        ensures
            r@ == ldoc_of(self@),
    {
        let mut out: Vec<char> = Vec::new();
        match self {
            Attribute::Param { name, ty, desc } => {
                push_str(&mut out, "---@tparam ");
                let t = render_type(&chars_of(ty.as_str()));
                push_all(&mut out, &t);
                out.push(' ');
                push_str(&mut out, name.as_str());
                push_desc(&mut out, desc);
                assert(out@ =~= ldoc_of(self@));
            },
            Attribute::Return { ty, name: _, desc } => {
                push_str(&mut out, "---@treturn ");
                let t = render_type(&chars_of(ty.as_str()));
                push_all(&mut out, &t);
                push_desc(&mut out, desc);
                assert(out@ =~= ldoc_of(self@));
            },
            Attribute::Class { ty } => {
                push_str(&mut out, "---\n---@module ");
                let t = render_type(&chars_of(ty.as_str()));
                push_all(&mut out, &t);
                assert(out@ =~= ldoc_of(self@));
            },
            Attribute::ClassMod => {
                push_str(&mut out, "---@classmod");
                assert(out@ =~= ldoc_of(self@));
            },
            Attribute::See { link, desc: _ } => {
                push_str(&mut out, "---@see ");
                push_str(&mut out, link.as_str());
                assert(out@ =~= ldoc_of(self@));
            },
            Attribute::Alias { types: _ } => {
                assert(out@ =~= ldoc_of(self@));
            },
            Attribute::NoDoc => {
                assert(out@ =~= ldoc_of(self@));
            },
        }
        string_of(&out)
    }
}

} // verus!

verus! {

/// After the comment marker `---` and blanks, the index past `tag` (such as
/// `@param`), if the line begins so.
pub open spec fn tag_end(l: Seq<char>, tag: Seq<char>) -> Option<int> {
    let k0 = skip_blanks(l, 0);
    let k1 = skip_blanks(l, k0 + 3);
    if lit_at(l, k0, "---"@) && lit_at(l, k1, tag) {
        Some(k1 + tag.len())
    } else {
        None
    }
}

/// The first index past `p` after a run of at least one blank, if a blank follows `p`.
pub open spec fn after_blanks(l: Seq<char>, p: int) -> Option<int> {
    if skip_blanks(l, p) > p {
        Some(skip_blanks(l, p))
    } else {
        None
    }
}

/// The free text after the last grammar token that ends at `t`: what
/// follows the first run of blanks, if there is such a run and text after it.
pub open spec fn desc_after(l: Seq<char>, t: int) -> Option<Seq<char>> {
    let k = skip_blanks(l, t);
    if t < k < l.len() {
        Some(l.subrange(k, l.len() as int))
    } else {
        None
    }
}

/// `---@param <name> <type> [description]`
pub open spec fn param_line(l: Seq<char>) -> Option<AttrModel> {
    match tag_end(l, "@param"@) {
        Some(p) => match after_blanks(l, p) {
            Some(b) => match ident_end(l, b) {
                Some(n) => match after_blanks(l, n) {
                    Some(c) => match type_end(l, c) {
                        Some(t) => Some(
                            AttrModel::Param {
                                name: l.subrange(b, n),
                                ty: l.subrange(c, t),
                                desc: desc_after(l, t),
                            },
                        ),
                        None => None,
                    },
                    None => None,
                },
                None => None,
            },
            None => None,
        },
        None => None,
    }
}

/// `---@return <type> [<name> [description]]`
pub open spec fn return_line(l: Seq<char>) -> Option<AttrModel> {
    match tag_end(l, "@return"@) {
        Some(p) => match after_blanks(l, p) {
            Some(b) => match type_end(l, b) {
                Some(t) => {
                    let k = skip_blanks(l, t);
                    let w = word_end(l, k);
                    if k > t && w > k {
                        Some(
                            AttrModel::Return {
                                ty: l.subrange(b, t),
                                name: Some(l.subrange(k, w)),
                                desc: desc_after(l, w),
                            },
                        )
                    } else {
                        Some(AttrModel::Return { ty: l.subrange(b, t), name: None, desc: None })
                    }
                },
                None => None,
            },
            None => None,
        },
        None => None,
    }
}

/// The end of a link: a word, optionally followed by `.` and a second word.
pub open spec fn link_end(l: Seq<char>, w: int) -> int {
    if char_at(l, w, '.') && word_end(l, w + 1) > w + 1 {
        word_end(l, w + 1)
    } else {
        w
    }
}

/// `---@see <link> [description]`
pub open spec fn see_line(l: Seq<char>) -> Option<AttrModel> {
    match tag_end(l, "@see"@) {
        Some(p) => match after_blanks(l, p) {
            Some(b) => if word_end(l, b) > b {
                Some(
                    AttrModel::See {
                        link: l.subrange(b, link_end(l, word_end(l, b))),
                        desc: desc_after(l, link_end(l, word_end(l, b))),
                    },
                )
            } else {
                None
            },
            None => None,
        },
        None => None,
    }
}

/// `---@class <name>`
pub open spec fn class_line(l: Seq<char>) -> Option<AttrModel> {
    match tag_end(l, "@class"@) {
        Some(p) => match after_blanks(l, p) {
            Some(b) => if word_end(l, b) > b {
                Some(AttrModel::Class { ty: l.subrange(b, word_end(l, b)) })
            } else {
                None
            },
            None => None,
        },
        None => None,
    }
}

/// `---@alias <name> <type>`: where the line matches, the start and end of its type.
pub open spec fn alias_line(l: Seq<char>) -> Option<(int, int)> {
    match tag_end(l, "@alias"@) {
        Some(p) => match after_blanks(l, p) {
            Some(b) => if word_end(l, b) > b {
                match after_blanks(l, word_end(l, b)) {
                    Some(c) => match type_end(l, c) {
                        Some(t) => Some((c, t)),
                        None => None,
                    },
                    None => None,
                }
            } else {
                None
            },
            None => None,
        },
        None => None,
    }
}

/// What a comment line is.
pub enum LineKind {
    /// Not a documentation comment (it does not begin with `---`).
    Skipped,
    Attr(Attribute),
    /// Free text of the comment's body.
    Body,
    /// A type alias, which ought to have been taken out before.
    StrayAlias,
}

pub enum LineModel {
    Skipped,
    Attr(AttrModel),
    Body,
    StrayAlias,
}

impl View for LineKind {
    type V = LineModel;

    open spec fn view(&self) -> LineModel {
        match self {
            LineKind::Skipped => LineModel::Skipped,
            LineKind::Attr(a) => LineModel::Attr(a@),
            LineKind::Body => LineModel::Body,
            LineKind::StrayAlias => LineModel::StrayAlias,
        }
    }
}

/// A comment line classified: the attribute grammars are tried in the order
/// `@param`, `@return`, `@see`, `@class`, `@classmod`, `@nodoc`, and the first
/// that matches wins.
pub open spec fn classify(l: Seq<char>) -> LineModel {
    if !lit_at(l, skip_blanks(l, 0), "---"@) {
        LineModel::Skipped
    } else if param_line(l) is Some {
        LineModel::Attr(param_line(l).unwrap())
    } else if return_line(l) is Some {
        LineModel::Attr(return_line(l).unwrap())
    } else if see_line(l) is Some {
        LineModel::Attr(see_line(l).unwrap())
    } else if class_line(l) is Some {
        LineModel::Attr(class_line(l).unwrap())
    } else if tag_end(l, "@classmod"@) is Some {
        LineModel::Attr(AttrModel::ClassMod)
    } else if tag_end(l, "@nodoc"@) is Some {
        LineModel::Attr(AttrModel::NoDoc)
    } else if alias_line(l) is Some {
        LineModel::StrayAlias
    } else {
        LineModel::Body
    }
}

} // verus!

verus! {

pub open spec fn opt_model(o: Option<Attribute>) -> Option<AttrModel> {
    match o {
        Some(a) => Some(a@),
        None => None,
    }
}

fn tag_end_at(l: &Vec<char>, tag: &str) -> (r: Option<usize>)
    ensures
        same_pos(r, tag_end(l@, tag@)),
        r matches Some(x) ==> x <= l.len(),
{
    let k0 = skip_blanks_from(l, 0);
    let dash = chars_of("---");
    proof {
        reveal_strlit("---");
    }
    if !has_lit(l, k0, &dash) {
        return None;
    }
    let k1 = skip_blanks_from(l, k0 + 3);
    let t = chars_of(tag);
    if has_lit(l, k1, &t) {
        Some(k1 + t.len())
    } else {
        None
    }
}

fn after_blanks_at(l: &Vec<char>, p: usize) -> (r: Option<usize>)
    requires
        p <= l.len(),
    ensures
        same_pos(r, after_blanks(l@, p as int)),
        r matches Some(x) ==> x <= l.len(),
{
    let k = skip_blanks_from(l, p);
    if k > p {
        Some(k)
    } else {
        None
    }
}

fn desc_after_at(l: &Vec<char>, t: usize) -> (r: Option<String>)
    requires
        t <= l.len(),
    ensures
        opt_text(r) == desc_after(l@, t as int),
{
    let k = skip_blanks_from(l, t);
    if t < k && k < l.len() {
        Some(string_of(&slice_chars(l, k, l.len())))
    } else {
        None
    }
}

fn text_of(l: &Vec<char>, a: usize, b: usize) -> (r: String)
    requires
        a <= b <= l.len(),
    ensures
        r@ == l@.subrange(a as int, b as int),
{
    string_of(&slice_chars(l, a, b))
}

fn param_attr(l: &Vec<char>) -> (r: Option<Attribute>)
    ensures
        opt_model(r) == param_line(l@),
{
    let p = tag_end_at(l, "@param")?;
    let b = after_blanks_at(l, p)?;
    let n = ident_end_from(l, b)?;
    let c = after_blanks_at(l, n)?;
    let t = type_end_from(l, c)?;
    proof {
        crate::typexpr::lemma_type_end_after(l@, c as int);
    }
    Some(
        Attribute::Param {
            name: text_of(l, b, n),
            ty: text_of(l, c, t),
            desc: desc_after_at(l, t),
        },
    )
}

fn return_attr(l: &Vec<char>) -> (r: Option<Attribute>)
    ensures
        opt_model(r) == return_line(l@),
{
    let p = tag_end_at(l, "@return")?;
    let b = after_blanks_at(l, p)?;
    let t = type_end_from(l, b)?;
    proof {
        crate::typexpr::lemma_type_end_after(l@, b as int);
    }
    let k = skip_blanks_from(l, t);
    let w = word_end_from(l, k);
    if k > t && w > k {
        Some(
            Attribute::Return {
                ty: text_of(l, b, t),
                name: Some(text_of(l, k, w)),
                desc: desc_after_at(l, w),
            },
        )
    } else {
        Some(Attribute::Return { ty: text_of(l, b, t), name: None, desc: None })
    }
}

fn link_end_at(l: &Vec<char>, w: usize) -> (r: usize)
    requires
        w <= l.len(),
    ensures
        r == link_end(l@, w as int),
        r <= l.len(),
{
    if w < l.len() && l[w] == '.' {
        let e = word_end_from(l, w + 1);
        if e > w + 1 {
            return e;
        }
    }
    w
}

fn see_attr(l: &Vec<char>) -> (r: Option<Attribute>)
    ensures
        opt_model(r) == see_line(l@),
{
    let p = tag_end_at(l, "@see")?;
    let b = after_blanks_at(l, p)?;
    let w = word_end_from(l, b);
    if w > b {
        let e = link_end_at(l, w);
        Some(Attribute::See { link: text_of(l, b, e), desc: desc_after_at(l, e) })
    } else {
        None
    }
}

fn class_attr(l: &Vec<char>) -> (r: Option<Attribute>)
    ensures
        opt_model(r) == class_line(l@),
{
    let p = tag_end_at(l, "@class")?;
    let b = after_blanks_at(l, p)?;
    let w = word_end_from(l, b);
    if w > b {
        Some(Attribute::Class { ty: text_of(l, b, w) })
    } else {
        None
    }
}

/// Where `l` is the first line of a type alias, the start and end of its type.
pub fn alias_type_range(l: &Vec<char>) -> (r: Option<(usize, usize)>)
    ensures
        match r {
            Some((c, t)) => alias_line(l@) == Some((c as int, t as int)) && c <= t <= l.len(),
            None => alias_line(l@) is None,
        },
{
    let p = tag_end_at(l, "@alias")?;
    let b = after_blanks_at(l, p)?;
    let w = word_end_from(l, b);
    if w > b {
        let c = after_blanks_at(l, w)?;
        let t = type_end_from(l, c)?;
        proof {
            crate::typexpr::lemma_type_end_after(l@, c as int);
        }
        Some((c, t))
    } else {
        None
    }
}

/// Classifies one comment line.
pub fn parse_line(line: &str) -> (r: LineKind)
    ensures
        r@ == classify(line@),
{
    let l = chars_of(line);
    let k0 = skip_blanks_from(&l, 0);
    let dash = chars_of("---");
    if !has_lit(&l, k0, &dash) {
        return LineKind::Skipped;
    }
    if let Some(a) = param_attr(&l) {
        return LineKind::Attr(a);
    }
    if let Some(a) = return_attr(&l) {
        return LineKind::Attr(a);
    }
    if let Some(a) = see_attr(&l) {
        return LineKind::Attr(a);
    }
    if let Some(a) = class_attr(&l) {
        return LineKind::Attr(a);
    }
    if tag_end_at(&l, "@classmod").is_some() {
        return LineKind::Attr(Attribute::ClassMod);
    }
    if tag_end_at(&l, "@nodoc").is_some() {
        return LineKind::Attr(Attribute::NoDoc);
    }
    if alias_type_range(&l).is_some() {
        return LineKind::StrayAlias;
    }
    LineKind::Body
}

} // verus!
