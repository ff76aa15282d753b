//! How a type expression is written in the target dialect.
use vstd::prelude::*;
use crate::text::{has_lit, is_white, lit_at, white};

verus! {

/// What one character of a type expression becomes: `?` becomes `|nil`,
/// white space goes, anything else stays.
pub open spec fn render_piece(c: char) -> Seq<char> {
    if c == '?' {
        seq!['|', 'n', 'i', 'l']
    } else if is_white(c) {
        seq![]
    } else {
        seq![c]
    }
}

/// A type expression with every `?` replaced by `|nil` and white space removed.
pub open spec fn render_plain(t: Seq<char>) -> Seq<char>
    decreases t.len(),
{
    if t.len() == 0 {
        seq![]
    } else {
        render_plain(t.drop_last()) + render_piece(t.last())
    }
}

pub open spec fn is_fun_type(t: Seq<char>) -> bool {
    lit_at(t, 0, seq!['f', 'u', 'n', '('])
}

pub open spec fn is_table_type(t: Seq<char>) -> bool {
    lit_at(t, 0, seq!['{'])
}

/// The rendering of a type expression: a function type becomes `function`,
/// a table literal becomes `table`, anything else is rendered plainly.
pub open spec fn simplify(t: Seq<char>) -> Seq<char> {
    if is_fun_type(t) {
        seq!['f', 'u', 'n', 'c', 't', 'i', 'o', 'n']
    } else if is_table_type(t) {
        seq!['t', 'a', 'b', 'l', 'e']
    } else {
        render_plain(t)
    }
}

/// Renders a type expression in the target dialect.
pub fn render_type(t: &Vec<char>) -> (r: Vec<char>)
    ensures
        r@ == simplify(t@),
{
    let fun_lit = vec!['f', 'u', 'n', '('];
    assert(fun_lit@ =~= seq!['f', 'u', 'n', '(']);
    if has_lit(t, 0, &fun_lit) {
        let r = vec!['f', 'u', 'n', 'c', 't', 'i', 'o', 'n'];
        assert(r@ =~= seq!['f', 'u', 'n', 'c', 't', 'i', 'o', 'n']);
        return r;
    }
    let brace_lit = vec!['{'];
    assert(brace_lit@ =~= seq!['{']);
    if has_lit(t, 0, &brace_lit) {
        let r = vec!['t', 'a', 'b', 'l', 'e'];
        assert(r@ =~= seq!['t', 'a', 'b', 'l', 'e']);
        return r;
    }
    let mut out: Vec<char> = Vec::new();
    let mut i: usize = 0;
    while i < t.len()
        invariant
            i <= t.len(),
            out@ == render_plain(t@.take(i as int)),
        decreases t.len() - i,
    {
        assert(t@.take(i + 1).drop_last() =~= t@.take(i as int));
        let c = t[i];
        if c == '?' {
            out.push('|');
            out.push('n');
            out.push('i');
            out.push('l');
            assert(out@ =~= render_plain(t@.take(i as int)) + render_piece(c));
        } else if !white(c) {
            out.push(c);
            assert(out@ =~= render_plain(t@.take(i as int)) + render_piece(c));
        } else {
            assert(render_piece(c) =~= Seq::<char>::empty());
            assert(out@ =~= render_plain(t@.take(i as int)) + render_piece(c));
        }
        i += 1;
    }
    assert(t@.take(t.len() as int) =~= t@);
    out
}

/// No `?` and no white space.
pub open spec fn is_clean(t: Seq<char>) -> bool {
    forall|i: int| 0 <= i < t.len() ==> t[i] != '?' && !is_white(#[trigger] t[i])
}

proof fn lemma_render_plain_clean(t: Seq<char>)
    ensures
        is_clean(render_plain(t)),
    decreases t.len(),
{
    if t.len() > 0 {
        lemma_render_plain_clean(t.drop_last());
        let a = render_plain(t.drop_last());
        let b = render_piece(t.last());
        assert forall|i: int| 0 <= i < (a + b).len() implies (a + b)[i] != '?' && !is_white(
            #[trigger] (a + b)[i],
        ) by {
            if i >= a.len() {
                assert((a + b)[i] == b[i - a.len()]);
            }
        }
    }
}

proof fn lemma_render_plain_fixes_clean(t: Seq<char>)
    requires
        is_clean(t),
    ensures
        render_plain(t) == t,
    decreases t.len(),
{
    if t.len() > 0 {
        assert(is_clean(t.drop_last())) by {
            assert forall|i: int| 0 <= i < t.drop_last().len() implies t.drop_last()[i] != '?'
                && !is_white(#[trigger] t.drop_last()[i]) by {
                assert(t.drop_last()[i] == t[i]);
            }
        }
        lemma_render_plain_fixes_clean(t.drop_last());
        assert(t[t.len() - 1] != '?' && !is_white(t[t.len() - 1]));
        assert(render_plain(t.drop_last()) + render_piece(t.last()) =~= t);
    }
}

/// A type expression that is neither a function type nor a table literal
/// renders plainly (every `?` becomes `|nil`, white space goes), and
/// rendering the result again changes nothing, unless the result itself
/// begins like a function type or a table literal.
pub proof fn law_render_plain_idempotent(t: Seq<char>)
    requires
        !is_fun_type(t),
        !is_table_type(t),
    ensures
        simplify(t) == render_plain(t),
        is_clean(simplify(t)),
        !is_fun_type(simplify(t)) && !is_table_type(simplify(t)) ==> simplify(simplify(t))
            == simplify(t),
{
    lemma_render_plain_clean(t);
    lemma_render_plain_fixes_clean(render_plain(t));
}

/// A table literal renders as exactly `table`, a function type as exactly
/// `function`, and each of these renders as itself.
pub proof fn law_collapse(t: Seq<char>)
    ensures
        is_table_type(t) ==> simplify(t) == seq!['t', 'a', 'b', 'l', 'e'],
        is_fun_type(t) ==> simplify(t) == seq!['f', 'u', 'n', 'c', 't', 'i', 'o', 'n'],
        is_table_type(t) || is_fun_type(t) ==> simplify(simplify(t)) == simplify(t),
{
    if is_table_type(t) {
        assert(t[0] == '{') by {
            assert(t.subrange(0, 1)[0] == t[0]);
        }
    }
    let w = seq!['t', 'a', 'b', 'l', 'e'];
    let f = seq!['f', 'u', 'n', 'c', 't', 'i', 'o', 'n'];
    assert(!is_fun_type(w)) by {
        assert(w.subrange(0, 4)[0] == 't');
    }
    assert(!is_table_type(w)) by {
        assert(w.subrange(0, 1)[0] == 't');
    }
    assert(!is_table_type(f)) by {
        assert(f.subrange(0, 1)[0] == 'f');
    }
    assert(!is_fun_type(f)) by {
        assert(f.subrange(0, 4)[3] == 'c');
    }
    assert(is_clean(w));
    assert(is_clean(f));
    lemma_render_plain_fixes_clean(w);
    lemma_render_plain_fixes_clean(f);
}

} // verus!
