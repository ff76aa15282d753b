//! The grammar of type expressions, recognised by recursive descent, and
//! their rendering in the target dialect.
use vstd::prelude::*;
use crate::text::{blank, has_lit, is_blank, is_word, lit_at, word};

verus! {

/// The first index at or after `i` that does not hold a blank.
pub open spec fn skip_blanks(s: Seq<char>, i: int) -> int
    decreases s.len() - i,
{
    if 0 <= i < s.len() && is_blank(s[i]) {
        skip_blanks(s, i + 1)
    } else {
        i
    }
}

/// The end of the run of word characters that starts at `i`.
pub open spec fn word_end(s: Seq<char>, i: int) -> int
    decreases s.len() - i,
{
    if 0 <= i < s.len() && is_word(s[i]) {
        word_end(s, i + 1)
    } else {
        i
    }
}

/// Whether `s` holds the character `c` at `i`.
pub open spec fn char_at(s: Seq<char>, i: int, c: char) -> bool {
    0 <= i < s.len() && s[i] == c
}

/// The end of an identifier at `i`: a run of word characters, or `...`.
pub open spec fn ident_end(s: Seq<char>, i: int) -> Option<int> {
    if lit_at(s, i, seq!['.', '.', '.']) {
        Some(i + 3)
    } else if word_end(s, i) > i {
        Some(word_end(s, i))
    } else {
        None
    }
}

/// The end of the brace group whose depth is `d` before index `i`.
pub open spec fn brace_end(s: Seq<char>, i: int, d: nat) -> Option<int>
    decreases s.len() - i,
{
    if i < 0 || i >= s.len() {
        None
    } else if s[i] == '{' {
        brace_end(s, i + 1, d + 1)
    } else if s[i] == '}' {
        if d <= 1 {
            Some(i + 1)
        } else {
            brace_end(s, i + 1, (d - 1) as nat)
        }
    } else {
        brace_end(s, i + 1, d)
    }
}

/// The index just past the first `c` at or after `i`.
pub open spec fn past_char(s: Seq<char>, i: int, c: char) -> Option<int>
    decreases s.len() - i,
{
    if i < 0 || i >= s.len() {
        None
    } else if s[i] == c {
        Some(i + 1)
    } else {
        past_char(s, i + 1, c)
    }
}

/// The end of an optional `[]` and an optional `?` after index `p`.
pub open spec fn suffix_end(s: Seq<char>, p: int) -> int {
    let q = if lit_at(s, p, seq!['[', ']']) { p + 2 } else { p };
    if char_at(s, q, '?') { q + 1 } else { q }
}

/// Primary := TableLiteral | GenericTable | FunctionType | QuotedString | Identifier,
/// tried in this order.
pub open spec fn primary_end(s: Seq<char>, i: int) -> Option<int>
    decreases s.len() - i, 1int,
{
    if i < 0 || i >= s.len() {
        None
    } else if s[i] == '{' {
        brace_end(s, i, 0)
    } else if lit_at(s, i, seq!['t', 'a', 'b', 'l', 'e', '<']) && generic_end(s, i + 6) is Some {
        generic_end(s, i + 6)
    } else if lit_at(s, i, seq!['f', 'u', 'n', '(']) && fun_end(s, i + 4) is Some {
        fun_end(s, i + 4)
    } else if s[i] == '"' {
        past_char(s, i + 1, '"')
    } else {
        ident_end(s, i)
    }
}

/// UnionMember := (Primary | '(' TypeExpr ')') '[]'? '?'?
pub open spec fn member_end(s: Seq<char>, i: int) -> Option<int>
    decreases s.len() - i, 2int,
{
    if char_at(s, i, '(') {
        match type_end(s, i + 1) {
            Some(a) => if char_at(s, a, ')') { Some(suffix_end(s, a + 1)) } else { None },
            None => None,
        }
    } else {
        match primary_end(s, i) {
            Some(p) => Some(suffix_end(s, p)),
            None => None,
        }
    }
}

/// TypeExpr := UnionMember ('|' UnionMember)*, blanks allowed around each `|`.
pub open spec fn type_end(s: Seq<char>, i: int) -> Option<int>
    decreases s.len() - i, 3int,
{
    match member_end(s, i) {
        Some(a) => if i < a <= s.len() { Some(union_tail(s, a)) } else { None },
        None => None,
    }
}

/// The end of the `'|' UnionMember` repetitions that start at `j`.
pub open spec fn union_tail(s: Seq<char>, j: int) -> int
    decreases s.len() - j, 3int,
{
    let k = skip_blanks(s, j);
    if char_at(s, k, '|') {
        let b = skip_blanks(s, k + 1);
        if j < b <= s.len() {
            match member_end(s, b) {
                Some(c) => if j < c <= s.len() { union_tail(s, c) } else { j },
                None => j,
            }
        } else {
            j
        }
    } else {
        j
    }
}

/// After `table<`: TypeExpr ',' TypeExpr '>'.
pub open spec fn generic_end(s: Seq<char>, j: int) -> Option<int>
    decreases s.len() - j, 4int,
{
    match type_end(s, j) {
        Some(a) => if char_at(s, a, ',') && j < skip_blanks(s, a + 1) <= s.len() {
            match type_end(s, skip_blanks(s, a + 1)) {
                Some(c) => if char_at(s, c, '>') { Some(c + 1) } else { None },
                None => None,
            }
        } else {
            None
        },
        None => None,
    }
}

/// One parameter of a function type: Identifier ':' TypeExpr.
pub open spec fn param_end(s: Seq<char>, p: int) -> Option<int>
    decreases s.len() - p, 3int,
{
    match ident_end(s, p) {
        Some(e) => if char_at(s, e, ':') && p < skip_blanks(s, e + 1) <= s.len() {
            type_end(s, skip_blanks(s, e + 1))
        } else {
            None
        },
        None => None,
    }
}

/// After one parameter: (',' Identifier ':' TypeExpr)* ')', the index past `)`.
pub open spec fn params_tail(s: Seq<char>, a: int) -> Option<int>
    decreases s.len() - a, 4int,
{
    if char_at(s, a, ',') {
        let b = skip_blanks(s, a + 1);
        if a < b <= s.len() {
            match param_end(s, b) {
                Some(c) => if a < c <= s.len() { params_tail(s, c) } else { None },
                None => None,
            }
        } else {
            None
        }
    } else if char_at(s, skip_blanks(s, a), ')') {
        Some(skip_blanks(s, a) + 1)
    } else {
        None
    }
}

/// The index past the `)` that closes the parameter list which starts at `j`.
pub open spec fn params_end(s: Seq<char>, j: int) -> Option<int>
    decreases s.len() - j, 5int,
{
    if char_at(s, skip_blanks(s, j), ')') {
        Some(skip_blanks(s, j) + 1)
    } else {
        match param_end(s, j) {
            Some(a) => if j < a <= s.len() { params_tail(s, a) } else { None },
            None => None,
        }
    }
}

/// After `fun(`: the parameters, `)`, and an optional `: TypeExpr`.
pub open spec fn fun_end(s: Seq<char>, j: int) -> Option<int>
    decreases s.len() - j, 6int,
{
    match params_end(s, j) {
        Some(q) => if char_at(s, q, ':') && j < skip_blanks(s, q + 1) <= s.len() {
            match type_end(s, skip_blanks(s, q + 1)) {
                Some(r) => Some(r),
                None => Some(q),
            }
        } else {
            Some(q)
        },
        None => None,
    }
}

} // verus!

verus! {

/// `r`, read as a position, is the spec function's answer `m`.
pub open spec fn same_pos(r: Option<usize>, m: Option<int>) -> bool {
    match r {
        Some(x) => m == Some(x as int),
        None => m is None,
    }
}

/// A position in `r`, if any, is at most `n`.
pub open spec fn pos_within(r: Option<usize>, n: int) -> bool {
    match r {
        Some(x) => x <= n,
        None => true,
    }
}

pub fn skip_blanks_from(s: &Vec<char>, i: usize) -> (r: usize)
    requires
        i <= s.len(),
    ensures
        r == skip_blanks(s@, i as int),
        i <= r <= s.len(),
{
    let mut k = i;
    while k < s.len() && blank(s[k])
        invariant
            i <= k <= s.len(),
            skip_blanks(s@, k as int) == skip_blanks(s@, i as int),
        decreases s.len() - k,
    {
        k += 1;
    }
    k
}

pub fn word_end_from(s: &Vec<char>, i: usize) -> (r: usize)
    requires
        i <= s.len(),
    ensures
        r == word_end(s@, i as int),
        i <= r <= s.len(),
{
    let mut k = i;
    while k < s.len() && word(s[k])
        invariant
            i <= k <= s.len(),
            word_end(s@, k as int) == word_end(s@, i as int),
        decreases s.len() - k,
    {
        k += 1;
    }
    k
}

pub fn ident_end_from(s: &Vec<char>, i: usize) -> (r: Option<usize>)
    requires
        i <= s.len(),
    ensures
        same_pos(r, ident_end(s@, i as int)),
        pos_within(r, s.len() as int),
{
    if has_lit(s, i, &vec!['.', '.', '.']) {
        Some(i + 3)
    } else {
        let w = word_end_from(s, i);
        if w > i {
            Some(w)
        } else {
            None
        }
    }
}

fn brace_end_from(s: &Vec<char>, i: usize) -> (r: Option<usize>)
    requires
        i <= s.len(),
    ensures
        same_pos(r, brace_end(s@, i as int, 0)),
        pos_within(r, s.len() as int),
{
    let mut k = i;
    let mut d: usize = 0;
    while k < s.len()
        invariant
            i <= k <= s.len(),
            d <= k,
            brace_end(s@, k as int, d as nat) == brace_end(s@, i as int, 0),
        decreases s.len() - k,
    {
        if s[k] == '{' {
            d += 1;
        } else if s[k] == '}' {
            if d <= 1 {
                return Some(k + 1);
            }
            d -= 1;
        }
        k += 1;
    }
    None
}

fn past_char_from(s: &Vec<char>, i: usize, c: char) -> (r: Option<usize>)
    requires
        i <= s.len(),
    ensures
        same_pos(r, past_char(s@, i as int, c)),
        pos_within(r, s.len() as int),
{
    let mut k = i;
    while k < s.len()
        invariant
            i <= k <= s.len(),
            past_char(s@, k as int, c) == past_char(s@, i as int, c),
        decreases s.len() - k,
    {
        if s[k] == c {
            return Some(k + 1);
        }
        k += 1;
    }
    None
}

fn suffix_end_from(s: &Vec<char>, p: usize) -> (r: usize)
    requires
        p <= s.len(),
    ensures
        r == suffix_end(s@, p as int),
        r <= s.len(),
{
    let q = if has_lit(s, p, &vec!['[', ']']) { p + 2 } else { p };
    if q < s.len() && s[q] == '?' { q + 1 } else { q }
}

fn primary_end_from(s: &Vec<char>, i: usize) -> (r: Option<usize>)
    requires
        i <= s.len(),
    ensures
        same_pos(r, primary_end(s@, i as int)),
        pos_within(r, s.len() as int),
    decreases s@.len() - i, 1int,
{
    if i >= s.len() {
        return None;
    }
    if s[i] == '{' {
        return brace_end_from(s, i);
    }
    if has_lit(s, i, &vec!['t', 'a', 'b', 'l', 'e', '<']) {
        let g = generic_end_from(s, i + 6);
        if g.is_some() {
            return g;
        }
    }
    if has_lit(s, i, &vec!['f', 'u', 'n', '(']) {
        let f = fun_end_from(s, i + 4);
        if f.is_some() {
            return f;
        }
    }
    if s[i] == '"' {
        return past_char_from(s, i + 1, '"');
    }
    ident_end_from(s, i)
}

fn member_end_from(s: &Vec<char>, i: usize) -> (r: Option<usize>)
    requires
        i <= s.len(),
    ensures
        same_pos(r, member_end(s@, i as int)),
        pos_within(r, s.len() as int),
    decreases s@.len() - i, 2int,
{
    if i < s.len() && s[i] == '(' {
        match type_end_from(s, i + 1) {
            Some(a) => if a < s.len() && s[a] == ')' {
                Some(suffix_end_from(s, a + 1))
            } else {
                None
            },
            None => None,
        }
    } else {
        match primary_end_from(s, i) {
            Some(p) => Some(suffix_end_from(s, p)),
            None => None,
        }
    }
}

/// The end of the longest type expression that starts at `i`, if one does.
pub fn type_end_from(s: &Vec<char>, i: usize) -> (r: Option<usize>)
    requires
        i <= s.len(),
    ensures
        same_pos(r, type_end(s@, i as int)),
        pos_within(r, s.len() as int),
    decreases s@.len() - i, 3int,
{
    match member_end_from(s, i) {
        Some(a) => if i < a && a <= s.len() {
            Some(union_tail_from(s, a))
        } else {
            None
        },
        None => None,
    }
}

fn union_tail_from(s: &Vec<char>, j: usize) -> (r: usize)
    requires
        j <= s.len(),
    ensures
        r == union_tail(s@, j as int),
        r <= s.len(),
    decreases s@.len() - j, 3int,
{
    let k = skip_blanks_from(s, j);
    if k < s.len() && s[k] == '|' {
        let b = skip_blanks_from(s, k + 1);
        if j < b && b <= s.len() {
            match member_end_from(s, b) {
                Some(c) => if j < c && c <= s.len() {
                    union_tail_from(s, c)
                } else {
                    j
                },
                None => j,
            }
        } else {
            j
        }
    } else {
        j
    }
}

fn generic_end_from(s: &Vec<char>, j: usize) -> (r: Option<usize>)
    requires
        j <= s.len(),
    ensures
        same_pos(r, generic_end(s@, j as int)),
        pos_within(r, s.len() as int),
    decreases s@.len() - j, 4int,
{
    match type_end_from(s, j) {
        Some(a) => {
            if a < s.len() && s[a] == ',' {
                let b = skip_blanks_from(s, a + 1);
                if j < b && b <= s.len() {
                    match type_end_from(s, b) {
                        Some(c) => if c < s.len() && s[c] == '>' {
                            Some(c + 1)
                        } else {
                            None
                        },
                        None => None,
                    }
                } else {
                    None
                }
            } else {
                None
            }
        },
        None => None,
    }
}

fn param_end_from(s: &Vec<char>, p: usize) -> (r: Option<usize>)
    requires
        p <= s.len(),
    ensures
        same_pos(r, param_end(s@, p as int)),
        pos_within(r, s.len() as int),
    decreases s@.len() - p, 3int,
{
    match ident_end_from(s, p) {
        Some(e) => {
            if e < s.len() && s[e] == ':' {
                let b = skip_blanks_from(s, e + 1);
                if p < b && b <= s.len() {
                    type_end_from(s, b)
                } else {
                    None
                }
            } else {
                None
            }
        },
        None => None,
    }
}

fn params_tail_from(s: &Vec<char>, a: usize) -> (r: Option<usize>)
    requires
        a <= s.len(),
    ensures
        same_pos(r, params_tail(s@, a as int)),
        pos_within(r, s.len() as int),
    decreases s@.len() - a, 4int,
{
    if a < s.len() && s[a] == ',' {
        let b = skip_blanks_from(s, a + 1);
        if a < b && b <= s.len() {
            match param_end_from(s, b) {
                Some(c) => if a < c && c <= s.len() {
                    params_tail_from(s, c)
                } else {
                    None
                },
                None => None,
            }
        } else {
            None
        }
    } else {
        let k = skip_blanks_from(s, a);
        if k < s.len() && s[k] == ')' {
            Some(k + 1)
        } else {
            None
        }
    }
}

fn params_end_from(s: &Vec<char>, j: usize) -> (r: Option<usize>)
    requires
        j <= s.len(),
    ensures
        same_pos(r, params_end(s@, j as int)),
        pos_within(r, s.len() as int),
    decreases s@.len() - j, 5int,
{
    let k = skip_blanks_from(s, j);
    if k < s.len() && s[k] == ')' {
        Some(k + 1)
    } else {
        match param_end_from(s, j) {
            Some(a) => if j < a && a <= s.len() {
                params_tail_from(s, a)
            } else {
                None
            },
            None => None,
        }
    }
}

fn fun_end_from(s: &Vec<char>, j: usize) -> (r: Option<usize>)
    requires
        j <= s.len(),
    ensures
        same_pos(r, fun_end(s@, j as int)),
        pos_within(r, s.len() as int),
    decreases s@.len() - j, 6int,
{
    match params_end_from(s, j) {
        Some(q) => {
            if q < s.len() && s[q] == ':' {
                let b = skip_blanks_from(s, q + 1);
                if j < b && b <= s.len() {
                    match type_end_from(s, b) {
                        Some(r) => Some(r),
                        None => Some(q),
                    }
                } else {
                    Some(q)
                }
            } else {
                Some(q)
            }
        },
        None => None,
    }
}

} // verus!

verus! {

/// A type expression ends after it starts.
pub proof fn lemma_type_end_after(s: Seq<char>, i: int)
    ensures
        type_end(s, i) matches Some(t) ==> t > i,
{
    if let Some(a) = member_end(s, i) {
        if i < a <= s.len() {
            lemma_union_tail_after(s, a);
        }
    }
}

proof fn lemma_union_tail_after(s: Seq<char>, j: int)
    ensures
        union_tail(s, j) >= j,
    decreases s.len() - j,
{
    let k = skip_blanks(s, j);
    if char_at(s, k, '|') {
        let b = skip_blanks(s, k + 1);
        if j < b <= s.len() {
            if let Some(c) = member_end(s, b) {
                if j < c <= s.len() {
                    lemma_union_tail_after(s, c);
                }
            }
        }
    }
}

} // verus!
