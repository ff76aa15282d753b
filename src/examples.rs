//! The example rewriter: a heading such as `--- ## Examples` followed by a
//! fenced code block becomes one `---@usage` annotation.
use vstd::prelude::*;
use crate::alias::line_at;
use crate::text::{chars_of, find_line_end, has_lit, line_end, lit_at, next_line, push_all,
    push_str, slice_chars, string_of};
use crate::typexpr::{skip_blanks, skip_blanks_from};

verus! {

/// The end of the run of `#` that starts at `i`.
pub open spec fn hashes_end(l: Seq<char>, i: int) -> int
    decreases l.len() - i,
{
    if 0 <= i < l.len() && l[i] == '#' {
        hashes_end(l, i + 1)
    } else {
        i
    }
}

/// The index after the comment marker `---` and the blanks that follow it,
/// where the line begins with one.
pub open spec fn after_marker(l: Seq<char>) -> Option<int> {
    if lit_at(l, skip_blanks(l, 0), "---"@) {
        Some(skip_blanks(l, skip_blanks(l, 0) + 3))
    } else {
        None
    }
}

/// Whether `l` holds the word `example` from index `i` on, in any mix of
/// ASCII upper and lower case.
pub open spec fn example_at_ci(l: Seq<char>, i: int) -> bool {
    &&& 0 <= i && i + 7 <= l.len()
    &&& forall|j: int|
        0 <= j < 7 ==> (#[trigger] l[i + j] == "example"@[j] || l[i + j] == "EXAMPLE"@[j])
}

/// `--- ### Example...`: one to five `#`, then the word `example` in any case.
pub open spec fn heading_line(l: Seq<char>) -> bool {
    match after_marker(l) {
        Some(k) => {
            let h = hashes_end(l, k);
            let w = skip_blanks(l, h);
            &&& 1 <= h - k <= 5
            &&& example_at_ci(l, w)
        },
        None => false,
    }
}

fn has_example_word(l: &Vec<char>, i: usize) -> (r: bool)
    requires
        i <= l.len(),
    ensures
        r == example_at_ci(l@, i as int),
{
    let lower = chars_of("example");
    let upper = chars_of("EXAMPLE");
    proof {
        reveal_strlit("example");
        reveal_strlit("EXAMPLE");
    }
    if l.len() - i < 7 {
        return false;
    }
    let mut j: usize = 0;
    while j < 7
        invariant
            j <= 7,
            i + 7 <= l.len(),
            lower@ == "example"@,
            upper@ == "EXAMPLE"@,
            lower@.len() == 7 && upper@.len() == 7,
            forall|q: int| 0 <= q < j ==> (#[trigger] l@[i + q] == "example"@[q] || l@[i + q]
                == "EXAMPLE"@[q]),
        decreases 7 - j,
    {
        if l[i + j] != lower[j] && l[i + j] != upper[j] {
            return false;
        }
        j += 1;
    }
    true
}

/// A comment line with nothing after the marker.
pub open spec fn empty_comment_line(l: Seq<char>) -> bool {
    match after_marker(l) {
        Some(k) => k == l.len(),
        None => false,
    }
}

/// A comment line that opens or closes a fenced block.
pub open spec fn fence_line(l: Seq<char>) -> bool {
    match after_marker(l) {
        Some(k) => lit_at(l, k, "```"@),
        None => false,
    }
}

/// The first line, from the line at `j` on, that is not an empty comment line.
pub open spec fn skip_empty_comments(s: Seq<char>, j: int) -> int
    decreases s.len() - j,
{
    let nxt = next_line(s, line_end(s, j));
    if 0 <= j < s.len() && empty_comment_line(line_at(s, j)) && j < nxt <= s.len() {
        skip_empty_comments(s, nxt)
    } else {
        j
    }
}

/// The start of the first fence line from the line at `j` on.
pub open spec fn find_fence(s: Seq<char>, j: int) -> Option<int>
    decreases s.len() - j,
{
    let nxt = next_line(s, line_end(s, j));
    if j < 0 || j >= s.len() {
        None
    } else if fence_line(line_at(s, j)) {
        Some(j)
    } else if j < nxt <= s.len() {
        find_fence(s, nxt)
    } else {
        None
    }
}

/// For a heading line at `i`: the example block after it, as the line break
/// that ends the opening fence line, the start of the closing fence line,
/// and the start of the line after that.
pub open spec fn example_at(s: Seq<char>, i: int) -> Option<(int, int, int)> {
    let f = skip_empty_comments(s, next_line(s, line_end(s, i)));
    let fe = line_end(s, f);
    if 0 <= f < s.len() && fence_line(line_at(s, f)) && fe < s.len() {
        match find_fence(s, fe + 1) {
            Some(c) => Some((fe, c, next_line(s, line_end(s, c)))),
            None => None,
        }
    } else {
        None
    }
}

/// The text from the line at `i` on, with each example block rewritten.
pub open spec fn rewritten(s: Seq<char>, i: int) -> Seq<char>
    decreases s.len() - i,
{
    let nxt = next_line(s, line_end(s, i));
    if i < 0 || i >= s.len() {
        seq![]
    } else if heading_line(line_at(s, i)) && example_at(s, i) is Some && i < example_at(
        s,
        i,
    ).unwrap().2 <= s.len() {
        let (a, c, after) = example_at(s, i).unwrap();
        "---@usage"@ + s.subrange(a, c) + rewritten(s, after)
    } else if i < nxt <= s.len() {
        s.subrange(i, nxt) + rewritten(s, nxt)
    } else {
        seq![]
    }
}

fn marker_end(l: &Vec<char>) -> (r: Option<usize>)
    ensures
        match r {
            Some(k) => after_marker(l@) == Some(k as int) && k <= l.len(),
            None => after_marker(l@) is None,
        },
{
    let k0 = skip_blanks_from(l, 0);
    let dash = chars_of("---");
    proof {
        reveal_strlit("---");
    }
    if !has_lit(l, k0, &dash) {
        return None;
    }
    Some(skip_blanks_from(l, k0 + 3))
}

fn is_heading(l: &Vec<char>) -> (r: bool)
    ensures
        r == heading_line(l@),
{
    let k = match marker_end(l) {
        Some(k) => k,
        None => return false,
    };
    let mut h = k;
    while h < l.len() && l[h] == '#'
        invariant
            k <= h <= l.len(),
            hashes_end(l@, h as int) == hashes_end(l@, k as int),
        decreases l.len() - h,
    {
        h += 1;
    }
    let w = skip_blanks_from(l, h);
    let n = h - k;
    1 <= n && n <= 5 && has_example_word(l, w)
}

fn is_empty_comment(l: &Vec<char>) -> (r: bool)
    ensures
        r == empty_comment_line(l@),
{
    match marker_end(l) {
        Some(k) => k == l.len(),
        None => false,
    }
}

fn is_fence(l: &Vec<char>) -> (r: bool)
    ensures
        r == fence_line(l@),
{
    match marker_end(l) {
        Some(k) => has_lit(l, k, &chars_of("```")),
        None => false,
    }
}

fn next_line_at(s: &Vec<char>, e: usize) -> (r: usize)
    requires
        e <= s.len(),
    ensures
        r == next_line(s@, e as int),
        r <= s.len(),
{
    if e < s.len() { e + 1 } else { s.len() }
}

fn example_block(s: &Vec<char>, i: usize) -> (r: Option<(usize, usize, usize)>)
    requires
        i <= s.len(),
    ensures
        match r {
            Some((a, c, after)) => example_at(s@, i as int) == Some(
                (a as int, c as int, after as int),
            ) && a <= c <= s.len() && after <= s.len(),
            None => example_at(s@, i as int) is None,
        },
{
    let j0 = next_line_at(s, find_line_end(s, i));
    let mut f = j0;
    loop
        invariant
            j0 <= f <= s.len(),
            skip_empty_comments(s@, f as int) == skip_empty_comments(s@, j0 as int),
        ensures
            j0 <= f <= s.len(),
            f as int == skip_empty_comments(s@, j0 as int),
        decreases s.len() - f,
    {
        if f >= s.len() {
            break;
        }
        let e = find_line_end(s, f);
        let nxt = next_line_at(s, e);
        if is_empty_comment(&slice_chars(s, f, e)) && f < nxt {
            f = nxt;
        } else {
            break;
        }
    }
    if f >= s.len() {
        return None;
    }
    let fe = find_line_end(s, f);
    if !is_fence(&slice_chars(s, f, fe)) || fe >= s.len() {
        return None;
    }
    let mut c = fe + 1;
    loop
        invariant
            fe < c <= s.len(),
            find_fence(s@, c as int) == find_fence(s@, fe + 1),
            j0 as int == next_line(s@, line_end(s@, i as int)),
            f as int == skip_empty_comments(s@, j0 as int),
            f < s.len(),
            fe as int == line_end(s@, f as int),
            fence_line(line_at(s@, f as int)),
        decreases s.len() - c,
    {
        if c >= s.len() {
            return None;
        }
        let e = find_line_end(s, c);
        if is_fence(&slice_chars(s, c, e)) {
            return Some((fe, c, next_line_at(s, e)));
        }
        let nxt = next_line_at(s, e);
        if c < nxt {
            c = nxt;
        } else {
            return None;
        }
    }
}

/// Rewrites each heading that names an example, with the fenced block
/// under it, into a `---@usage` annotation followed by the block's lines.
pub fn replace_examples(source: &mut String)
    ensures
        final(source)@ == rewritten(old(source)@, 0),
{
    let s = chars_of(source.as_str());
    let ghost all = rewritten(s@, 0);
    let mut out: Vec<char> = Vec::new();
    let mut i: usize = 0;
    while i < s.len()
        invariant
            i <= s.len(),
            out@ + rewritten(s@, i as int) == all,
        decreases s.len() - i,
    {
        let e = find_line_end(&s, i);
        let nxt = next_line_at(&s, e);
        let ghost r_i = rewritten(s@, i as int);
        let ghost o0 = out@;
        let mut done = false;
        if is_heading(&slice_chars(&s, i, e)) {
            if let Some((a, c, after)) = example_block(&s, i) {
                if i < after {
                    push_str(&mut out, "---@usage");
                    push_all(&mut out, &slice_chars(&s, a, c));
                    assert(o0 + r_i =~= out@ + rewritten(s@, after as int));
                    i = after;
                    done = true;
                }
            }
        }
        if !done {
            if i < nxt {
                push_all(&mut out, &slice_chars(&s, i, nxt));
                assert(o0 + r_i =~= out@ + rewritten(s@, nxt as int));
                i = nxt;
            } else {
                assert(r_i =~= Seq::<char>::empty());
                assert(out@ + r_i =~= out@);
                i = s.len();
                assert(rewritten(s@, i as int) =~= Seq::<char>::empty());
            }
        }
    }
    assert(out@ + rewritten(s@, i as int) =~= out@);
    *source = string_of(&out);
}

} // verus!
