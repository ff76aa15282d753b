//! The alias pre-extractor: type alias blocks are taken out of a source text
//! before it is parsed.
use vstd::prelude::*;
use crate::attr::{alias_type_range, AttrModel, Attribute};
use crate::text::{
    chars_of, find_line_end, line_end, lit_at, next_line, push_all, slice_chars, string_of,
    strip_white, strip_white_chars,
};
use crate::typexpr::{char_at, skip_blanks, skip_blanks_from, type_end, type_end_from};

verus! {

/// `---| <type> [comment]`: where the line continues an alias, the start and
/// end of its type.
pub open spec fn continuation_line(l: Seq<char>) -> Option<(int, int)> {
    let k0 = skip_blanks(l, 0);
    let k1 = skip_blanks(l, k0 + 3);
    let c = skip_blanks(l, k1 + 1);
    if lit_at(l, k0, "---"@) && char_at(l, k1, '|') {
        match type_end(l, c) {
            Some(t) => Some((c, t)),
            None => None,
        }
    } else {
        None
    }
}

/// The line of `s` that starts at `i`, without its line break.
pub open spec fn line_at(s: Seq<char>, i: int) -> Seq<char> {
    s.subrange(i, line_end(s, i))
}

/// From the line at `j` on, the continuation lines of an alias whose types
/// so far are `acc`: where the block ends, and all its types joined by `|`.
pub open spec fn continuation(s: Seq<char>, j: int, acc: Seq<char>) -> (int, Seq<char>)
    decreases s.len() - j,
{
    if j < 0 || j >= s.len() {
        (j, acc)
    } else {
        match continuation_line(line_at(s, j)) {
            Some((c, t)) => {
                let nxt = next_line(s, line_end(s, j));
                if j < nxt <= s.len() {
                    continuation(
                        s,
                        nxt,
                        acc + seq!['|'] + strip_white(line_at(s, j).subrange(c, t)),
                    )
                } else {
                    (j, acc)
                }
            },
            None => (j, acc),
        }
    }
}

/// The alias block whose first line starts at `i`: where it ends, and its
/// types, white space removed, joined by `|`.
pub open spec fn alias_block(s: Seq<char>, i: int) -> Option<(int, Seq<char>)> {
    match crate::attr::alias_line(line_at(s, i)) {
        Some((c, t)) => Some(
            continuation(
                s,
                next_line(s, line_end(s, i)),
                strip_white(line_at(s, i).subrange(c, t)),
            ),
        ),
        None => None,
    }
}

/// From the line at `i` on: the text with every alias block taken out, and
/// the types of each block, white space removed, joined by `|`, in order.
pub open spec fn extracted(s: Seq<char>, i: int) -> (Seq<char>, Seq<Seq<char>>)
    decreases s.len() - i,
{
    if i < 0 || i >= s.len() {
        (seq![], seq![])
    } else {
        let nxt = next_line(s, line_end(s, i));
        match alias_block(s, i) {
            Some((end, types)) => {
                if i < end <= s.len() {
                    let rest = extracted(s, end);
                    (rest.0, seq![types] + rest.1)
                } else {
                    (seq![], seq![])
                }
            },
            None => if i < nxt <= s.len() {
                let rest = extracted(s, nxt);
                (s.subrange(i, nxt) + rest.0, rest.1)
            } else {
                (seq![], seq![])
            },
        }
    }
}

fn continuation_type_range(l: &Vec<char>) -> (r: Option<(usize, usize)>)
    ensures
        match r {
            Some((c, t)) => continuation_line(l@) == Some((c as int, t as int)) && c <= t
                <= l.len(),
            None => continuation_line(l@) is None,
        },
{
    let k0 = skip_blanks_from(l, 0);
    let dash = chars_of("---");
    proof {
        reveal_strlit("---");
    }
    if !crate::text::has_lit(l, k0, &dash) {
        return None;
    }
    let k1 = skip_blanks_from(l, k0 + 3);
    if !(k1 < l.len() && l[k1] == '|') {
        return None;
    }
    let c = skip_blanks_from(l, k1 + 1);
    let t = type_end_from(l, c)?;
    proof {
        crate::typexpr::lemma_type_end_after(l@, c as int);
    }
    Some((c, t))
}

fn next_line_from(s: &Vec<char>, e: usize) -> (r: usize)
    requires
        e <= s.len(),
    ensures
        r == next_line(s@, e as int),
        r <= s.len(),
{
    if e < s.len() { e + 1 } else { s.len() }
}

fn scan_continuation(s: &Vec<char>, j0: usize, acc0: Vec<char>) -> (r: (usize, Vec<char>))
    requires
        j0 <= s.len(),
    ensures
        continuation(s@, j0 as int, acc0@) == (r.0 as int, r.1@),
        r.0 <= s.len(),
{
    let mut j = j0;
    let mut acc = acc0;
    while j < s.len()
        invariant
            j <= s.len(),
            continuation(s@, j as int, acc@) == continuation(s@, j0 as int, acc0@),
        decreases s.len() - j,
    {
        let e = find_line_end(s, j);
        let line = slice_chars(s, j, e);
        match continuation_type_range(&line) {
            Some((c, t)) => {
                let nxt = next_line_from(s, e);
                if nxt > j {
                    let ghost a0 = acc@;
                    acc.push('|');
                    let ty = strip_white_chars(&slice_chars(&line, c, t));
                    push_all(&mut acc, &ty);
                    assert(acc@ =~= a0 + seq!['|'] + strip_white(line@.subrange(c as int, t as int)));
                    j = nxt;
                } else {
                    return (j, acc);
                }
            },
            None => {
                return (j, acc);
            },
        }
    }
    (j, acc)
}

/// Parses the alias block whose first line starts at `i`: returns where
/// the block ends and its `Alias`, or nothing where the line at `i` does not
/// declare an alias.
pub fn parse_alias(s: &Vec<char>, i: usize) -> (r: Option<(usize, Attribute)>)
    requires
        i <= s.len(),
    ensures
        match r {
            Some((end, a)) => end <= s.len() && (alias_block(s@, i as int) matches Some((e, types))
                && e == end && a@ == (AttrModel::Alias { types: types })),
            None => alias_block(s@, i as int) is None,
        },
{
    let e = find_line_end(s, i);
    let line = slice_chars(s, i, e);
    let (c, t) = alias_type_range(&line)?;
    let first = strip_white_chars(&slice_chars(&line, c, t));
    let (end, types) = scan_continuation(s, next_line_from(s, e), first);
    Some((end, Attribute::Alias { types: string_of(&types) }))
}

/// Takes every alias block out of `source`, and returns one `Alias` for
/// each, in the order of the text.
pub fn extract_alias(source: &mut String) -> (r: Vec<Attribute>)
    ensures
        final(source)@ == extracted(old(source)@, 0).0,
        r@.map_values(|a: Attribute| a@) == extracted(old(source)@, 0).1.map_values(
            |t: Seq<char>| AttrModel::Alias { types: t },
        ),
{
    let s = chars_of(source.as_str());
    let ghost all = extracted(s@, 0);
    let mut kept: Vec<char> = Vec::new();
    let mut found: Vec<Attribute> = Vec::new();
    let mut i: usize = 0;
    while i < s.len()
        invariant
            i <= s.len(),
            s@ == old(source)@,
            kept@ + extracted(s@, i as int).0 == all.0,
            found@.map_values(|a: Attribute| a@) + extracted(s@, i as int).1.map_values(
                |t: Seq<char>| AttrModel::Alias { types: t },
            ) == all.1.map_values(|t: Seq<char>| AttrModel::Alias { types: t }),
        decreases s.len() - i,
    {
        let e = find_line_end(&s, i);
        let nxt = next_line_from(&s, e);
        let ghost rest_at_i = extracted(s@, i as int);
        match parse_alias(&s, i) {
            Some((end, alias)) => {
                if end > i {
                    let ghost f0 = found@.map_values(|a: Attribute| a@);
                    let ghost tail = extracted(s@, end as int).1.map_values(
                        |t: Seq<char>| AttrModel::Alias { types: t },
                    );
                    let ghost m = alias@;
                    found.push(alias);
                    assert(found@.map_values(|a: Attribute| a@) =~= f0.push(m));
                    assert(rest_at_i.1.map_values(|t: Seq<char>| AttrModel::Alias { types: t })
                        =~= seq![m] + tail);
                    assert(f0.push(m) + tail =~= f0 + (seq![m] + tail));
                    i = end;
                } else {
                    assert(extracted(s@, i as int).0 =~= Seq::<char>::empty());
                    assert(extracted(s@, i as int).1 =~= Seq::<Seq<char>>::empty());
                    i = s.len();
                }
            },
            None => {
                if nxt > i {
                    let ghost k0 = kept@;
                    let piece = slice_chars(&s, i, nxt);
                    push_all(&mut kept, &piece);
                    assert(k0 + rest_at_i.0 =~= kept@ + extracted(s@, nxt as int).0);
                    i = nxt;
                } else {
                    assert(extracted(s@, i as int).0 =~= Seq::<char>::empty());
                    assert(extracted(s@, i as int).1 =~= Seq::<Seq<char>>::empty());
                    i = s.len();
                }
            },
        }
    }
    *source = string_of(&kept);
    proof {
        assert(kept@ =~= kept@ + extracted(s@, i as int).0);
        assert(found@.map_values(|a: Attribute| a@) =~= found@.map_values(|a: Attribute| a@)
            + extracted(s@, i as int).1.map_values(|t: Seq<char>| AttrModel::Alias { types: t }));
    }
    found
}

} // verus!

verus! {

/// Index `p` of `s` starts a line.
pub open spec fn line_start(s: Seq<char>, p: int) -> bool {
    p == 0 || (0 < p <= s.len() && s[p - 1] == '\n')
}

proof fn lemma_no_break_before_end(s: Seq<char>, i: int, k: int)
    requires
        0 <= i <= k < line_end(s, i),
    ensures
        k < s.len() && s[k] != '\n',
    decreases s.len() - i,
{
    if i < s.len() && s[i] != '\n' && i < k {
        lemma_no_break_before_end(s, i + 1, k);
    }
}

proof fn lemma_line_end_break(s: Seq<char>, i: int)
    requires
        0 <= i,
    ensures
        line_end(s, i) < s.len() ==> s[line_end(s, i)] == '\n',
    decreases s.len() - i,
{
    if i < s.len() && s[i] != '\n' {
        lemma_line_end_break(s, i + 1);
    }
}

proof fn lemma_line_end_shift(a: Seq<char>, b: Seq<char>, q: int)
    requires
        0 <= q <= b.len(),
    ensures
        line_end(a + b, a.len() + q) == a.len() + line_end(b, q),
    decreases b.len() - q,
{
    if q < b.len() {
        assert((a + b)[a.len() + q] == b[q]);
        if b[q] != '\n' {
            lemma_line_end_shift(a, b, q + 1);
        }
    }
}

/// `line_end` of `t` from `k` is `e` when `t` holds no break in `[k, e)`
/// and holds one at `e`, or ends there.
proof fn lemma_line_end_at(t: Seq<char>, k: int, e: int)
    requires
        0 <= k <= e <= t.len(),
        forall|j: int| k <= j < e ==> t[j] != '\n',
        e == t.len() || t[e] == '\n',
    ensures
        line_end(t, k) == e,
    decreases e - k,
{
    if k < e {
        lemma_line_end_at(t, k + 1, e);
    }
}

/// A line of a kept line of `s` followed by `rest` is either that line of
/// `s` itself or a line of `rest`.
proof fn lemma_kept_line(s: Seq<char>, i: int, rest: Seq<char>, p: int)
    requires
        0 <= i < s.len(),
        i < next_line(s, line_end(s, i)) <= s.len(),
        next_line(s, line_end(s, i)) == s.len() ==> rest.len() == 0,
        0 <= p < (s.subrange(i, next_line(s, line_end(s, i))) + rest).len(),
        line_start(s.subrange(i, next_line(s, line_end(s, i))) + rest, p),
    ensures
        ({
            let piece = s.subrange(i, next_line(s, line_end(s, i)));
            let kept = piece + rest;
            (p == 0 && line_at(kept, 0) == line_at(s, i)) || (p >= piece.len() && line_start(
                rest,
                p - piece.len(),
            ) && p - piece.len() < rest.len() && line_at(kept, p) == line_at(rest, p - piece.len()))
        }),
{
    let e = line_end(s, i);
    crate::text::lemma_line_end_bounds(s, i);
    let nxt = next_line(s, e);
    let piece = s.subrange(i, nxt);
    let kept = piece + rest;
    if p == 0 {
        assert forall|j: int| 0 <= j < e - i implies kept[j] != '\n' by {
            lemma_no_break_before_end(s, i, i + j);
            assert(kept[j] == s[i + j]);
        }
        lemma_line_end_break(s, i);
        if e < s.len() {
            assert(kept[e - i] == s[e]);
        } else {
            assert(kept.len() == e - i);
        }
        lemma_line_end_at(kept, 0, e - i);
        assert(line_at(kept, 0) =~= line_at(s, i));
    } else if p < piece.len() {
        assert(kept[p - 1] == s[i + p - 1]);
        lemma_no_break_before_end(s, i, i + p - 1);
    } else {
        let q = p - piece.len();
        lemma_line_end_shift(piece, rest, q);
        crate::text::lemma_line_end_bounds(rest, q);
        if q > 0 {
            assert(kept[p - 1] == rest[q - 1]);
        }
        assert(line_start(rest, q));
        assert(line_at(kept, p) =~= line_at(rest, q));
    }
}

proof fn lemma_extracted_clean(s: Seq<char>, i: int)
    requires
        0 <= i,
    ensures
        forall|p: int|
            0 <= p < extracted(s, i).0.len() && line_start(extracted(s, i).0, p)
                ==> crate::attr::alias_line(#[trigger] line_at(extracted(s, i).0, p)) is None,
    decreases s.len() - i,
{
    if i < s.len() {
        let nxt = next_line(s, line_end(s, i));
        match alias_block(s, i) {
            Some((end, types)) => {
                if i < end <= s.len() {
                    lemma_extracted_clean(s, end);
                }
            },
            None => {
                if i < nxt <= s.len() {
                    lemma_extracted_clean(s, nxt);
                    let rest = extracted(s, nxt).0;
                    let kept = s.subrange(i, nxt) + rest;
                    assert(kept == extracted(s, i).0);
                    assert forall|p: int|
                        0 <= p < kept.len() && line_start(kept, p) implies crate::attr::alias_line(
                        #[trigger] line_at(kept, p),
                    ) is None by {
                        lemma_kept_line(s, i, rest, p);
                    }
                }
            },
        }
    }
}

/// Every continuation line of `s` follows an alias line or another
/// continuation line: none stands alone.
pub open spec fn no_stray_continuation(s: Seq<char>) -> bool {
    &&& s.len() > 0 ==> continuation_line(line_at(s, 0)) is None
    &&& forall|i: int|
        0 <= i < s.len() && line_start(s, i) && next_line(s, line_end(s, i)) < s.len()
            && continuation_line(#[trigger] line_at(s, next_line(s, line_end(s, i)))) is Some
            ==> crate::attr::alias_line(line_at(s, i)) is Some || continuation_line(line_at(s, i))
            is Some
}

proof fn lemma_next_line_start(s: Seq<char>, j: int)
    requires
        0 <= j < s.len(),
    ensures
        j < next_line(s, line_end(s, j)) <= s.len(),
        next_line(s, line_end(s, j)) < s.len() ==> line_start(s, next_line(s, line_end(s, j))),
{
    crate::text::lemma_line_end_bounds(s, j);
    lemma_line_end_break(s, j);
}

/// The continuation lines of a block run up to a line that is not one.
proof fn lemma_continuation_stop(s: Seq<char>, j: int, acc: Seq<char>)
    requires
        0 <= j,
        j < s.len() ==> line_start(s, j),
    ensures
        continuation(s, j, acc).0 >= j,
        continuation(s, j, acc).0 < s.len() ==> line_start(s, continuation(s, j, acc).0)
            && continuation_line(line_at(s, continuation(s, j, acc).0)) is None,
    decreases s.len() - j,
{
    if j < s.len() {
        lemma_next_line_start(s, j);
        if let Some((c, t)) = continuation_line(line_at(s, j)) {
            let nxt = next_line(s, line_end(s, j));
            lemma_continuation_stop(
                s,
                nxt,
                acc + seq!['|'] + strip_white(line_at(s, j).subrange(c, t)),
            );
        }
    }
}

proof fn lemma_extracted_no_continuation(s: Seq<char>, i: int)
    requires
        0 <= i,
        no_stray_continuation(s),
        i < s.len() ==> line_start(s, i) && continuation_line(line_at(s, i)) is None,
    ensures
        forall|p: int|
            0 <= p < extracted(s, i).0.len() && line_start(extracted(s, i).0, p)
                ==> continuation_line(#[trigger] line_at(extracted(s, i).0, p)) is None,
    decreases s.len() - i,
{
    if i < s.len() {
        let nxt = next_line(s, line_end(s, i));
        lemma_next_line_start(s, i);
        match alias_block(s, i) {
            Some((end, types)) => {
                let (c, t) = crate::attr::alias_line(line_at(s, i)).unwrap();
                lemma_continuation_stop(s, nxt, strip_white(line_at(s, i).subrange(c, t)));
                if i < end <= s.len() {
                    lemma_extracted_no_continuation(s, end);
                }
            },
            None => {
                if nxt < s.len() {
                    assert(continuation_line(line_at(s, nxt)) is None);
                }
                lemma_extracted_no_continuation(s, nxt);
                let rest = extracted(s, nxt).0;
                let kept = s.subrange(i, nxt) + rest;
                assert(kept == extracted(s, i).0);
                assert forall|p: int|
                    0 <= p < kept.len() && line_start(kept, p) implies continuation_line(
                    #[trigger] line_at(kept, p),
                ) is None by {
                    lemma_kept_line(s, i, rest, p);
                }
            },
        }
    }
}

/// After extraction no line of the text is the first line of an alias block.
pub proof fn law_aliases_removed(s: Seq<char>)
    ensures
        forall|p: int|
            0 <= p < extracted(s, 0).0.len() && line_start(extracted(s, 0).0, p)
                ==> crate::attr::alias_line(#[trigger] line_at(extracted(s, 0).0, p)) is None,
{
    lemma_extracted_clean(s, 0);
}

/// After extraction no line of the text continues an alias, provided that
/// before it every continuation line belonged to an alias block.
pub proof fn law_continuations_removed(s: Seq<char>)
    requires
        no_stray_continuation(s),
    ensures
        forall|p: int|
            0 <= p < extracted(s, 0).0.len() && line_start(extracted(s, 0).0, p)
                ==> continuation_line(#[trigger] line_at(extracted(s, 0).0, p)) is None,
{
    lemma_extracted_no_continuation(s, 0);
}

} // verus!

verus! {

/// Takes every `@type` out of `source`, before the text is parsed: the
/// target dialect has no such tag.
pub fn remove_type_tags(source: &mut String)
    ensures
        final(source)@ == crate::text::remove_all(old(source)@, "@type"@),
{
    let s = chars_of(source.as_str());
    let tag = chars_of("@type");
    let kept = crate::text::remove_all_chars(&s, &tag);
    *source = string_of(&kept);
}

} // verus!
