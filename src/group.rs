//! The regrouping engine: module and class chunks first, each followed by
//! its members, then every chunk that belongs to none.
use vstd::prelude::*;
use crate::attr::Attribute;
use crate::text::push_str;
use crate::tree::{Declaration, SyntaxTree};
use crate::assemble::{assemble_chunks, chunk_of_run, no_stray_alias, runs_of};
use crate::chunk::{chunk_text, Chunk};
use crate::examples::{replace_examples, rewritten};

verus! {

pub open spec fn has_nodoc(c: Chunk) -> bool {
    exists|i: int| 0 <= i < c.attributes@.len() && (#[trigger] c.attributes@[i]@) is NoDoc
}

pub open spec fn has_class(c: Chunk) -> bool {
    exists|i: int| 0 <= i < c.attributes@.len() && (#[trigger] c.attributes@[i]@) is Class
}

/// A module or class chunk: it declares a class and is not suppressed.
pub open spec fn is_owner(c: Chunk) -> bool {
    !has_nodoc(c) && has_class(c)
}

/// Any other chunk that is not suppressed.
pub open spec fn is_member(c: Chunk) -> bool {
    !has_nodoc(c) && !has_class(c)
}

/// The first owner, from index `i` on, whose declaration bears the name `nm`.
pub open spec fn owner_named(cs: Seq<Chunk>, nm: Seq<char>, i: int) -> Option<int>
    decreases cs.len() - i,
{
    if i < 0 || i >= cs.len() {
        None
    } else if is_owner(cs[i]) && cs[i].decl.name() == Some(nm) {
        Some(i)
    } else {
        owner_named(cs, nm, i + 1)
    }
}

/// The owner that chunk `i` is filed under: the first owner with the name of
/// its declaration, if there is one. Where two owners share a name, their
/// members all go to the first of them, so that none is written twice.
pub open spec fn home(cs: Seq<Chunk>, i: int) -> Option<int> {
    match cs[i].decl.name() {
        Some(nm) => owner_named(cs, nm, 0),
        None => None,
    }
}

/// The members among the first `upto` chunks that are filed under owner `j`, in order.
pub open spec fn members_of(cs: Seq<Chunk>, j: int, upto: int) -> Seq<int>
    decreases upto,
{
    if upto <= 0 {
        seq![]
    } else if is_member(cs[upto - 1]) && home(cs, upto - 1) == Some(j) {
        members_of(cs, j, upto - 1).push(upto - 1)
    } else {
        members_of(cs, j, upto - 1)
    }
}

/// The members among the first `upto` chunks that are filed under no owner, in order.
pub open spec fn unfiled(cs: Seq<Chunk>, upto: int) -> Seq<int>
    decreases upto,
{
    if upto <= 0 {
        seq![]
    } else if is_member(cs[upto - 1]) && home(cs, upto - 1) is None {
        unfiled(cs, upto - 1).push(upto - 1)
    } else {
        unfiled(cs, upto - 1)
    }
}

/// Each owner among the first `upto` chunks, in order, each followed by its members.
pub open spec fn sections(cs: Seq<Chunk>, upto: int) -> Seq<int>
    decreases upto,
{
    if upto <= 0 {
        seq![]
    } else if is_owner(cs[upto - 1]) {
        sections(cs, upto - 1) + seq![upto - 1] + members_of(cs, upto - 1, cs.len() as int)
    } else {
        sections(cs, upto - 1)
    }
}

/// The order in which the chunks are written, as indices.
pub open spec fn order(cs: Seq<Chunk>) -> Seq<int> {
    sections(cs, cs.len() as int) + unfiled(cs, cs.len() as int)
}

fn find_nodoc(c: &Chunk) -> (r: bool)
    ensures
        r == has_nodoc(*c),
{
    let mut i: usize = 0;
    while i < c.attributes.len()
        invariant
            i <= c.attributes.len(),
            forall|j: int| 0 <= j < i ==> !((#[trigger] c.attributes@[j])@ is NoDoc),
        decreases c.attributes.len() - i,
    {
        if let Attribute::NoDoc = &c.attributes[i] {
            return true;
        }
        i += 1;
    }
    false
}

fn find_class(c: &Chunk) -> (r: bool)
    ensures
        r == has_class(*c),
{
    let mut i: usize = 0;
    while i < c.attributes.len()
        invariant
            i <= c.attributes.len(),
            forall|j: int| 0 <= j < i ==> !((#[trigger] c.attributes@[j])@ is Class),
        decreases c.attributes.len() - i,
    {
        if let Attribute::Class { .. } = &c.attributes[i] {
            return true;
        }
        i += 1;
    }
    false
}

fn decl_name(d: &Declaration) -> (r: Option<&String>)
    ensures
        match r {
            Some(s) => d.name() == Some(s@),
            None => d.name() is None,
        },
{
    match d {
        Declaration::Function(Some(s), _) => Some(s),
        Declaration::Function(None, _) => None,
        Declaration::Variable(s, _) => Some(s),
        Declaration::Other(_) => None,
    }
}

fn home_of(cs: &Vec<Chunk>, i: usize) -> (r: Option<usize>)
    requires
        i < cs.len(),
    ensures
        match r {
            Some(j) => home(cs@, i as int) == Some(j as int),
            None => home(cs@, i as int) is None,
        },
{
    let nm = match decl_name(&cs[i].decl) {
        Some(s) => s,
        None => return None,
    };
    let mut j: usize = 0;
    while j < cs.len()
        invariant
            j <= cs.len(),
            cs@[i as int].decl.name() == Some(nm@),
            owner_named(cs@, nm@, j as int) == owner_named(cs@, nm@, 0),
        decreases cs.len() - j,
    {
        let c = &cs[j];
        if !find_nodoc(c) && find_class(c) {
            if let Some(m) = decl_name(&c.decl) {
                if *m == *nm {
                    return Some(j);
                }
            }
        }
        j += 1;
    }
    None
}

/// The order in which the chunks are written: each module or class chunk in
/// file order, each directly followed by its members in file order, then
/// the members that belong to no module; suppressed chunks are left out.
pub fn group_order(cs: &Vec<Chunk>) -> (r: Vec<usize>)
    ensures
        r@.map_values(|x: usize| x as int) == order(cs@),
        forall|k: int| 0 <= k < r@.len() ==> #[trigger] r@[k] < cs.len(),
{
    let mut r: Vec<usize> = Vec::new();
    let mut homes: Vec<Option<usize>> = Vec::new();
    let mut owner: Vec<bool> = Vec::new();
    let mut member: Vec<bool> = Vec::new();
    let mut i: usize = 0;
    while i < cs.len()
        invariant
            i <= cs.len(),
            homes@.len() == i && owner@.len() == i && member@.len() == i,
            forall|k: int| 0 <= k < i ==> match #[trigger] homes@[k] {
                Some(j) => home(cs@, k) == Some(j as int),
                None => home(cs@, k) is None,
            },
            forall|k: int| 0 <= k < i ==> #[trigger] owner@[k] == is_owner(cs@[k]),
            forall|k: int| 0 <= k < i ==> #[trigger] member@[k] == is_member(cs@[k]),
        decreases cs.len() - i,
    {
        let nd = find_nodoc(&cs[i]);
        let cl = find_class(&cs[i]);
        homes.push(home_of(cs, i));
        owner.push(!nd && cl);
        member.push(!nd && !cl);
        i += 1;
    }
    let mut o: usize = 0;
    while o < cs.len()
        invariant
            o <= cs.len(),
            homes@.len() == cs.len() && owner@.len() == cs.len() && member@.len() == cs.len(),
            forall|k: int| 0 <= k < cs.len() ==> match #[trigger] homes@[k] {
                Some(j) => home(cs@, k) == Some(j as int),
                None => home(cs@, k) is None,
            },
            forall|k: int| 0 <= k < cs.len() ==> #[trigger] owner@[k] == is_owner(cs@[k]),
            forall|k: int| 0 <= k < cs.len() ==> #[trigger] member@[k] == is_member(cs@[k]),
            r@.map_values(|x: usize| x as int) == sections(cs@, o as int),
            forall|k: int| 0 <= k < r@.len() ==> #[trigger] r@[k] < cs.len(),
        decreases cs.len() - o,
    {
        if owner[o] {
            let ghost r0 = r@.map_values(|x: usize| x as int);
            r.push(o);
            let mut m: usize = 0;
            while m < cs.len()
                invariant
                    o < cs.len(),
                    m <= cs.len(),
                    homes@.len() == cs.len() && member@.len() == cs.len(),
                    forall|k: int| 0 <= k < cs.len() ==> match #[trigger] homes@[k] {
                        Some(j) => home(cs@, k) == Some(j as int),
                        None => home(cs@, k) is None,
                    },
                    forall|k: int| 0 <= k < cs.len() ==> #[trigger] member@[k] == is_member(cs@[k]),
                    r@.map_values(|x: usize| x as int) == r0 + seq![o as int] + members_of(
                        cs@,
                        o as int,
                        m as int,
                    ),
                    forall|k: int| 0 <= k < r@.len() ==> #[trigger] r@[k] < cs.len(),
                decreases cs.len() - m,
            {
                let ghost before = r@.map_values(|x: usize| x as int);
                if member[m] && homes[m] == Some(o) {
                    r.push(m);
                    assert(r@.map_values(|x: usize| x as int) =~= before.push(m as int));
                }
                m += 1;
            }
        }
        o += 1;
    }
    let mut u: usize = 0;
    let ghost secs = r@.map_values(|x: usize| x as int);
    while u < cs.len()
        invariant
            u <= cs.len(),
            homes@.len() == cs.len() && member@.len() == cs.len(),
            forall|k: int| 0 <= k < cs.len() ==> match #[trigger] homes@[k] {
                Some(j) => home(cs@, k) == Some(j as int),
                None => home(cs@, k) is None,
            },
            forall|k: int| 0 <= k < cs.len() ==> #[trigger] member@[k] == is_member(cs@[k]),
            r@.map_values(|x: usize| x as int) == secs + unfiled(cs@, u as int),
            forall|k: int| 0 <= k < r@.len() ==> #[trigger] r@[k] < cs.len(),
        decreases cs.len() - u,
    {
        let ghost before = r@.map_values(|x: usize| x as int);
        if member[u] && homes[u].is_none() {
            r.push(u);
            assert(r@.map_values(|x: usize| x as int) =~= before.push(u as int));
        }
        u += 1;
    }
    r
}

} // verus!

verus! {

/// The chunks `ord` names, written one after the other.
pub open spec fn joined(t: &SyntaxTree, cs: Seq<Chunk>, ord: Seq<int>) -> Seq<char>
    decreases ord.len(),
{
    if ord.len() == 0 {
        seq![]
    } else {
        joined(t, cs, ord.drop_last()) + chunk_text(t, cs[ord.last()])
    }
}

/// Writes the chunks of a file, regrouped.
pub fn render_chunks(t: &SyntaxTree, cs: &Vec<Chunk>) -> (r: String)
    requires
        t.wf(),
        forall|k: int| 0 <= k < cs@.len() ==> (#[trigger] cs@[k]).decl.node() < t.nodes@.len(),
    ensures
        r@ == joined(t, cs@, order(cs@)),
{
    let ord = group_order(cs);
    let ghost ov = ord@.map_values(|x: usize| x as int);
    let mut out: Vec<char> = Vec::new();
    let mut k: usize = 0;
    while k < ord.len()
        invariant
            t.wf(),
            forall|q: int| 0 <= q < cs@.len() ==> (#[trigger] cs@[q]).decl.node() < t.nodes@.len(),
            forall|q: int| 0 <= q < ord@.len() ==> #[trigger] ord@[q] < cs.len(),
            ov == ord@.map_values(|x: usize| x as int),
            k <= ord.len(),
            out@ == joined(t, cs@, ov.take(k as int)),
        decreases ord.len() - k,
    {
        assert(ov.take(k + 1).drop_last() =~= ov.take(k as int));
        assert(ov.take(k + 1).last() == ord@[k as int] as int);
        let c = &cs[ord[k]];
        let s = c.to_ldoc_string(t);
        push_str(&mut out, s.as_str());
        k += 1;
    }
    assert(ov.take(ord.len() as int) =~= ov);
    crate::text::string_of(&out)
}

} // verus!

verus! {

/// The documentation of a parsed file: its chunks, regrouped and written in
/// the target dialect, with example blocks rewritten.
pub fn document(t: &SyntaxTree) -> (r: String)
    requires
        t.wf(),
        no_stray_alias(t),
    ensures
        exists|cs: Seq<Chunk>|
            {
                &&& cs.len() == runs_of(t).len()
                &&& forall|k: int| 0 <= k < cs.len() ==> chunk_of_run(t, runs_of(t)[k], #[trigger] cs[k])
                &&& r@ == rewritten(joined(t, cs, order(cs)), 0)
            },
{
    let chunks = assemble_chunks(t);
    let mut text = render_chunks(t, &chunks);
    replace_examples(&mut text);
    assert(chunks@.len() == runs_of(t).len());
    text
}

} // verus!

verus! {

/// The section a kept chunk is written in: an owner's own index for the
/// owner and its members, the number of chunks for the unfiled ones.
pub open spec fn group(cs: Seq<Chunk>, i: int) -> int {
    if is_owner(cs[i]) {
        i
    } else {
        match home(cs, i) {
            Some(j) => j,
            None => cs.len() as int,
        }
    }
}

/// Within a section the owner comes before its members.
pub open spec fn rank(cs: Seq<Chunk>, i: int) -> int {
    if is_owner(cs[i]) { 0 } else { 1 }
}

/// Chunk `a` is written before chunk `b`: by section, then owner first,
/// then in file order.
pub open spec fn before(cs: Seq<Chunk>, a: int, b: int) -> bool {
    group(cs, a) < group(cs, b) || (group(cs, a) == group(cs, b) && (rank(cs, a) < rank(cs, b)
        || (rank(cs, a) == rank(cs, b) && a < b)))
}

pub open spec fn sorted(cs: Seq<Chunk>, s: Seq<int>) -> bool {
    forall|p: int, q: int| 0 <= p < q < s.len() ==> before(cs, #[trigger] s[p], #[trigger] s[q])
}

proof fn lemma_owner_named(cs: Seq<Chunk>, nm: Seq<char>, i: int)
    requires
        0 <= i,
    ensures
        owner_named(cs, nm, i) matches Some(j) ==> i <= j < cs.len() && is_owner(cs[j]),
    decreases cs.len() - i,
{
    if i < cs.len() && !(is_owner(cs[i]) && cs[i].decl.name() == Some(nm)) {
        lemma_owner_named(cs, nm, i + 1);
    }
}

proof fn lemma_home(cs: Seq<Chunk>, i: int)
    ensures
        home(cs, i) matches Some(j) ==> 0 <= j < cs.len() && is_owner(cs[j]),
{
    if let Some(nm) = cs[i].decl.name() {
        lemma_owner_named(cs, nm, 0);
    }
}

proof fn lemma_members_of(cs: Seq<Chunk>, j: int, upto: int)
    requires
        0 <= upto <= cs.len(),
    ensures
        forall|p: int|
            0 <= p < members_of(cs, j, upto).len() ==> {
                let e = #[trigger] members_of(cs, j, upto)[p];
                0 <= e < upto && is_member(cs[e]) && home(cs, e) == Some(j)
            },
        forall|p: int, q: int|
            0 <= p < q < members_of(cs, j, upto).len() ==> #[trigger] members_of(cs, j, upto)[p]
                < #[trigger] members_of(cs, j, upto)[q],
        forall|e: int|
            0 <= e < upto && is_member(cs[e]) && home(cs, e) == Some(j) ==> #[trigger] members_of(
                cs,
                j,
                upto,
            ).contains(e),
    decreases upto,
{
    if upto > 0 {
        lemma_members_of(cs, j, upto - 1);
        let prev = members_of(cs, j, upto - 1);
        if is_member(cs[upto - 1]) && home(cs, upto - 1) == Some(j) {
            let m = prev.push(upto - 1);
            assert forall|e: int|
                0 <= e < upto && is_member(cs[e]) && home(cs, e) == Some(j) implies #[trigger] m.contains(
                e,
            ) by {
                if e < upto - 1 {
                    assert(prev.contains(e));
                    let p = choose|p: int| 0 <= p < prev.len() && prev[p] == e;
                    assert(m[p] == e);
                } else {
                    assert(m[m.len() - 1] == e);
                }
            }
            assert forall|p: int, q: int| 0 <= p < q < m.len() implies #[trigger] m[p] < #[trigger] m[q] by {
                if q < m.len() - 1 {
                    assert(m[p] == prev[p] && m[q] == prev[q]);
                } else {
                    assert(m[p] == prev[p]);
                }
            }
            assert forall|p: int| 0 <= p < m.len() implies {
                let e = #[trigger] m[p];
                0 <= e < upto && is_member(cs[e]) && home(cs, e) == Some(j)
            } by {
                if p < m.len() - 1 {
                    assert(m[p] == prev[p]);
                }
            }
        }
    }
}

proof fn lemma_unfiled(cs: Seq<Chunk>, upto: int)
    requires
        0 <= upto <= cs.len(),
    ensures
        forall|p: int|
            0 <= p < unfiled(cs, upto).len() ==> {
                let e = #[trigger] unfiled(cs, upto)[p];
                0 <= e < upto && is_member(cs[e]) && home(cs, e) is None
            },
        forall|p: int, q: int|
            0 <= p < q < unfiled(cs, upto).len() ==> #[trigger] unfiled(cs, upto)[p]
                < #[trigger] unfiled(cs, upto)[q],
        forall|e: int|
            0 <= e < upto && is_member(cs[e]) && home(cs, e) is None ==> #[trigger] unfiled(
                cs,
                upto,
            ).contains(e),
    decreases upto,
{
    if upto > 0 {
        lemma_unfiled(cs, upto - 1);
        let prev = unfiled(cs, upto - 1);
        if is_member(cs[upto - 1]) && home(cs, upto - 1) is None {
            let m = prev.push(upto - 1);
            assert forall|e: int|
                0 <= e < upto && is_member(cs[e]) && home(cs, e) is None implies #[trigger] m.contains(e) by {
                if e < upto - 1 {
                    assert(prev.contains(e));
                    let p = choose|p: int| 0 <= p < prev.len() && prev[p] == e;
                    assert(m[p] == e);
                } else {
                    assert(m[m.len() - 1] == e);
                }
            }
            assert forall|p: int, q: int| 0 <= p < q < m.len() implies #[trigger] m[p] < #[trigger] m[q] by {
                if q < m.len() - 1 {
                    assert(m[p] == prev[p] && m[q] == prev[q]);
                } else {
                    assert(m[p] == prev[p]);
                }
            }
            assert forall|p: int| 0 <= p < m.len() implies {
                let e = #[trigger] m[p];
                0 <= e < upto && is_member(cs[e]) && home(cs, e) is None
            } by {
                if p < m.len() - 1 {
                    assert(m[p] == prev[p]);
                }
            }
        }
    }
}

} // verus!

verus! {

proof fn lemma_concat_sorted(cs: Seq<Chunk>, a: Seq<int>, b: Seq<int>)
    requires
        sorted(cs, a),
        sorted(cs, b),
        forall|p: int, q: int|
            0 <= p < a.len() && 0 <= q < b.len() ==> before(cs, #[trigger] a[p], #[trigger] b[q]),
    ensures
        sorted(cs, a + b),
{
    let s = a + b;
    assert forall|p: int, q: int| 0 <= p < q < s.len() implies before(cs, #[trigger] s[p], #[trigger] s[q]) by {
        if q < a.len() {
            assert(s[p] == a[p] && s[q] == a[q]);
        } else if p >= a.len() {
            assert(s[p] == b[p - a.len()] && s[q] == b[q - a.len()]);
        } else {
            assert(s[p] == a[p] && s[q] == b[q - a.len()]);
        }
    }
}

proof fn lemma_group_bounds(cs: Seq<Chunk>, e: int)
    requires
        0 <= e < cs.len(),
        !has_nodoc(cs[e]),
    ensures
        0 <= group(cs, e) <= cs.len(),
        group(cs, e) == cs.len() <==> (is_member(cs[e]) && home(cs, e) is None),
        is_member(cs[e]) ==> (home(cs, e) matches Some(j) ==> group(cs, e) == j && is_owner(cs[j])),
        is_owner(cs[e]) <==> !is_member(cs[e]),
{
    lemma_home(cs, e);
}

proof fn lemma_sections(cs: Seq<Chunk>, upto: int)
    requires
        0 <= upto <= cs.len(),
    ensures
        forall|p: int|
            0 <= p < sections(cs, upto).len() ==> {
                let e = #[trigger] sections(cs, upto)[p];
                0 <= e < cs.len() && !has_nodoc(cs[e]) && group(cs, e) < upto
            },
        sorted(cs, sections(cs, upto)),
        forall|e: int|
            0 <= e < cs.len() && !has_nodoc(cs[e]) && group(cs, e) < upto ==> #[trigger] sections(
                cs,
                upto,
            ).contains(e),
    decreases upto,
{
    if upto > 0 {
        let o = upto - 1;
        lemma_sections(cs, o);
        let prev = sections(cs, o);
        if is_owner(cs[o]) {
            let m = members_of(cs, o, cs.len() as int);
            lemma_members_of(cs, o, cs.len() as int);
            let blk = seq![o] + m;
            let s = prev + blk;
            assert(s == sections(cs, upto));
            assert forall|p: int| 0 <= p < blk.len() implies {
                let e = #[trigger] blk[p];
                0 <= e < cs.len() && !has_nodoc(cs[e]) && group(cs, e) == o
            } by {
                if p > 0 {
                    assert(blk[p] == m[p - 1]);
                    lemma_group_bounds(cs, m[p - 1]);
                }
            }
            assert(sorted(cs, blk)) by {
                assert forall|p: int, q: int| 0 <= p < q < blk.len() implies before(
                    cs,
                    #[trigger] blk[p],
                    #[trigger] blk[q],
                ) by {
                    assert(blk[q] == m[q - 1]);
                    lemma_group_bounds(cs, m[q - 1]);
                    if p > 0 {
                        assert(blk[p] == m[p - 1]);
                        lemma_group_bounds(cs, m[p - 1]);
                        assert(m[p - 1] < m[q - 1]);
                    }
                }
            }
            assert forall|p: int, q: int|
                0 <= p < prev.len() && 0 <= q < blk.len() implies before(
                cs,
                #[trigger] prev[p],
                #[trigger] blk[q],
            ) by {
                assert(group(cs, blk[q]) == o);
            }
            lemma_concat_sorted(cs, prev, blk);
            assert forall|p: int| 0 <= p < s.len() implies {
                let e = #[trigger] s[p];
                0 <= e < cs.len() && !has_nodoc(cs[e]) && group(cs, e) < upto
            } by {
                if p < prev.len() {
                    assert(s[p] == prev[p]);
                } else {
                    assert(s[p] == blk[p - prev.len()]);
                }
            }
            assert forall|e: int|
                0 <= e < cs.len() && !has_nodoc(cs[e]) && group(cs, e) < upto implies #[trigger] s.contains(
                e,
            ) by {
                lemma_group_bounds(cs, e);
                if group(cs, e) < o {
                    assert(prev.contains(e));
                    let p = choose|p: int| 0 <= p < prev.len() && prev[p] == e;
                    assert(s[p] == e);
                } else if is_owner(cs[e]) {
                    assert(s[prev.len() as int] == e);
                } else {
                    assert(m.contains(e));
                    let p = choose|p: int| 0 <= p < m.len() && m[p] == e;
                    assert(s[prev.len() + 1 + p] == e);
                }
            }
        } else {
            assert forall|e: int|
                0 <= e < cs.len() && !has_nodoc(cs[e]) && group(cs, e) < upto implies #[trigger] prev.contains(
                e,
            ) by {
                lemma_group_bounds(cs, e);
            }
        }
    } else {
        assert forall|e: int|
            0 <= e < cs.len() && !has_nodoc(cs[e]) && group(cs, e) < upto implies #[trigger] sections(
            cs,
            upto,
        ).contains(e) by {
            lemma_group_bounds(cs, e);
        }
    }
}

/// Every chunk that is not suppressed is written exactly once, and a
/// suppressed one never: the order names each index of the first kind once
/// and no other index.
pub proof fn law_grouping_complete(cs: Seq<Chunk>)
    ensures
        forall|p: int| 0 <= p < order(cs).len() ==> 0 <= #[trigger] order(cs)[p] < cs.len(),
        forall|i: int| 0 <= i < cs.len() ==> (#[trigger] order(cs).contains(i) <==> !has_nodoc(cs[i])),
        order(cs).no_duplicates(),
{
    law_grouping_order(cs);
    let n = cs.len() as int;
    let s = sections(cs, n);
    let u = unfiled(cs, n);
    lemma_sections(cs, n);
    lemma_unfiled(cs, n);
    let o = order(cs);
    assert(o == s + u);
    assert forall|p: int| 0 <= p < o.len() implies 0 <= #[trigger] o[p] < cs.len() && !has_nodoc(
        cs[o[p]],
    ) by {
        if p < s.len() {
            assert(o[p] == s[p]);
        } else {
            assert(o[p] == u[p - s.len()]);
        }
    }
    assert forall|i: int| 0 <= i < cs.len() implies (#[trigger] o.contains(i) <==> !has_nodoc(
        cs[i],
    )) by {
        if !has_nodoc(cs[i]) {
            lemma_group_bounds(cs, i);
            if group(cs, i) < n {
                assert(s.contains(i));
                let p = choose|p: int| 0 <= p < s.len() && s[p] == i;
                assert(o[p] == i);
            } else {
                assert(u.contains(i));
                let p = choose|p: int| 0 <= p < u.len() && u[p] == i;
                assert(o[s.len() + p] == i);
            }
        }
    }
    assert forall|p: int, q: int| 0 <= p < o.len() && 0 <= q < o.len() && p != q implies o[p] != o[q] by {
        if p < q {
            assert(before(cs, o[p], o[q]));
        } else {
            assert(before(cs, o[q], o[p]));
        }
    }
}

/// Module and class chunks come in file order; each is followed directly
/// by its members in file order; the members that belong to no module come
/// last, in file order.
pub proof fn law_grouping_order(cs: Seq<Chunk>)
    ensures
        sorted(cs, order(cs)),
{
    let n = cs.len() as int;
    let s = sections(cs, n);
    let u = unfiled(cs, n);
    lemma_sections(cs, n);
    lemma_unfiled(cs, n);
    assert forall|p: int| 0 <= p < u.len() implies group(cs, #[trigger] u[p]) == n && rank(cs, u[p]) == 1 by {
        lemma_group_bounds(cs, u[p]);
    }
    assert(sorted(cs, u));
    assert forall|p: int, q: int| 0 <= p < s.len() && 0 <= q < u.len() implies before(
        cs,
        #[trigger] s[p],
        #[trigger] u[q],
    ) by {
        assert(group(cs, u[q]) == n);
    }
    lemma_concat_sorted(cs, s, u);
}

} // verus!
