//! The chunk assembler: which comment runs document which statements.
use vstd::prelude::*;
use crate::attr::classify;
use crate::chunk::{alias_free, parse_comments, parsed, texts, models, Chunk};
use crate::tree::{decl_of, node_to_decl, NodeKind, SyntaxTree};

verus! {

/// A run of comment nodes and the statement node that follows it.
pub struct Run {
    pub comments: Vec<usize>,
    pub decl: usize,
}

pub open spec fn run_view(r: Run) -> (Seq<usize>, usize) {
    (r.comments@, r.decl)
}

/// Where the assembler stands after some of the top-level nodes: the runs
/// found so far, the comment run still open, and the line of its last comment.
pub struct ScanState {
    pub runs: Seq<(Seq<usize>, usize)>,
    pub pending: Seq<usize>,
    pub prev: Option<int>,
}

/// One top-level node read: a comment extends the open run, or starts a new
/// one where a line lies between; a statement on the line right after the
/// run closes it into a chunk; any other node drops the open run.
pub open spec fn step(t: &SyntaxTree, st: ScanState, n: usize) -> ScanState {
    if t.kind(n as int) == NodeKind::Comment {
        ScanState {
            runs: st.runs,
            pending: match st.prev {
                Some(l) => if t.row(n as int) != l + 1 {
                    seq![n]
                } else {
                    st.pending.push(n)
                },
                None => st.pending.push(n),
            },
            prev: Some(t.row(n as int)),
        }
    } else if st.prev matches Some(l) && t.row(n as int) == l + 1 {
        ScanState { runs: st.runs.push((st.pending, n)), pending: seq![], prev: None }
    } else {
        ScanState { runs: st.runs, pending: seq![], prev: None }
    }
}

pub open spec fn scan(t: &SyntaxTree, kids: Seq<usize>) -> ScanState
    decreases kids.len(),
{
    if kids.len() == 0 {
        ScanState { runs: seq![], pending: seq![], prev: None }
    } else {
        step(t, scan(t, kids.drop_last()), kids.last())
    }
}

/// The runs of the top-level nodes, in order.
pub open spec fn runs_of(t: &SyntaxTree) -> Seq<(Seq<usize>, usize)> {
    scan(t, t.kids(0)).runs
}

/// Comments on consecutive lines.
pub open spec fn contiguous(t: &SyntaxTree, cs: Seq<usize>) -> bool {
    &&& forall|k: int| 0 <= k < cs.len() ==> t.kind(#[trigger] cs[k] as int) == NodeKind::Comment
    &&& forall|k: int|
        0 <= k < cs.len() - 1 ==> t.row(#[trigger] cs[k + 1] as int) == t.row(cs[k] as int) + 1
}

/// A run documents its statement only when no line lies between: at least
/// one comment, each on the line after the one before, and the statement
/// on the line after the last.
pub open spec fn adjacent(t: &SyntaxTree, r: (Seq<usize>, usize)) -> bool {
    &&& r.0.len() > 0
    &&& contiguous(t, r.0)
    &&& t.kind(r.1 as int) != NodeKind::Comment
    &&& t.row(r.1 as int) == t.row(r.0.last() as int) + 1
}

pub open spec fn scan_inv(t: &SyntaxTree, st: ScanState) -> bool {
    &&& (st.prev is None <==> st.pending.len() == 0)
    &&& st.pending.len() > 0 ==> st.prev == Some(t.row(st.pending.last() as int))
    &&& contiguous(t, st.pending)
    &&& forall|k: int| 0 <= k < st.runs.len() ==> adjacent(t, #[trigger] st.runs[k])
}

proof fn lemma_step_inv(t: &SyntaxTree, st: ScanState, n: usize)
    requires
        scan_inv(t, st),
    ensures
        scan_inv(t, step(t, st, n)),
{
    let s2 = step(t, st, n);
    if t.kind(n as int) == NodeKind::Comment {
        let p = s2.pending;
        assert(contiguous(t, p)) by {
            if p.len() > 1 {
                assert(p == st.pending.push(n));
                assert forall|k: int| 0 <= k < p.len() - 1 implies t.row(#[trigger] p[k + 1] as int)
                    == t.row(p[k] as int) + 1 by {
                    if k + 1 < p.len() - 1 {
                        assert(p[k + 1] == st.pending[k + 1]);
                    }
                    assert(p[k] == st.pending[k]);
                }
            }
        }
    } else if st.prev matches Some(l) && t.row(n as int) == l + 1 {
        assert forall|k: int| 0 <= k < s2.runs.len() implies adjacent(t, #[trigger] s2.runs[k]) by {
            if k < st.runs.len() {
                assert(s2.runs[k] == st.runs[k]);
            }
        }
    }
}

proof fn lemma_scan_inv(t: &SyntaxTree, kids: Seq<usize>)
    ensures
        scan_inv(t, scan(t, kids)),
    decreases kids.len(),
{
    if kids.len() > 0 {
        lemma_scan_inv(t, kids.drop_last());
        lemma_step_inv(t, scan(t, kids.drop_last()), kids.last());
    }
}

/// Every run that the assembler finds documents its statement with no line
/// in between: a blank line between a comment run and a statement (or
/// between two comments) keeps them apart.
pub proof fn law_runs_adjacent(t: &SyntaxTree)
    ensures
        forall|k: int| 0 <= k < runs_of(t).len() ==> adjacent(t, #[trigger] runs_of(t)[k]),
{
    lemma_scan_inv(t, t.kids(0));
}

/// Finds the comment runs among the top-level nodes and the statements they document.
pub fn collect_runs(t: &SyntaxTree) -> (r: Vec<Run>)
    requires
        t.wf(),
    ensures
        r@.map_values(|x: Run| run_view(x)) == runs_of(t),
        forall|k: int| 0 <= k < r@.len() ==> adjacent(t, #[trigger] run_view(r@[k])),
        forall|k: int| 0 <= k < r@.len() ==> (#[trigger] r@[k]).decl < t.nodes@.len(),
        forall|k: int, j: int|
            0 <= k < r@.len() && 0 <= j < r@[k].comments@.len() ==> #[trigger] r@[k].comments@[j]
                < t.nodes@.len(),
{
    let kids = &t.nodes[0].children;
    let mut runs: Vec<Run> = Vec::new();
    let mut pending: Vec<usize> = Vec::new();
    let mut prev: Option<usize> = None;
    let mut i: usize = 0;
    while i < kids.len()
        invariant
            t.wf(),
            kids@ == t.kids(0),
            i <= kids.len(),
            runs@.map_values(|x: Run| run_view(x)) == scan(t, kids@.take(i as int)).runs,
            pending@ == scan(t, kids@.take(i as int)).pending,
            match prev {
                Some(l) => scan(t, kids@.take(i as int)).prev == Some(l as int),
                None => scan(t, kids@.take(i as int)).prev is None,
            },
            forall|k: int| 0 <= k < runs@.len() ==> (#[trigger] runs@[k]).decl < t.nodes@.len(),
            forall|k: int, j: int|
                0 <= k < runs@.len() && 0 <= j < runs@[k].comments@.len()
                    ==> #[trigger] runs@[k].comments@[j] < t.nodes@.len(),
            forall|j: int| 0 <= j < pending@.len() ==> #[trigger] pending@[j] < t.nodes@.len(),
        decreases kids.len() - i,
    {
        assert(kids@.take(i + 1).drop_last() =~= kids@.take(i as int));
        let n = kids[i];
        assert(n < t.nodes@.len()) by {
            assert(t.nodes@[0].children@[i as int] == n);
        }
        let row = t.nodes[n].start_row;
        let adj = match prev {
            Some(l) => l < usize::MAX && row == l + 1,
            None => false,
        };
        if t.nodes[n].kind == NodeKind::Comment {
            if prev.is_some() && !adj {
                pending = Vec::new();
            }
            pending.push(n);
            prev = Some(row);
            assert(pending@ =~= scan(t, kids@.take(i + 1)).pending);
        } else if adj {
            let ghost r0 = runs@;
            let run = Run { comments: pending, decl: n };
            runs.push(run);
            pending = Vec::new();
            prev = None;
            assert(runs@.map_values(|x: Run| run_view(x)) =~= r0.map_values(|x: Run| run_view(x)).push(
                run_view(run),
            ));
            assert(pending@ =~= scan(t, kids@.take(i + 1)).pending);
        } else {
            pending = Vec::new();
            prev = None;
            assert(pending@ =~= scan(t, kids@.take(i + 1)).pending);
        }
        i += 1;
    }
    assert(kids@.take(kids.len() as int) =~= kids@);
    proof {
        law_runs_adjacent(t);
        assert forall|k: int| 0 <= k < runs@.len() implies adjacent(t, #[trigger] run_view(runs@[k])) by {
            assert(runs@.map_values(|x: Run| run_view(x))[k] == run_view(runs@[k]));
            assert(runs@.map_values(|x: Run| run_view(x)) == runs_of(t));
            assert(adjacent(t, runs_of(t)[k]));
        }
    }
    runs
}

} // verus!

verus! {

/// The texts of the comment nodes `cs`.
pub open spec fn comment_texts(t: &SyntaxTree, cs: Seq<usize>) -> Seq<Seq<char>> {
    cs.map_values(|n: usize| t.text(n as int))
}

/// Chunk `c` is what run `r` becomes.
pub open spec fn chunk_of_run(t: &SyntaxTree, r: (Seq<usize>, usize), c: Chunk) -> bool {
    &&& parsed(comment_texts(t, r.0)) == (texts(c.body@), models(c.attributes@))
    &&& c.decl@ == decl_of(t, r.1 as int)
    &&& c.decl.node() == r.1
}

/// No comment of the tree declares a type alias.
pub open spec fn no_stray_alias(t: &SyntaxTree) -> bool {
    forall|n: int|
        0 <= n < t.nodes@.len() && t.kind(n) == NodeKind::Comment ==> !(classify(
            #[trigger] t.text(n),
        ) is StrayAlias)
}

/// Finds a comment that declares a type alias, if there is one.
pub fn find_stray_alias(t: &SyntaxTree) -> (r: Option<usize>)
    ensures
        match r {
            Some(n) => n < t.nodes@.len() && t.kind(n as int) == NodeKind::Comment && (classify(
                t.text(n as int),
            ) is StrayAlias),
            None => no_stray_alias(t),
        },
{
    let mut n: usize = 0;
    while n < t.nodes.len()
        invariant
            n <= t.nodes@.len(),
            forall|m: int|
                0 <= m < n && t.kind(m) == NodeKind::Comment ==> !(classify(
                    #[trigger] t.text(m),
                ) is StrayAlias),
        decreases t.nodes.len() - n,
    {
        if t.nodes[n].kind == NodeKind::Comment {
            if let crate::attr::LineKind::StrayAlias = crate::attr::parse_line(
                t.nodes[n].text.as_str(),
            ) {
                return Some(n);
            }
        }
        n += 1;
    }
    None
}

/// The chunks of a syntax tree: one for each comment run that documents a
/// statement, in order.
pub fn assemble_chunks(t: &SyntaxTree) -> (cs: Vec<Chunk>)
    requires
        t.wf(),
        no_stray_alias(t),
    ensures
        cs@.len() == runs_of(t).len(),
        forall|k: int| 0 <= k < cs@.len() ==> chunk_of_run(t, runs_of(t)[k], #[trigger] cs@[k]),
        forall|k: int| 0 <= k < cs@.len() ==> (#[trigger] cs@[k]).decl.node() < t.nodes@.len(),
{
    let runs = collect_runs(t);
    let ghost rv = runs@.map_values(|x: Run| run_view(x));
    let mut chunks: Vec<Chunk> = Vec::new();
    let mut k: usize = 0;
    while k < runs.len()
        invariant
            t.wf(),
            rv == runs_of(t),
            rv == runs@.map_values(|x: Run| run_view(x)),
            no_stray_alias(t),
            forall|q: int| 0 <= q < runs@.len() ==> adjacent(t, #[trigger] run_view(runs@[q])),
            k <= runs.len(),
            chunks@.len() == k,
            forall|j: int| 0 <= j < k ==> chunk_of_run(t, rv[j], #[trigger] chunks@[j]),
            forall|j: int| 0 <= j < k ==> (#[trigger] chunks@[j]).decl.node() < t.nodes@.len(),
            forall|q: int| 0 <= q < runs@.len() ==> (#[trigger] runs@[q]).decl < t.nodes@.len(),
            forall|q: int, j: int|
                0 <= q < runs@.len() && 0 <= j < runs@[q].comments@.len() ==> #[trigger] runs@[q].comments@[j]
                    < t.nodes@.len(),
        decreases runs.len() - k,
    {
        let run = &runs[k];
        assert(rv[k as int] == run_view(*run));
        assert(adjacent(t, run_view(*run)));
        let mut lines: Vec<String> = Vec::new();
        let mut j: usize = 0;
        while j < run.comments.len()
            invariant
                t.wf(),
                j <= run.comments.len(),
                forall|q: int| 0 <= q < run.comments@.len() ==> #[trigger] run.comments@[q] < t.nodes@.len(),
                texts(lines@) == comment_texts(t, run.comments@.take(j as int)),
            decreases run.comments.len() - j,
        {
            let n = run.comments[j];
            let ghost l0 = lines@;
            lines.push(t.nodes[n].text.clone());
            assert(texts(lines@) =~= texts(l0).push(t.text(n as int)));
            assert(comment_texts(t, run.comments@.take(j + 1)) =~= comment_texts(
                t,
                run.comments@.take(j as int),
            ).push(t.text(n as int)));
            j += 1;
        }
        assert(run.comments@.take(run.comments.len() as int) =~= run.comments@);
        assert(alias_free(texts(lines@))) by {
            assert forall|q: int| 0 <= q < texts(lines@).len() implies !(classify(
                #[trigger] texts(lines@)[q],
            ) is StrayAlias) by {
                assert(texts(lines@)[q] == t.text(run.comments@[q] as int));
                assert(t.kind(run.comments@[q] as int) == NodeKind::Comment);
            }
        }
        let (body, attributes) = parse_comments(&lines);
        let decl = node_to_decl(t, run.decl);
        chunks.push(Chunk { body, attributes, decl });
        k += 1;
    }
    chunks
}

} // verus!
