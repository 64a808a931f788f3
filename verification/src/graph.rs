//! Commit-graph lane layout: from an ordered commit list (newest first) to one
//! row per commit, giving each commit a lane (column) and the rail glyphs
//! that connect it to its parents.
//!
//! The model is the usual walk over active lanes: each lane remembers the
//! commit it waits to draw next (a child has been drawn, its parent is
//! pending). Lanes waiting for the same commit converge on it; a merge opens a
//! lane for each extra parent that no lane awaits yet.

use vstd::prelude::*;
use crate::git::history::{CommitInfo, Oid, RefLabel};

verus! {

/// One glyph of a graph row, tagged with its lane so rails can be coloured
/// by lane.
#[derive(Clone, Copy, Debug, PartialEq, Eq, Structural)]
pub struct GraphCell {
    pub glyph: char,
    pub lane: usize,
}

/// The graph rail for one commit row.
#[derive(Clone, Debug)]
pub struct GraphRow {
    /// Index into the commit slice this row was built from.
    pub commit: usize,
    /// Column of this commit's node.
    pub node_lane: usize,
    /// Left-to-right rail glyphs for this row.
    pub cells: Vec<GraphCell>,
    /// Names of the refs pointing at this commit.
    pub labels: Vec<String>,
}

pub const NODE: char = '●';
pub const VERTICAL: char = '│';
pub const SPAWN_RIGHT: char = '╮';
pub const SPAWN_LEFT: char = '╭';
pub const JOIN_RIGHT: char = '╯';
pub const JOIN_LEFT: char = '╰';
pub const HORIZONTAL: char = '─';

// ---------------------------------------------------------------------------
// The lane model.
// ---------------------------------------------------------------------------

/// The first index at or after `i` holding `v`, or `lanes.len()`.
pub open spec fn find_from(lanes: Seq<Option<Oid>>, v: Option<Oid>, i: int) -> int
    decreases lanes.len() - i,
{
    if i >= lanes.len() {
        lanes.len() as int
    } else if lanes[i] == v {
        i
    } else {
        find_from(lanes, v, i + 1)
    }
}

/// The first lane holding `v`, or `lanes.len()` when none does.
pub open spec fn position(lanes: Seq<Option<Oid>>, v: Option<Oid>) -> int {
    find_from(lanes, v, 0)
}

/// What lane `j` holds; `None` past the last lane.
pub open spec fn slot(lanes: Seq<Option<Oid>>, j: int) -> Option<Oid> {
    if 0 <= j < lanes.len() {
        lanes[j]
    } else {
        None
    }
}

/// The node's lane for commit `id`: the leftmost lane waiting for it, else
/// the leftmost free lane, else a new lane at the right.
pub open spec fn node_of(before: Seq<Option<Oid>>, id: Oid) -> int {
    let w = position(before, Some(id));
    if w < before.len() {
        w
    } else {
        position(before, None)
    }
}

/// The lanes once the commit is drawn: its node's lane continues with the
/// first parent, the other lanes that waited for it are freed.
pub open spec fn released(
    before: Seq<Option<Oid>>,
    id: Oid,
    node: int,
    first: Option<Oid>,
) -> Seq<Option<Oid>> {
    let len = if node < before.len() {
        before.len() as int
    } else {
        node + 1
    };
    Seq::new(
        len as nat,
        |i: int|
            if i == node {
                first
            } else if slot(before, i) == Some(id) {
                None
            } else {
                slot(before, i)
            },
    )
}

/// `lanes` with `v` put in lane `f` (a new lane when `f` is past the end).
pub open spec fn place(lanes: Seq<Option<Oid>>, f: int, v: Option<Oid>) -> Seq<Option<Oid>> {
    if f < lanes.len() {
        lanes.update(f, v)
    } else {
        lanes.push(v)
    }
}

/// Opens a lane for each of `parents` that no lane awaits yet, in order,
/// each in the leftmost free lane; also returns the lanes opened.
pub open spec fn spawn(lanes: Seq<Option<Oid>>, parents: Seq<Oid>) -> (Seq<Option<Oid>>, Seq<int>)
    decreases parents.len(),
{
    if parents.len() == 0 {
        (lanes, Seq::empty())
    } else {
        let prev = spawn(lanes, parents.drop_last());
        let p = parents.last();
        if prev.0.contains(Some(p)) {
            prev
        } else {
            let f = position(prev.0, None);
            (place(prev.0, f, Some(p)), prev.1.push(f))
        }
    }
}

/// A commit's first parent, if any.
pub open spec fn first_parent(c: CommitInfo) -> Option<Oid> {
    if c.parents@.len() > 0 {
        Some(c.parents@[0])
    } else {
        None
    }
}

/// A commit's parents after the first.
pub open spec fn extra_parents(c: CommitInfo) -> Seq<Oid> {
    if c.parents@.len() > 0 {
        c.parents@.skip(1)
    } else {
        Seq::empty()
    }
}

/// The lanes and the opened lanes after drawing `c` over `before`.
pub open spec fn step(before: Seq<Option<Oid>>, c: CommitInfo) -> (Seq<Option<Oid>>, Seq<int>) {
    let node = node_of(before, c.id);
    spawn(released(before, c.id, node, first_parent(c)), extra_parents(c))
}

/// The lanes after the first `n` commits.
pub open spec fn lanes_through(commits: Seq<CommitInfo>, n: nat) -> Seq<Option<Oid>>
    decreases n,
{
    if n == 0 || n > commits.len() {
        Seq::empty()
    } else {
        step(lanes_through(commits, (n - 1) as nat), commits[n - 1]).0
    }
}

// ---------------------------------------------------------------------------
// The glyphs of a row.
// ---------------------------------------------------------------------------

/// Whether lane `j` waited for commit `id`.
pub open spec fn converges(before: Seq<Option<Oid>>, id: Oid, j: int) -> bool {
    slot(before, j) == Some(id)
}

/// Whether `s` is a side lane of the node: one converging on it or opened
/// from it.
pub open spec fn side_lane(
    before: Seq<Option<Oid>>,
    id: Oid,
    spawned: Seq<int>,
    node: int,
    s: int,
) -> bool {
    s != node && (converges(before, id, s) || spawned.contains(s))
}

/// Whether `j` lies strictly between lanes `a` and `b`.
pub open spec fn between(a: int, b: int, j: int) -> bool {
    (a < j && j < b) || (b < j && j < a)
}

/// The glyph of lane `j`: the node; a corner where a lane opens from it or
/// joins it; a vertical where a lane passes through; a horizontal on the way
/// from the node to a side lane; else blank.
pub open spec fn glyph_at(
    before: Seq<Option<Oid>>,
    after: Seq<Option<Oid>>,
    id: Oid,
    spawned: Seq<int>,
    node: int,
    j: int,
) -> char {
    if j == node {
        NODE
    } else if spawned.contains(j) {
        if j > node {
            SPAWN_RIGHT
        } else {
            SPAWN_LEFT
        }
    } else if converges(before, id, j) {
        if j > node {
            JOIN_RIGHT
        } else {
            JOIN_LEFT
        }
    } else if slot(before, j) is Some || slot(after, j) is Some {
        VERTICAL
    } else if exists|s: int| side_lane(before, id, spawned, node, s) && between(s, node, j) {
        HORIZONTAL
    } else {
        ' '
    }
}

/// The names of the refs that point at `id`, in order.
pub open spec fn labels_of(refs: Seq<RefLabel>, id: Oid) -> Seq<String>
    decreases refs.len(),
{
    if refs.len() == 0 {
        Seq::empty()
    } else {
        let prev = labels_of(refs.drop_last(), id);
        if refs.last().target == id {
            prev.push(refs.last().name)
        } else {
            prev
        }
    }
}

/// Whether `row` is the row of commit `c`, at `index`, drawn over the lanes
/// `before`.
pub open spec fn row_of(
    row: GraphRow,
    index: int,
    before: Seq<Option<Oid>>,
    c: CommitInfo,
    refs: Seq<RefLabel>,
) -> bool {
    let node = node_of(before, c.id);
    let after = step(before, c);
    let width = if before.len() < after.0.len() {
        after.0.len() as int
    } else {
        before.len() as int
    };
    &&& row.commit == index
    &&& row.node_lane == node
    &&& node < width
    &&& row.cells@.len() == width
    &&& forall|j: int|
        0 <= j < width ==> #[trigger] row.cells@[j] == GraphCell {
            glyph: glyph_at(before, after.0, c.id, after.1, node, j),
            lane: j as usize,
        }
    &&& row.labels@ == labels_of(refs, c.id)
}

// ---------------------------------------------------------------------------
// Executable layout.
// ---------------------------------------------------------------------------

/// Whether two lane slots hold the same thing.
fn same_slot(a: Option<Oid>, b: Option<Oid>) -> (r: bool)
    ensures
        r == (a == b),
{
    match (a, b) {
        (Some(x), Some(y)) => x == y,
        (None, None) => true,
        _ => false,
    }
}

/// The first lane holding `v`, or `lanes.len()`.
fn position_of(lanes: &Vec<Option<Oid>>, v: Option<Oid>) -> (r: usize)
    ensures
        r == position(lanes@, v),
        r <= lanes@.len(),
        r < lanes@.len() ==> lanes@[r as int] == v,
        forall|k: int| 0 <= k < r ==> lanes@[k] != v,
{
    let mut i: usize = 0;
    while i < lanes.len()
        invariant
            i <= lanes@.len(),
            find_from(lanes@, v, i as int) == position(lanes@, v),
            forall|k: int| 0 <= k < i ==> lanes@[k] != v,
        decreases lanes.len() - i,
    {
        if same_slot(lanes[i], v) {
            return i;
        }
        i = i + 1;
    }
    i
}

/// Whether some lane holds `v`.
fn lanes_contain(lanes: &Vec<Option<Oid>>, v: Option<Oid>) -> (r: bool)
    ensures
        r == lanes@.contains(v),
{
    let i = position_of(lanes, v);
    i < lanes.len()
}

/// Reuses the leftmost free lane, or opens a new one; returns its index.
fn free_lane(lanes: &mut Vec<Option<Oid>>) -> (r: usize)
    ensures
        r == position(old(lanes)@, None),
        r < final(lanes)@.len(),
        final(lanes)@ == if r < old(lanes)@.len() {
            old(lanes)@
        } else {
            old(lanes)@.push(None)
        },
{
    let i = position_of(lanes, None);
    if i < lanes.len() {
        i
    } else {
        lanes.push(None);
        i
    }
}

/// Whether `v` is one of `xs`.
fn contains_index(xs: &Vec<usize>, v: usize) -> (r: bool)
    ensures
        r == exists|k: int| 0 <= k < xs@.len() && xs@[k] == v,
{
    let mut i: usize = 0;
    while i < xs.len()
        invariant
            i <= xs@.len(),
            forall|k: int| 0 <= k < i ==> xs@[k] != v,
        decreases xs.len() - i,
    {
        if xs[i] == v {
            return true;
        }
        i = i + 1;
    }
    false
}

/// The lane slot `j`, or `None` past the end.
fn slot_of(lanes: &Vec<Option<Oid>>, j: usize) -> (r: Option<Oid>)
    ensures
        r == slot(lanes@, j as int),
{
    if j < lanes.len() {
        lanes[j]
    } else {
        None
    }
}

/// The exec view of the opened lanes as integers.
pub open spec fn as_ints(xs: Seq<usize>) -> Seq<int> {
    xs.map_values(|x: usize| x as int)
}

/// Whether some side lane of the node lies beyond `j` from the node.
fn reaches(
    before: &Vec<Option<Oid>>,
    id: Oid,
    spawned: &Vec<usize>,
    node: usize,
    j: usize,
) -> (r: bool)
    ensures
        r == exists|s: int| side_lane(before@, id, as_ints(spawned@), node as int, s) && between(s, node as int, j as int),
{
    let ghost sp = as_ints(spawned@);
    let mut k: usize = 0;
    while k < before.len()
        invariant
            k <= before@.len(),
            sp == as_ints(spawned@),
            forall|s: int|
                0 <= s < k ==> !(s != node && converges(before@, id, s) && between(s, node as int, j as int)),
        decreases before.len() - k,
    {
        if k != node && same_slot(before[k], Some(id)) {
            let inside = (k < j && j < node) || (node < j && j < k);
            if inside {
                assert(side_lane(before@, id, sp, node as int, k as int) && between(k as int, node as int, j as int));
                return true;
            }
        }
        k = k + 1;
    }
    let mut t: usize = 0;
    while t < spawned.len()
        invariant
            t <= spawned@.len(),
            sp == as_ints(spawned@),
            forall|m: int|
                0 <= m < t ==> !(spawned@[m] != node && between(spawned@[m] as int, node as int, j as int)),
        decreases spawned.len() - t,
    {
        let s = spawned[t];
        if s != node && ((s < j && j < node) || (node < j && j < s)) {
            assert(sp[t as int] == s as int);
            assert(side_lane(before@, id, sp, node as int, s as int) && between(s as int, node as int, j as int));
            return true;
        }
        t = t + 1;
    }
    assert forall|s: int| !(side_lane(before@, id, sp, node as int, s) && between(s, node as int, j as int)) by {
        if side_lane(before@, id, sp, node as int, s) && between(s, node as int, j as int) {
            if converges(before@, id, s) {
                assert(0 <= s < before@.len());
            } else {
                let m = choose|m: int| 0 <= m < sp.len() && sp[m] == s;
                assert(spawned@[m] as int == s);
            }
        }
    }
    false
}

/// The glyph row of a commit: see [`glyph_at`].
fn row_cells(
    node: usize,
    id: Oid,
    spawned: &Vec<usize>,
    before: &Vec<Option<Oid>>,
    after: &Vec<Option<Oid>>,
) -> (cells: Vec<GraphCell>)
    requires
        node < after@.len(),
    ensures
        cells@.len() == if before@.len() < after@.len() {
            after@.len()
        } else {
            before@.len()
        },
        forall|j: int|
            0 <= j < cells@.len() ==> #[trigger] cells@[j] == (GraphCell {
                glyph: glyph_at(before@, after@, id, as_ints(spawned@), node as int, j),
                lane: j as usize,
            }),
{
    let ghost sp = as_ints(spawned@);
    let width: usize = if before.len() < after.len() {
        after.len()
    } else {
        before.len()
    };
    let mut cells: Vec<GraphCell> = Vec::new();
    let mut j: usize = 0;
    while j < width
        invariant
            j <= width,
            width == if before@.len() < after@.len() {
                after@.len()
            } else {
                before@.len()
            },
            sp == as_ints(spawned@),
            cells@.len() == j,
            forall|k: int|
                0 <= k < j ==> #[trigger] cells@[k] == (GraphCell {
                    glyph: glyph_at(before@, after@, id, sp, node as int, k),
                    lane: k as usize,
                }),
        decreases width - j,
    {
        let in_spawned = contains_index(spawned, j);
        proof {
            if in_spawned {
                let k = choose|k: int| 0 <= k < spawned@.len() && spawned@[k] == j;
                assert(sp[k] == j as int);
            } else {
                assert forall|k: int| 0 <= k < sp.len() implies sp[k] != j as int by {
                    assert(spawned@[k] != j);
                }
            }
            assert(in_spawned == sp.contains(j as int));
        }
        let glyph = if j == node {
            NODE
        } else if in_spawned {
            if j > node {
                SPAWN_RIGHT
            } else {
                SPAWN_LEFT
            }
        } else if same_slot(slot_of(before, j), Some(id)) {
            if j > node {
                JOIN_RIGHT
            } else {
                JOIN_LEFT
            }
        } else if slot_of(before, j).is_some() || slot_of(after, j).is_some() {
            VERTICAL
        } else if reaches(before, id, spawned, node, j) {
            HORIZONTAL
        } else {
            ' '
        };
        cells.push(GraphCell { glyph, lane: j });
        j = j + 1;
    }
    cells
}

/// The names of the refs pointing at `id`, in order.
fn labels_for(id: Oid, refs: &[RefLabel]) -> (names: Vec<String>)
    ensures
        names@ == labels_of(refs@, id),
{
    let mut names: Vec<String> = Vec::new();
    let mut i: usize = 0;
    while i < refs.len()
        invariant
            i <= refs@.len(),
            names@ == labels_of(refs@.take(i as int), id),
        decreases refs.len() - i,
    {
        assert(refs@.take(i + 1).drop_last() =~= refs@.take(i as int));
        if refs[i].target == id {
            names.push(refs[i].name.clone());
        }
        i = i + 1;
    }
    assert(refs@.take(i as int) =~= refs@);
    names
}

/// A copy of `lanes`.
fn copy_lanes(lanes: &Vec<Option<Oid>>) -> (r: Vec<Option<Oid>>)
    ensures
        r@ == lanes@,
{
    let mut r: Vec<Option<Oid>> = Vec::new();
    let mut i: usize = 0;
    while i < lanes.len()
        invariant
            i <= lanes@.len(),
            r@ == lanes@.take(i as int),
        decreases lanes.len() - i,
    {
        r.push(lanes[i]);
        i = i + 1;
        assert(r@ =~= lanes@.take(i as int));
    }
    assert(lanes@.take(i as int) =~= lanes@);
    r
}

/// Draws commit `c` over `lanes`: picks its node's lane, continues it with
/// the first parent, frees the other lanes that waited for `c`, and opens
/// lanes for the extra parents. Returns the node's lane and the lanes opened.
fn advance(lanes: &mut Vec<Option<Oid>>, c: &CommitInfo) -> (r: (usize, Vec<usize>))
    ensures
        r.0 == node_of(old(lanes)@, c.id),
        final(lanes)@ == step(old(lanes)@, *c).0,
        as_ints(r.1@) == step(old(lanes)@, *c).1,
        r.0 < final(lanes)@.len(),
        old(lanes)@.len() <= final(lanes)@.len(),
{
    let ghost before = lanes@;
    let id = c.id;
    let w = position_of(lanes, Some(id));
    let node = if w < lanes.len() {
        w
    } else {
        free_lane(lanes)
    };
    let first = if c.parents.len() > 0 {
        Some(c.parents[0])
    } else {
        None
    };
    lanes.set(node, first);
    let ghost target = released(before, id, node as int, first);
    assert(lanes@.len() == target.len());
    let mut i: usize = 0;
    while i < lanes.len()
        invariant
            node < lanes@.len() == target.len(),
            target == released(before, id, node as int, first),
            before.len() <= lanes@.len() <= before.len() + 1,
            lanes@.len() == before.len() + 1 ==> node == before.len(),
            forall|k: int| 0 <= k < i ==> lanes@[k] == target[k],
            forall|k: int|
                i <= k < lanes@.len() ==> lanes@[k] == if k == node {
                    first
                } else {
                    slot(before, k)
                },
        decreases lanes.len() - i,
    {
        if i != node && same_slot(lanes[i], Some(id)) {
            lanes.set(i, None);
        }
        i = i + 1;
    }
    assert(lanes@ =~= target);
    assert(first == first_parent(*c));
    assert(node as int == node_of(before, c.id));
    let ghost rel = lanes@;
    assert(rel == released(before, c.id, node_of(before, c.id), first_parent(*c)));
    let ghost extras = extra_parents(*c);
    let mut spawned: Vec<usize> = Vec::new();
    let np = c.parents.len();
    let mut k: usize = 1;
    while k < np
        invariant
            1 <= k,
            np == c.parents@.len(),
            k <= np || np == 0,
            np == 0 ==> k == 1,
            extras == extra_parents(*c),
            np > 0 ==> extras == c.parents@.skip(1),
            np > 0 ==> extras.len() == np - 1,
            lanes@ == spawn(rel, extras.take(k - 1)).0,
            as_ints(spawned@) == spawn(rel, extras.take(k - 1)).1,
            node < rel.len() <= lanes@.len(),
        decreases np - k,
    {
        let p = c.parents[k];
        assert(extras.take(k as int).drop_last() =~= extras.take(k - 1));
        assert(extras.take(k as int).last() == p);
        let ghost prev_lanes = lanes@;
        let ghost prev_spawned = spawned@;
        if !lanes_contain(lanes, Some(p)) {
            let f = free_lane(lanes);
            lanes.set(f, Some(p));
            spawned.push(f);
            assert(lanes@ =~= place(prev_lanes, f as int, Some(p)));
            assert(as_ints(spawned@) =~= as_ints(prev_spawned).push(f as int));
        }
        k = k + 1;
    }
    proof {
        if np == 0 {
            assert(extras =~= Seq::<Oid>::empty());
            assert(extras.take(0) =~= extras);
        } else {
            assert(k == np);
            assert(extras.take(k - 1) =~= extras);
        }
        assert(lanes@ == spawn(rel, extras).0);
        assert(step(before, *c) == spawn(rel, extras));
    }
    (node, spawned)
}

/// Lays out the rail graph for `commits` (newest first): one row per commit,
/// in order, each drawn over the lanes the commits before it left, with
/// `refs` badged onto the commits they point at.
pub fn layout(commits: &[CommitInfo], refs: &[RefLabel]) -> (rows: Vec<GraphRow>)
    ensures
        rows@.len() == commits@.len(),
        forall|i: int|
            0 <= i < rows@.len() ==> row_of(
                #[trigger] rows@[i],
                i,
                lanes_through(commits@, i as nat),
                commits@[i],
                refs@,
            ),
{
    let mut lanes: Vec<Option<Oid>> = Vec::new();
    let mut rows: Vec<GraphRow> = Vec::new();
    let mut index: usize = 0;
    while index < commits.len()
        invariant
            index <= commits@.len(),
            rows@.len() == index,
            lanes@ == lanes_through(commits@, index as nat),
            forall|i: int|
                0 <= i < index ==> row_of(
                    #[trigger] rows@[i],
                    i,
                    lanes_through(commits@, i as nat),
                    commits@[i],
                    refs@,
                ),
        decreases commits.len() - index,
    {
        let commit = &commits[index];
        let before = copy_lanes(&lanes);
        let (node, spawned) = advance(&mut lanes, commit);
        let cells = row_cells(node, commit.id, &spawned, &before, &lanes);
        let labels = labels_for(commit.id, refs);
        let row = GraphRow { commit: index, node_lane: node, cells, labels };
        assert(row_of(row, index as int, before@, *commit, refs@));
        rows.push(row);
        index = index + 1;
        assert(lanes_through(commits@, index as nat) == step(before@, commits@[index - 1]).0);
    }
    rows
}

// ---------------------------------------------------------------------------
// Laws of the lane model.
// ---------------------------------------------------------------------------

proof fn lemma_find_from(lanes: Seq<Option<Oid>>, v: Option<Oid>, i: int)
    requires
        0 <= i <= lanes.len(),
    ensures
        i <= find_from(lanes, v, i) <= lanes.len(),
        find_from(lanes, v, i) < lanes.len() ==> lanes[find_from(lanes, v, i)] == v,
        forall|k: int| i <= k < find_from(lanes, v, i) ==> lanes[k] != v,
    decreases lanes.len() - i,
{
    if i < lanes.len() && lanes[i] != v {
        lemma_find_from(lanes, v, i + 1);
    }
}

/// The first lane holding `v` holds it, and no lane before it does.
pub proof fn lemma_position(lanes: Seq<Option<Oid>>, v: Option<Oid>)
    ensures
        0 <= position(lanes, v) <= lanes.len(),
        position(lanes, v) < lanes.len() ==> lanes[position(lanes, v)] == v,
        position(lanes, v) == lanes.len() ==> !lanes.contains(v),
        forall|k: int| 0 <= k < position(lanes, v) ==> lanes[k] != v,
{
    lemma_find_from(lanes, v, 0);
}

/// Opening lanes keeps every lane that was waiting: a waiting lane is
/// never reused, and the lanes only grow.
pub proof fn lemma_spawn_keeps(lanes: Seq<Option<Oid>>, parents: Seq<Oid>)
    ensures
        lanes.len() <= spawn(lanes, parents).0.len(),
        forall|j: int|
            0 <= j < lanes.len() && (#[trigger] lanes[j]) is Some ==> spawn(lanes, parents).0[j]
                == lanes[j],
    decreases parents.len(),
{
    if parents.len() > 0 {
        lemma_spawn_keeps(lanes, parents.drop_last());
        let prev = spawn(lanes, parents.drop_last()).0;
        lemma_position(prev, None);
    }
}

/// After a merge is drawn, each of its extra parents is awaited by a lane.
pub proof fn lemma_spawn_awaits(lanes: Seq<Option<Oid>>, parents: Seq<Oid>)
    ensures
        forall|k: int| 0 <= k < parents.len() ==> spawn(lanes, parents).0.contains(Some(#[trigger] parents[k])),
    decreases parents.len(),
{
    if parents.len() > 0 {
        let init = parents.drop_last();
        lemma_spawn_awaits(lanes, init);
        let prev = spawn(lanes, init).0;
        let p = parents.last();
        lemma_position(prev, None);
        let after = spawn(lanes, parents).0;
        assert forall|k: int| 0 <= k < parents.len() implies after.contains(Some(#[trigger] parents[k])) by {
            if k < parents.len() - 1 {
                assert(init[k] == parents[k]);
                assert(prev.contains(Some(init[k])));
                let j = choose|j: int| 0 <= j < prev.len() && prev[j] == Some(init[k]);
                if !prev.contains(Some(p)) {
                    let f = position(prev, None);
                    assert(f != j);
                    assert(after[j] == prev[j]);
                }
            } else {
                if !prev.contains(Some(p)) {
                    let f = position(prev, None);
                    assert(after[f] == Some(p));
                }
            }
        }
    }
}

/// Every parent of a drawn commit is awaited by some lane afterwards: the
/// first in the node's lane, the others in lanes of their own or in lanes
/// already waiting for them.
pub proof fn lemma_parents_awaited(before: Seq<Option<Oid>>, c: CommitInfo)
    ensures
        forall|k: int|
            0 <= k < c.parents@.len() ==> step(before, c).0.contains(Some(#[trigger] c.parents@[k])),
        c.parents@.len() > 0 ==> step(before, c).0[node_of(before, c.id)] == Some(c.parents@[0]),
{
    let node = node_of(before, c.id);
    let rel = released(before, c.id, node, first_parent(c));
    let extras = extra_parents(c);
    lemma_position(before, Some(c.id));
    lemma_position(before, None);
    lemma_spawn_keeps(rel, extras);
    lemma_spawn_awaits(rel, extras);
    let after = step(before, c).0;
    assert forall|k: int| 0 <= k < c.parents@.len() implies after.contains(Some(#[trigger] c.parents@[k])) by {
        if k == 0 {
            assert(rel[node] == Some(c.parents@[0]));
            assert(after[node] == rel[node]);
        } else {
            assert(extras[k - 1] == c.parents@[k]);
        }
    }
}

/// Lanes converge: once a commit is drawn, no lane waits for it any more,
/// unless it is its own parent.
pub proof fn lemma_drawn_not_awaited(before: Seq<Option<Oid>>, c: CommitInfo)
    requires
        forall|k: int| 0 <= k < c.parents@.len() ==> c.parents@[k] != c.id,
    ensures
        !step(before, c).0.contains(Some(c.id)),
{
    let node = node_of(before, c.id);
    let rel = released(before, c.id, node, first_parent(c));
    lemma_position(before, Some(c.id));
    lemma_position(before, None);
    lemma_spawn_free_of(rel, extra_parents(c), c.id);
}

proof fn lemma_spawn_free_of(lanes: Seq<Option<Oid>>, parents: Seq<Oid>, id: Oid)
    requires
        !lanes.contains(Some(id)),
        forall|k: int| 0 <= k < parents.len() ==> parents[k] != id,
    ensures
        !spawn(lanes, parents).0.contains(Some(id)),
    decreases parents.len(),
{
    if parents.len() > 0 {
        lemma_spawn_free_of(lanes, parents.drop_last(), id);
        let prev = spawn(lanes, parents.drop_last()).0;
        let after = spawn(lanes, parents).0;
        lemma_position(prev, None);
        assert(parents.last() != id);
        if after.contains(Some(id)) {
            let j = choose|j: int| 0 <= j < after.len() && after[j] == Some(id);
            if !prev.contains(Some(parents.last())) {
                let f = position(prev, None);
                if j != f {
                    assert(after[j] == prev[j]);
                }
            }
        }
    }
}

/// In every row, each cell names its own lane and the node's lane shows the
/// node glyph.
pub proof fn lemma_row_node(row: GraphRow, index: int, before: Seq<Option<Oid>>, c: CommitInfo, refs: Seq<RefLabel>)
    requires
        row_of(row, index, before, c, refs),
    ensures
        row.node_lane < row.cells@.len(),
        row.cells@[row.node_lane as int].glyph == NODE,
        forall|j: int| 0 <= j < row.cells@.len() ==> (#[trigger] row.cells@[j]).lane == j as usize,
{
    assert(row.cells@[row.node_lane as int].glyph == NODE);
}

} // verus!
