use vstd::prelude::*;

use crate::paths::{entry_label, entry_label_of};

verus! {

/// One entry of the explorer: a file or directory, with the entries read below it while it is
/// open.
pub struct DirectoryNode {
    pub path: String,
    pub is_dir: bool,
    pub opened: bool,
    pub children: Vec<DirectoryNode>,
}

/// The abstract content of an explorer entry.
pub struct NodeModel {
    pub path: Seq<char>,
    pub is_dir: bool,
    pub opened: bool,
    pub children: Seq<NodeModel>,
}

/// The abstract content of an entry.
pub open spec fn node_model(n: DirectoryNode) -> NodeModel
    decreases n, 1nat,
{
    NodeModel { path: n.path@, is_dir: n.is_dir, opened: n.opened, children: nodes_model(n.children@) }
}

/// The abstract content of a sequence of entries, entry by entry.
pub open spec fn nodes_model(ns: Seq<DirectoryNode>) -> Seq<NodeModel>
    decreases ns, 0nat,
{
    if ns.len() == 0 {
        Seq::empty()
    } else {
        seq![node_model(ns[0])] + nodes_model(ns.drop_first())
    }
}

pub proof fn lemma_nodes_model_index(ns: Seq<DirectoryNode>)
    ensures
        nodes_model(ns).len() == ns.len(),
        forall|i: int| 0 <= i < ns.len() ==> #[trigger] nodes_model(ns)[i] == node_model(ns[i]),
    decreases ns.len(),
{
    if ns.len() > 0 {
        lemma_nodes_model_index(ns.drop_first());
        assert forall|i: int| 0 <= i < ns.len() implies #[trigger] nodes_model(ns)[i] == node_model(ns[i]) by {
            if i > 0 {
                assert(nodes_model(ns)[i] == nodes_model(ns.drop_first())[i - 1]);
            }
        }
    }
}

/// Number of entries in a subtree (the entry and everything below it).
pub open spec fn tree_size(n: NodeModel) -> nat
    decreases n, 1nat,
{
    1 + forest_size(n.children)
}

/// Number of entries in a sequence of subtrees.
pub open spec fn forest_size(ns: Seq<NodeModel>) -> nat
    decreases ns, 0nat,
{
    if ns.len() == 0 {
        0
    } else {
        tree_size(ns[0]) + forest_size(ns.drop_first())
    }
}

/// A fresh entry: closed, with nothing read below it.
pub open spec fn fresh_node(path: Seq<char>, is_dir: bool) -> NodeModel {
    NodeModel { path, is_dir, opened: false, children: Seq::empty() }
}

/// An entry after opening it with the result of listing it: the entries listed, or none when
/// the listing failed (the entry is a file).
pub open spec fn opened_with(n: NodeModel, listing: Option<Seq<NodeModel>>) -> NodeModel {
    NodeModel {
        opened: true,
        children: match listing {
            Some(k) => k,
            None => Seq::empty(),
        },
        ..n
    }
}

/// An entry after closing it: what was read below it is dropped.
pub open spec fn closed(n: NodeModel) -> NodeModel {
    NodeModel { opened: false, children: Seq::empty(), ..n }
}

/// The abstract content of a listing handed to the explorer.
pub open spec fn listing_model(l: Option<Vec<DirectoryNode>>) -> Option<Seq<NodeModel>> {
    match l {
        Some(v) => Some(nodes_model(v@)),
        None => None,
    }
}

/// Closing an entry that was opened from the closed state gives back the entry as it was.
pub proof fn lemma_close_undoes_open(n: NodeModel, listing: Option<Seq<NodeModel>>)
    requires
        !n.opened,
        n.children.len() == 0,
    ensures
        closed(opened_with(n, listing)) == n,
{
    assert(closed(opened_with(n, listing)).children =~= n.children);
}

impl DirectoryNode {
    /// A closed entry for the file or directory at `path`.
    pub fn new(path: String, is_dir: bool) -> (n: DirectoryNode)
        ensures
            node_model(n) == fresh_node(path@, is_dir),
    {
        let n = DirectoryNode { path, is_dir, opened: false, children: Vec::new() };
        proof {
            assert(nodes_model(n.children@) =~= Seq::<NodeModel>::empty());
        }
        n
    }

    /// Opens the entry with the result of listing it (`None` when it cannot be listed: a
    /// file, or a directory that cannot be read). Returns whether the listing failed, which
    /// the editor takes as a file to load.
    pub fn open(&mut self, listing: Option<Vec<DirectoryNode>>) -> (is_file: bool)
        ensures
            node_model(*final(self)) == opened_with(node_model(*old(self)), listing_model(listing)),
            is_file == listing.is_none(),
    {
        self.opened = true;
        match listing {
            Some(v) => {
                self.children = v;
                false
            },
            None => {
                self.children = Vec::new();
                proof {
                    assert(nodes_model(self.children@) =~= Seq::<NodeModel>::empty());
                }
                true
            },
        }
    }

    /// Closes the entry (see [`closed`]).
    pub fn close(&mut self)
        ensures
            node_model(*final(self)) == closed(node_model(*old(self))),
    {
        self.opened = false;
        self.children = Vec::new();
        proof {
            assert(nodes_model(self.children@) =~= Seq::<NodeModel>::empty());
        }
    }
}

/// One row of the explorer: how deep the entry sits and its label.
pub struct LayoutRow {
    pub depth: usize,
    pub label: String,
}

/// The abstract content of explorer rows.
pub open spec fn rows_model(rows: Seq<LayoutRow>) -> Seq<(nat, Seq<char>)> {
    rows.map_values(|r: LayoutRow| (r.depth as nat, r.label@))
}

/// The explorer rows of a subtree at depth `depth`: the entry's own row, then the rows of
/// the entries below it one level deeper.
pub open spec fn layout_node(n: NodeModel, depth: nat) -> Seq<(nat, Seq<char>)>
    decreases n, 1nat,
{
    seq![(depth, entry_label(n.path, n.is_dir))] + layout_forest(n.children, depth + 1)
}

/// The explorer rows of a sequence of subtrees, in order.
pub open spec fn layout_forest(ns: Seq<NodeModel>, depth: nat) -> Seq<(nat, Seq<char>)>
    decreases ns, 0nat,
{
    if ns.len() == 0 {
        Seq::empty()
    } else {
        layout_node(ns[0], depth) + layout_forest(ns.drop_first(), depth)
    }
}

/// The explorer shows exactly one row per entry.
pub proof fn lemma_layout_len(ns: Seq<NodeModel>, depth: nat)
    ensures
        layout_forest(ns, depth).len() == forest_size(ns),
    decreases ns, 0nat,
{
    if ns.len() > 0 {
        lemma_layout_node_len(ns[0], depth);
        lemma_layout_len(ns.drop_first(), depth);
    }
}

/// A subtree takes one row per entry.
pub proof fn lemma_layout_node_len(n: NodeModel, depth: nat)
    ensures
        layout_node(n, depth).len() == tree_size(n),
    decreases n, 1nat,
{
    lemma_layout_len(n.children, depth + 1);
}

proof fn lemma_forest_skip(ns: Seq<NodeModel>, i: int)
    requires
        0 <= i < ns.len(),
    ensures
        ns.skip(i).len() > 0,
        ns.skip(i)[0] == ns[i],
        ns.skip(i).drop_first() == ns.skip(i + 1),
        forest_size(ns.skip(i)) == tree_size(ns[i]) + forest_size(ns.skip(i + 1)),
{
    assert(ns.skip(i).drop_first() =~= ns.skip(i + 1));
}

fn layout_into(ns: &Vec<DirectoryNode>, i: usize, depth: usize, out: &mut Vec<LayoutRow>)
    requires
        i <= ns@.len(),
        depth + forest_size(nodes_model(ns@).skip(i as int)) <= usize::MAX,
    ensures
        rows_model(final(out)@) == rows_model(old(out)@) + layout_forest(
            nodes_model(ns@).skip(i as int),
            depth as nat,
        ),
    decreases ns@, ns@.len() - i,
{
    proof {
        lemma_nodes_model_index(ns@);
    }
    let ghost ms = nodes_model(ns@);
    if i == ns.len() {
        proof {
            assert(ms.skip(i as int) =~= Seq::<NodeModel>::empty());
            assert(rows_model(out@) =~= rows_model(out@) + layout_forest(ms.skip(i as int), depth as nat));
        }
        return;
    }
    proof {
        lemma_forest_skip(ms, i as int);
    }
    let n = &ns[i];
    let label = entry_label_of(n.path.as_str(), n.is_dir);
    let ghost before = rows_model(out@);
    out.push(LayoutRow { depth, label });
    proof {
        assert(rows_model(out@) =~= before.push((depth as nat, entry_label(n.path@, n.is_dir))));
        assert(ms[i as int] == node_model(*n));
        assert(nodes_model(n.children@).skip(0) =~= nodes_model(n.children@));
        assert(decreases_to!(ns@ => ns@[i as int]));
        assert(decreases_to!(ns@[i as int] => n.children));
        assert(decreases_to!(n.children => n.children@));
    }
    layout_into(&n.children, 0, depth + 1, out);
    proof {
        assert(nodes_model(n.children@).skip(0) =~= nodes_model(n.children@));
    }
    layout_into(ns, i + 1, depth, out);
    proof {
        let k = ms[i as int];
        assert(layout_node(k, depth as nat) =~= seq![(depth as nat, entry_label(k.path, k.is_dir))]
            + layout_forest(k.children, (depth + 1) as nat));
        assert(rows_model(out@) =~= rows_model(old(out)@) + layout_forest(ms.skip(i as int), depth as nat));
    }
}

/// The rows of the explorer for the top-level entries `directory`, in the order in which they
/// are drawn, each with its depth and label (see [`layout_forest`]).
pub fn directory_layout(directory: &Vec<DirectoryNode>) -> (rows: Vec<LayoutRow>)
    requires
        forest_size(nodes_model(directory@)) <= usize::MAX,
    ensures
        rows_model(rows@) == layout_forest(nodes_model(directory@), 0),
{
    let mut rows: Vec<LayoutRow> = Vec::new();
    proof {
        assert(nodes_model(directory@).skip(0) =~= nodes_model(directory@));
    }
    layout_into(directory, 0, 0, &mut rows);
    proof {
        assert(rows_model(Seq::<LayoutRow>::empty()) =~= Seq::empty());
        assert(rows_model(rows@) =~= layout_forest(nodes_model(directory@), 0));
    }
    rows
}

/// What a click on the explorer depends on besides the tree: whether the click falls on each
/// drawn row (`hits`, in row order), whether it falls on an entry never drawn yet
/// (`fresh_hit`), and the results of the listings read so far, in the order they were asked
/// for.
pub struct ClickInput {
    pub hits: Seq<bool>,
    pub fresh_hit: bool,
    pub listings: Seq<Option<Seq<NodeModel>>>,
}

/// The outcome of walking the explorer for a click: the new entries, the file that was
/// opened last (if any) and the number of listings consumed; or the path of an entry that
/// must be listed before the walk can go on.
pub enum Walked {
    Done(Seq<NodeModel>, Option<Seq<char>>, nat),
    Need(Seq<char>),
}

/// Whether the click falls on the entry drawn on row `row`; an entry created during the walk
/// (`fresh`), or one beyond the drawn rows, has never been drawn.
pub open spec fn hit_at(inp: ClickInput, row: int, fresh: bool) -> bool {
    if !fresh && 0 <= row < inp.hits.len() {
        inp.hits[row]
    } else {
        inp.fresh_hit
    }
}

/// The row of the first entry below the entry on row `row`; entries never drawn have no row
/// of their own.
pub open spec fn child_row(row: int, fresh: bool) -> int {
    if fresh {
        row
    } else {
        row + 1
    }
}

/// The row of the entry after the subtree of `n`, drawn from row `row`.
pub open spec fn next_row(row: int, n: NodeModel, fresh: bool) -> int {
    if fresh {
        row
    } else {
        row + tree_size(n)
    }
}

/// Of two results of a walk in visiting order, the later one that names a file.
pub open spec fn later_found(first: Option<Seq<char>>, then: Option<Seq<char>>) -> Option<Seq<char>> {
    if then is Some {
        then
    } else {
        first
    }
}

/// The click walk at one entry drawn on row `row`, with `used` listings consumed so far. A hit
/// entry that is open is closed. A hit entry that is closed is opened with the next listing
/// (and names itself as the file opened when the listing failed), and the entries listed are
/// walked in turn as never drawn. An entry that is not hit keeps its state and the entries
/// below it are walked.
pub open spec fn walk_node(inp: ClickInput, n: NodeModel, row: int, fresh: bool, used: nat) -> Walked
    decreases inp.listings.len() - used, n,
{
    if hit_at(inp, row, fresh) {
        if n.opened {
            Walked::Done(seq![closed(n)], None, used)
        } else if used < inp.listings.len() {
            let l = inp.listings[used as int];
            let m = opened_with(n, l);
            let own = if l is None {
                Some(n.path)
            } else {
                None
            };
            match walk_forest(inp, m.children, 0, true, used + 1) {
                Walked::Done(k, f, u) => Walked::Done(
                    seq![NodeModel { children: k, ..m }],
                    later_found(own, f),
                    u,
                ),
                Walked::Need(p) => Walked::Need(p),
            }
        } else {
            Walked::Need(n.path)
        }
    } else {
        match walk_forest(inp, n.children, child_row(row, fresh), fresh, used) {
            Walked::Done(k, f, u) => Walked::Done(seq![NodeModel { children: k, ..n }], f, u),
            Walked::Need(p) => Walked::Need(p),
        }
    }
}

/// The count of listings consumed after `used` of them were: unchanged, or grown within the
/// listings at hand.
pub open spec fn consumed_from(inp: ClickInput, used: nat, u: nat) -> bool {
    u == used || (used < u && u <= inp.listings.len())
}

/// The click walk over a sequence of entries, the first drawn on row `row`, in order; the
/// rows of an entry's subtree come before those of the next entry.
pub open spec fn walk_forest(inp: ClickInput, ns: Seq<NodeModel>, row: int, fresh: bool, used: nat) -> Walked
    decreases inp.listings.len() - used, ns,
{
    if ns.len() == 0 {
        Walked::Done(Seq::empty(), None, used)
    } else {
        match walk_node(inp, ns[0], row, fresh, used) {
            Walked::Need(p) => Walked::Need(p),
            Walked::Done(h, f1, u1) => {
                if consumed_from(inp, used, u1) {
                    match walk_forest(inp, ns.drop_first(), next_row(row, ns[0], fresh), fresh, u1) {
                        Walked::Need(p) => Walked::Need(p),
                        Walked::Done(t, f2, u2) => Walked::Done(h + t, later_found(f1, f2), u2),
                    }
                } else {
                    Walked::Need(Seq::empty())
                }
            },
        }
    }
}

/// A walk consumes listings in order, never more than there are.
pub proof fn lemma_walk_node_consumes(inp: ClickInput, n: NodeModel, row: int, fresh: bool, used: nat)
    ensures
        walk_node(inp, n, row, fresh, used) matches Walked::Done(_, _, u) ==> consumed_from(inp, used, u),
    decreases inp.listings.len() - used, n,
{
    if hit_at(inp, row, fresh) {
        if !n.opened && used < inp.listings.len() {
            let m = opened_with(n, inp.listings[used as int]);
            lemma_walk_forest_consumes(inp, m.children, 0, true, used + 1);
        }
    } else {
        lemma_walk_forest_consumes(inp, n.children, child_row(row, fresh), fresh, used);
    }
}

/// A walk over entries consumes listings in order, never more than there are.
pub proof fn lemma_walk_forest_consumes(inp: ClickInput, ns: Seq<NodeModel>, row: int, fresh: bool, used: nat)
    ensures
        walk_forest(inp, ns, row, fresh, used) matches Walked::Done(_, _, u) ==> consumed_from(inp, used, u),
    decreases inp.listings.len() - used, ns,
{
    if ns.len() > 0 {
        lemma_walk_node_consumes(inp, ns[0], row, fresh, used);
        if let Walked::Done(h, f1, u1) = walk_node(inp, ns[0], row, fresh, used) {
            lemma_walk_forest_consumes(inp, ns.drop_first(), next_row(row, ns[0], fresh), fresh, u1);
        }
    }
}

/// The result of a click walk: the new top-level entries, the file opened last and the number
/// of listings consumed; or the path of the entry that must be listed first.
pub enum ClickOutcome {
    Done { nodes: Vec<DirectoryNode>, found: Option<String>, used: usize },
    NeedListing { path: String },
}

/// The abstract content of an optional path.
pub open spec fn found_model(f: Option<String>) -> Option<Seq<char>> {
    match f {
        Some(s) => Some(s@),
        None => None,
    }
}

/// The abstract content of a click outcome.
pub open spec fn outcome_model(o: ClickOutcome) -> Walked {
    match o {
        ClickOutcome::Done { nodes, found, used } => Walked::Done(
            nodes_model(nodes@),
            found_model(found),
            used as nat,
        ),
        ClickOutcome::NeedListing { path } => Walked::Need(path@),
    }
}

/// The abstract content of what a click depends on.
pub open spec fn click_input(
    hits: Seq<bool>,
    fresh_hit: bool,
    listings: Seq<Option<Vec<DirectoryNode>>>,
) -> ClickInput {
    ClickInput {
        hits,
        fresh_hit,
        listings: listings.map_values(|l: Option<Vec<DirectoryNode>>| listing_model(l)),
    }
}

enum NodeWalk {
    Done(DirectoryNode, Option<String>, usize),
    Need(String),
}

fn count_subtree(n: &DirectoryNode) -> (c: usize)
    requires
        tree_size(node_model(*n)) <= usize::MAX,
    ensures
        c == tree_size(node_model(*n)),
    decreases *n, 1int,
{
    proof {
        assert(nodes_model(n.children@).skip(0) =~= nodes_model(n.children@));
        assert(decreases_to!(*n => n.children));
        assert(decreases_to!(n.children => n.children@));
    }
    1 + count_forest(&n.children, 0)
}

fn count_forest(ns: &Vec<DirectoryNode>, i: usize) -> (c: usize)
    requires
        i <= ns@.len(),
        forest_size(nodes_model(ns@).skip(i as int)) < usize::MAX,
    ensures
        c == forest_size(nodes_model(ns@).skip(i as int)),
    decreases ns@, ns@.len() - i,
{
    proof {
        lemma_nodes_model_index(ns@);
    }
    let ghost ms = nodes_model(ns@);
    if i == ns.len() {
        proof {
            assert(ms.skip(i as int) =~= Seq::<NodeModel>::empty());
        }
        return 0;
    }
    proof {
        lemma_forest_skip(ms, i as int);
        assert(decreases_to!(ns@ => ns@[i as int]));
    }
    let a = count_subtree(&ns[i]);
    let b = count_forest(ns, i + 1);
    a + b
}

fn later_found_of(first: Option<String>, then: Option<String>) -> (r: Option<String>)
    ensures
        found_model(r) == later_found(found_model(first), found_model(then)),
{
    match then {
        Some(t) => Some(t),
        None => first,
    }
}

fn walk_node_exec(
    n: &DirectoryNode,
    row: usize,
    fresh: bool,
    used: usize,
    hits: &Vec<bool>,
    fresh_hit: bool,
    listings: &Vec<Option<Vec<DirectoryNode>>>,
) -> (r: NodeWalk)
    requires
        used <= listings@.len(),
        !fresh ==> row + tree_size(node_model(*n)) <= usize::MAX,
    ensures
        match r {
            NodeWalk::Done(m, f, u) => walk_node(
                click_input(hits@, fresh_hit, listings@),
                node_model(*n),
                row as int,
                fresh,
                used as nat,
            ) == Walked::Done(seq![node_model(m)], found_model(f), u as nat),
            NodeWalk::Need(p) => walk_node(
                click_input(hits@, fresh_hit, listings@),
                node_model(*n),
                row as int,
                fresh,
                used as nat,
            ) == Walked::Need(p@),
        },
    decreases listings@.len() - used, *n, 0int,
{
    let ghost inp = click_input(hits@, fresh_hit, listings@);
    let ghost nm = node_model(*n);
    let hit = if !fresh && row < hits.len() {
        hits[row]
    } else {
        fresh_hit
    };
    assert(hit == hit_at(inp, row as int, fresh));
    if hit {
        if n.opened {
            let m = DirectoryNode { path: n.path.clone(), is_dir: n.is_dir, opened: false, children: Vec::new() };
            proof {
                assert(nodes_model(m.children@) =~= Seq::<NodeModel>::empty());
                assert(node_model(m) == closed(nm));
            }
            NodeWalk::Done(m, None, used)
        } else if used < listings.len() {
            proof {
                assert(inp.listings[used as int] == listing_model(listings@[used as int]));
            }
            match &listings[used] {
                Some(v) => {
                    proof {
                        assert(nodes_model(v@).skip(0) =~= nodes_model(v@));
                    }
                    match walk_forest_exec(v, 0, 0, true, used + 1, hits, fresh_hit, listings) {
                        ClickOutcome::Done { nodes, found, used: u } => {
                            let m = DirectoryNode { path: n.path.clone(), is_dir: n.is_dir, opened: true, children: nodes };
                            NodeWalk::Done(m, found, u)
                        },
                        ClickOutcome::NeedListing { path } => NodeWalk::Need(path),
                    }
                },
                None => {
                    let m = DirectoryNode { path: n.path.clone(), is_dir: n.is_dir, opened: true, children: Vec::new() };
                    proof {
                        assert(nodes_model(m.children@) =~= Seq::<NodeModel>::empty());
                        assert(opened_with(nm, None).children =~= Seq::<NodeModel>::empty());
                    }
                    NodeWalk::Done(m, Some(n.path.clone()), used + 1)
                },
            }
        } else {
            NodeWalk::Need(n.path.clone())
        }
    } else {
        let crow = if fresh { row } else { row + 1 };
        proof {
            assert(nodes_model(n.children@).skip(0) =~= nodes_model(n.children@));
            assert(decreases_to!(*n => n.children));
            assert(decreases_to!(n.children => n.children@));
        }
        match walk_forest_exec(&n.children, 0, crow, fresh, used, hits, fresh_hit, listings) {
            ClickOutcome::Done { nodes, found, used: u } => {
                let m = DirectoryNode { path: n.path.clone(), is_dir: n.is_dir, opened: n.opened, children: nodes };
                NodeWalk::Done(m, found, u)
            },
            ClickOutcome::NeedListing { path } => NodeWalk::Need(path),
        }
    }
}

fn walk_forest_exec(
    ns: &Vec<DirectoryNode>,
    i: usize,
    row: usize,
    fresh: bool,
    used: usize,
    hits: &Vec<bool>,
    fresh_hit: bool,
    listings: &Vec<Option<Vec<DirectoryNode>>>,
) -> (r: ClickOutcome)
    requires
        i <= ns@.len(),
        used <= listings@.len(),
        !fresh ==> row + forest_size(nodes_model(ns@).skip(i as int)) <= usize::MAX,
    ensures
        outcome_model(r) == walk_forest(
            click_input(hits@, fresh_hit, listings@),
            nodes_model(ns@).skip(i as int),
            row as int,
            fresh,
            used as nat,
        ),
    decreases listings@.len() - used, ns@, ns@.len() - i,
{
    let ghost inp = click_input(hits@, fresh_hit, listings@);
    proof {
        lemma_nodes_model_index(ns@);
    }
    let ghost ms = nodes_model(ns@);
    if i == ns.len() {
        proof {
            assert(ms.skip(i as int) =~= Seq::<NodeModel>::empty());
            assert(nodes_model(Seq::<DirectoryNode>::empty()) =~= Seq::<NodeModel>::empty());
        }
        return ClickOutcome::Done { nodes: Vec::new(), found: None, used };
    }
    proof {
        lemma_forest_skip(ms, i as int);
        assert(decreases_to!(ns@ => ns@[i as int]));
    }
    let n = &ns[i];
    match walk_node_exec(n, row, fresh, used, hits, fresh_hit, listings) {
        NodeWalk::Need(p) => ClickOutcome::NeedListing { path: p },
        NodeWalk::Done(h, f1, u1) => {
            proof {
                lemma_walk_node_consumes(inp, ms[i as int], row as int, fresh, used as nat);
            }
            let next = if fresh { row } else { row + count_subtree(n) };
            match walk_forest_exec(ns, i + 1, next, fresh, u1, hits, fresh_hit, listings) {
                ClickOutcome::NeedListing { path } => ClickOutcome::NeedListing { path },
                ClickOutcome::Done { nodes, found, used: u2 } => {
                    let ghost tail = nodes@;
                    let mut all = nodes;
                    all.insert(0, h);
                    proof {
                        assert(all@.drop_first() =~= tail);
                        assert(nodes_model(all@) =~= seq![node_model(h)] + nodes_model(tail));
                    }
                    let f = later_found_of(f1, found);
                    ClickOutcome::Done { nodes: all, found: f, used: u2 }
                },
            }
        },
    }
}

/// Walks the top-level entries `directory` for a click (see [`walk_forest`]): `hits` tells,
/// row by row in drawing order, whether the click falls on the entry drawn there, `fresh_hit`
/// whether it falls on an entry never drawn, and `listings` holds the listings read so far,
/// in the order in which the walk asked for them. When the walk reaches an entry to open
/// and no listing is left, the outcome names that entry's path; the caller lists it, adds
/// the result to `listings` and walks again.
pub fn recurse_click_check_direc(
    directory: &Vec<DirectoryNode>,
    hits: &Vec<bool>,
    fresh_hit: bool,
    listings: &Vec<Option<Vec<DirectoryNode>>>,
) -> (r: ClickOutcome)
    requires
        forest_size(nodes_model(directory@)) <= usize::MAX,
    ensures
        outcome_model(r) == walk_forest(
            click_input(hits@, fresh_hit, listings@),
            nodes_model(directory@),
            0,
            false,
            0,
        ),
{
    proof {
        assert(nodes_model(directory@).skip(0) =~= nodes_model(directory@));
    }
    walk_forest_exec(directory, 0, 0, false, 0, hits, fresh_hit, listings)
}

fn checked_count_subtree(n: &DirectoryNode) -> (c: Option<usize>)
    ensures
        c matches Some(k) ==> k == tree_size(node_model(*n)),
        c is None ==> tree_size(node_model(*n)) > usize::MAX,
    decreases *n, 1int,
{
    proof {
        assert(nodes_model(n.children@).skip(0) =~= nodes_model(n.children@));
        assert(decreases_to!(*n => n.children));
        assert(decreases_to!(n.children => n.children@));
    }
    match checked_count_forest(&n.children, 0) {
        Some(k) => k.checked_add(1),
        None => None,
    }
}

fn checked_count_forest(ns: &Vec<DirectoryNode>, i: usize) -> (c: Option<usize>)
    requires
        i <= ns@.len(),
    ensures
        c matches Some(k) ==> k == forest_size(nodes_model(ns@).skip(i as int)),
        c is None ==> forest_size(nodes_model(ns@).skip(i as int)) > usize::MAX,
    decreases ns@, ns@.len() - i,
{
    proof {
        lemma_nodes_model_index(ns@);
    }
    let ghost ms = nodes_model(ns@);
    if i == ns.len() {
        proof {
            assert(ms.skip(i as int) =~= Seq::<NodeModel>::empty());
        }
        return Some(0);
    }
    proof {
        lemma_forest_skip(ms, i as int);
        assert(decreases_to!(ns@ => ns@[i as int]));
    }
    match checked_count_subtree(&ns[i]) {
        Some(a) => match checked_count_forest(ns, i + 1) {
            Some(b) => a.checked_add(b),
            None => None,
        },
        None => None,
    }
}

/// The number of entries in the explorer tree `directory`, or `None` when it does not fit in
/// a `usize`.
pub fn count_entries(directory: &Vec<DirectoryNode>) -> (c: Option<usize>)
    ensures
        c matches Some(k) ==> k == forest_size(nodes_model(directory@)),
        c is None ==> forest_size(nodes_model(directory@)) > usize::MAX,
{
    proof {
        assert(nodes_model(directory@).skip(0) =~= nodes_model(directory@));
    }
    checked_count_forest(directory, 0)
}

} // verus!
