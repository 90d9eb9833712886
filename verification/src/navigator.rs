//! Cursor-based traversal and editing of a built action tree.
//!
//! The navigator owns the tree, a cursor (a path of edge indexes from the
//! root; a chance node counts as one step with index zero), and the two
//! customization lists of added and removed lines.  `play` advances the
//! cursor by one action, stepping through chance nodes implicitly, and
//! returns the index of the matched action — or the sentinel `-1`, leaving
//! the cursor alone, when no available action matches; the sentinel is an
//! answer, not an error.  `apply_history` replays a whole line from the root
//! and is all-or-nothing: on failure the cursor keeps its old position.

use vstd::prelude::*;

use crate::action::Action;
use crate::tree::{
    Node, Edge, TreeConfig, BuildState, node_matches, build_tree, spec_actions, spec_action_sound,
    spec_next_state, spec_after_chance, lemma_actions_sound, lemma_next_state_wf,
    lemma_after_chance_wf, spec_node_actions, spec_find_action, spec_step, spec_walk, sizes_wf,
    KIND_DECISION, KIND_CHANCE, KIND_TERMINAL, MAX_STACK, MAX_SIZE_PCT, MAX_THRESHOLD,
    STREET_RIVER, MAX_POT,
};

verus! {

/// Why a tree request was refused.
#[derive(Clone, Copy, PartialEq, Eq, Structural, Debug)]
pub enum TreeError {
    /// The configuration is out of range.
    BadConfig,
    /// A customization line could not be decoded.
    BadLine,
    /// A line to add could not be attached to the tree.
    AddLineFailed,
    /// A line to remove could not be detached from the tree.
    RemoveLineFailed,
    /// A history step was not available.
    BadHistory,
    /// The action to add already exists at the cursor.
    DuplicateAction,
    /// The cursor does not designate a decision node.
    NotADecision,
    /// The cursor is at the root, which cannot be removed.
    AtRoot,
    /// A chip amount is out of range.
    BadAmount,
}

/// Whether a cursor path designates a node.
pub open spec fn spec_path_valid(n: Node, path: Seq<usize>) -> bool
    decreases path.len(),
{
    path.len() == 0 || match n {
        Node::Terminal => false,
        Node::Chance(c) => path[0] == 0 && spec_path_valid(*c, path.skip(1)),
        Node::Decision { player, edges } => path[0] < edges@.len() && spec_path_valid(
            edges@[path[0] as int].child,
            path.skip(1),
        ),
    }
}

/// The node a valid cursor path designates.
pub open spec fn spec_node_at(n: Node, path: Seq<usize>) -> Node
    decreases path.len(),
{
    if path.len() == 0 {
        n
    } else {
        match n {
            Node::Terminal => n,
            Node::Chance(c) => spec_node_at(*c, path.skip(1)),
            Node::Decision { player, edges } => spec_node_at(
                edges@[path[0] as int].child,
                path.skip(1),
            ),
        }
    }
}

/// Whether every chip amount in the tree is within `MAX_STACK` and every
/// decision node has fewer than a million edges.
pub open spec fn amounts_bounded(n: Node) -> bool
    decreases n,
{
    match n {
        Node::Terminal => true,
        Node::Chance(c) => amounts_bounded(*c),
        Node::Decision { player, edges } => edges@.len() < 1000000 && forall|j: int|
            0 <= j < edges@.len() ==> (match (#[trigger] edges@[j]).action {
                Action::Bet(m) => m <= MAX_STACK,
                Action::Raise(m) => m <= MAX_STACK,
                Action::AllIn(m) => m <= MAX_STACK,
                _ => true,
            }) && amounts_bounded(edges@[j].child),
    }
}

/// Every step of a valid path in a bounded tree is a small index.
proof fn lemma_path_indexes_bounded(n: Node, path: Seq<usize>)
    requires
        amounts_bounded(n),
        spec_path_valid(n, path),
    ensures
        forall|k: int| 0 <= k < path.len() ==> #[trigger] path[k] < 1000000,
    decreases path.len(),
{
    if path.len() > 0 {
        match n {
            Node::Terminal => {},
            Node::Chance(c) => {
                lemma_path_indexes_bounded(*c, path.skip(1));
                assert forall|k: int| 0 <= k < path.len() implies #[trigger] path[k]
                    < 1000000 by {
                    if k >= 1 {
                        assert(path.skip(1)[k - 1] == path[k]);
                    }
                }
            },
            Node::Decision { player, edges } => {
                lemma_path_indexes_bounded(edges@[path[0] as int].child, path.skip(1));
                assert forall|k: int| 0 <= k < path.len() implies #[trigger] path[k]
                    < 1000000 by {
                    if k >= 1 {
                        assert(path.skip(1)[k - 1] == path[k]);
                    }
                }
            },
        }
    }
}

/// A grammar-generated tree has all amounts within the stack bound.
pub proof fn lemma_matched_bounded(cfg: &TreeConfig, st: BuildState, n: Node)
    requires
        cfg.wf(),
        st.wf(cfg),
        node_matches(cfg, st, n),
    ensures
        amounts_bounded(n),
    decreases n,
{
    match n {
        Node::Terminal => {},
        Node::Chance(c) => {
            lemma_after_chance_wf(cfg, st);
            lemma_matched_bounded(cfg, spec_after_chance(cfg, st), *c);
        },
        Node::Decision { player, edges } => {
            lemma_actions_sound(cfg, st);
            crate::tree::lemma_actions_len(cfg, st);
            assert(edges@.len() < 1000000);
            assert forall|j: int| 0 <= j < edges@.len() implies (match (#[trigger] edges@[j]).action {
                Action::Bet(m) => m <= MAX_STACK,
                Action::Raise(m) => m <= MAX_STACK,
                Action::AllIn(m) => m <= MAX_STACK,
                _ => true,
            }) && amounts_bounded(edges@[j].child) by {
                let a = spec_actions(cfg, st)[j];
                assert(spec_action_sound(cfg, st, a));
                lemma_next_state_wf(cfg, st, a);
                lemma_matched_bounded(cfg, spec_next_state(cfg, st, a), edges@[j].child);
            }
        },
    }
}

/// Every node a valid path designates in a bounded tree is itself bounded.
proof fn lemma_bounded_at(n: Node, path: Seq<usize>)
    requires
        amounts_bounded(n),
        spec_path_valid(n, path),
    ensures
        amounts_bounded(spec_node_at(n, path)),
    decreases path.len(),
{
    if path.len() > 0 {
        match n {
            Node::Terminal => {},
            Node::Chance(c) => {
                lemma_bounded_at(*c, path.skip(1));
            },
            Node::Decision { player, edges } => {
                lemma_bounded_at(edges@[path[0] as int].child, path.skip(1));
            },
        }
    }
}

/// A prefix of a valid path is valid, and designates a node on the way.
pub proof fn lemma_valid_prefix(n: Node, path: Seq<usize>, i: int)
    requires
        spec_path_valid(n, path),
        0 <= i <= path.len(),
    ensures
        spec_path_valid(n, path.take(i)),
    decreases i,
{
    if i > 0 {
        match n {
            Node::Terminal => {},
            Node::Chance(c) => {
                lemma_valid_prefix(*c, path.skip(1), i - 1);
                assert(path.skip(1).take(i - 1) =~= path.take(i).skip(1));
            },
            Node::Decision { player, edges } => {
                lemma_valid_prefix(edges@[path[0] as int].child, path.skip(1), i - 1);
                assert(path.skip(1).take(i - 1) =~= path.take(i).skip(1));
            },
        }
    }
}

/// Concatenating valid paths is valid, composes node lookup, and
/// concatenates the lines the paths spell.
pub proof fn lemma_path_concat(n: Node, p1: Seq<usize>, p2: Seq<usize>)
    requires
        spec_path_valid(n, p1),
        spec_path_valid(spec_node_at(n, p1), p2),
    ensures
        spec_path_valid(n, p1 + p2),
        spec_node_at(n, p1 + p2) == spec_node_at(spec_node_at(n, p1), p2),
        spec_line_of(n, p1 + p2) == spec_line_of(n, p1) + spec_line_of(spec_node_at(n, p1), p2),
    decreases p1.len(),
{
    if p1.len() == 0 {
        assert(p1 + p2 =~= p2);
        assert(spec_line_of(n, p1) + spec_line_of(n, p2) =~= spec_line_of(n, p2));
    } else {
        match n {
            Node::Terminal => {},
            Node::Chance(c) => {
                lemma_path_concat(*c, p1.skip(1), p2);
                assert((p1 + p2).skip(1) =~= p1.skip(1) + p2);
            },
            Node::Decision { player, edges } => {
                lemma_path_concat(edges@[p1[0] as int].child, p1.skip(1), p2);
                assert((p1 + p2).skip(1) =~= p1.skip(1) + p2);
            },
        }
    }
}

/// Walking a line decomposes at any split point.
pub proof fn lemma_walk_split(n: Node, line: Seq<Action>, i: int)
    requires
        0 <= i <= line.len(),
    ensures
        spec_walk(n, line) == (match spec_walk(n, line.take(i)) {
            None => None::<Node>,
            Some(m) => spec_walk(m, line.skip(i)),
        }),
    decreases i,
{
    if i == 0 {
        assert(line.take(0) =~= Seq::<Action>::empty());
        assert(line.skip(0) =~= line);
    } else {
        match spec_step(n, line[0]) {
            None => {
                assert(line.take(i)[0] == line[0]);
            },
            Some(c) => {
                lemma_walk_split(c, line.skip(1), i - 1);
                assert(line.take(i)[0] == line[0]);
                assert(line.take(i).skip(1) =~= line.skip(1).take(i - 1));
                assert(line.skip(1).skip(i - 1) =~= line.skip(i));
            },
        }
    }
}

/// Reads the node a valid path suffix designates.
pub fn node_at<'a>(n: &'a Node, path: &Vec<usize>, i: usize) -> (r: &'a Node)
    requires
        i <= path@.len(),
        spec_path_valid(*n, path@.skip(i as int)),
    ensures
        *r == spec_node_at(*n, path@.skip(i as int)),
    decreases path@.len() - i,
{
    if i == path.len() {
        proof {
            assert(path@.skip(i as int) =~= Seq::<usize>::empty());
        }
        n
    } else {
        proof {
            assert(path@.skip(i as int).skip(1) =~= path@.skip(i as int + 1));
            assert(path@.skip(i as int)[0] == path@[i as int]);
        }
        match n {
            Node::Terminal => {
                proof {
                    assert(false);
                }
                n
            },
            Node::Chance(c) => node_at(c, path, i + 1),
            Node::Decision { player, edges } => node_at(&edges[path[i]].child, path, i + 1),
        }
    }
}

/// The edge labels of a node, executably.
pub fn node_actions(n: &Node) -> (r: Vec<Action>)
    ensures
        r@ == spec_node_actions(*n),
{
    match n {
        Node::Decision { player, edges } => {
            let mut out: Vec<Action> = Vec::new();
            let mut i: usize = 0;
            while i < edges.len()
                invariant
                    i <= edges@.len(),
                    out@.len() == i,
                    forall|k: int| 0 <= k < i ==> #[trigger] out@[k] == edges@[k].action,
                decreases edges@.len() - i,
            {
                out.push(edges[i].action);
                i = i + 1;
            }
            proof {
                assert(out@ =~= spec_node_actions(*n));
            }
            out
        },
        _ => {
            let out: Vec<Action> = Vec::new();
            proof {
                assert(out@ =~= spec_node_actions(*n));
            }
            out
        },
    }
}

/// One navigation step by action, executably: the relative index path taken
/// (zeros through chance nodes, then the matched edge), or `None` when the
/// action is not available.
fn play_step(n: &Node, a: Action) -> (r: Option<Vec<usize>>)
    ensures
        match r {
            Some(p) => {
                &&& spec_path_valid(*n, p@)
                &&& p@.len() >= 1
                &&& spec_step(*n, a) == Some(spec_node_at(*n, p@))
                &&& p@[p@.len() - 1] as int == spec_find_action(
                    spec_node_actions(spec_skip_chance(*n)),
                    a,
                    0,
                )
                &&& spec_line_of(*n, p@) == seq![a]
                &&& spec_node_at(*n, p@.drop_last()) is Decision
            },
            None => spec_step(*n, a) is None,
        },
    decreases *n,
{
    match n {
        Node::Terminal => None,
        Node::Chance(c) => {
            match play_step(c, a) {
                Some(mut p) => {
                    let ghost p0 = p@;
                    p.insert(0, 0);
                    proof {
                        assert(p@.skip(1) =~= p0);
                        assert(p@[0] == 0usize);
                        assert(p@[p@.len() - 1] == p0[p0.len() - 1]);
                        assert(p@.drop_last().skip(1) =~= p0.drop_last());
                        assert(p@.drop_last()[0] == 0usize);
                    }
                    Some(p)
                },
                None => None,
            }
        },
        Node::Decision { player, edges } => {
            let ghost acts = Seq::new(edges@.len(), |j: int| edges@[j].action);
            let j = find_edge(edges, a);
            proof {
                assert(spec_skip_chance(*n) == *n);
                assert(spec_node_actions(*n) =~= acts);
            }
            if j < edges.len() {
                let mut p: Vec<usize> = Vec::new();
                p.push(j);
                proof {
                    assert(Seq::new(edges@.len(), |k: int| edges@[k].action) == acts);
                    assert(p@.skip(1) =~= Seq::<usize>::empty());
                    assert(p@[0] == j);
                    assert(spec_path_valid(edges@[j as int].child, p@.skip(1)));
                    assert(spec_node_at(edges@[j as int].child, Seq::<usize>::empty())
                        == edges@[j as int].child);
                    assert(spec_node_at(*n, p@) == edges@[j as int].child);
                    assert(spec_step(*n, a) == Some(edges@[j as int].child));
                    crate::tree::lemma_find_action_in_range(acts, a, 0);
                    assert(edges@[j as int].action == a);
                    assert(spec_line_of(edges@[j as int].child, Seq::<usize>::empty())
                        =~= Seq::<Action>::empty());
                    assert(spec_line_of(*n, p@) =~= seq![a]);
                    assert(p@.drop_last() =~= Seq::<usize>::empty());
                }
                Some(p)
            } else {
                proof {
                    assert(Seq::new(edges@.len(), |k: int| edges@[k].action) == acts);
                }
                None
            }
        },
    }
}

/// First edge carrying an action, or the edge count when none does.
fn find_edge(edges: &Vec<Edge>, a: Action) -> (r: usize)
    ensures
        r <= edges@.len(),
        r as int == spec_find_action(Seq::new(edges@.len(), |k: int| edges@[k].action), a, 0),
{
    let ghost acts = Seq::new(edges@.len(), |k: int| edges@[k].action);
    let mut j: usize = 0;
    while j < edges.len()
        invariant
            j <= edges@.len(),
            acts == Seq::new(edges@.len(), |k: int| edges@[k].action),
            forall|k: int| 0 <= k < j ==> #[trigger] acts[k] != a,
        decreases edges@.len() - j,
    {
        if actions_equal(&edges[j].action, &a) {
            proof {
                assert(acts[j as int] == a);
                lemma_find_skips(acts, a, 0, j as int);
            }
            return j;
        }
        j = j + 1;
    }
    proof {
        lemma_find_skips(acts, a, 0, acts.len() as int);
    }
    j
}

/// Equality of two actions, executably.
fn actions_equal(x: &Action, y: &Action) -> (r: bool)
    ensures
        r == (x == y),
{
    match (x, y) {
        (Action::Fold, Action::Fold) => true,
        (Action::Check, Action::Check) => true,
        (Action::Call, Action::Call) => true,
        (Action::Bet(m), Action::Bet(n)) => m == n,
        (Action::Raise(m), Action::Raise(n)) => m == n,
        (Action::AllIn(m), Action::AllIn(n)) => m == n,
        _ => false,
    }
}

/// A scan that found no earlier match pins down `spec_find_action`.
proof fn lemma_find_skips(acts: Seq<Action>, a: Action, i: int, j: int)
    requires
        0 <= i <= j <= acts.len(),
        forall|k: int| i <= k < j ==> #[trigger] acts[k] != a,
        j == acts.len() || acts[j] == a,
    ensures
        spec_find_action(acts, a, i) == j,
    decreases j - i,
{
    if i < j {
        lemma_find_skips(acts, a, i + 1, j);
    }
}

/// The decision or terminal node behind any run of chance nodes.
pub open spec fn spec_skip_chance(n: Node) -> Node
    decreases n,
{
    match n {
        Node::Chance(c) => spec_skip_chance(*c),
        _ => n,
    }
}

/// The committed chips per player at the node a path designates: actions set
/// the actor's street commitment, a call matches the opponent's, and a
/// chance node folds the street into the running totals.
pub open spec fn spec_bets(
    n: Node,
    path: Seq<usize>,
    c0: int,
    c1: int,
    t0: int,
    t1: int,
) -> (int, int)
    decreases path.len(),
{
    if path.len() == 0 {
        (t0 + c0, t1 + c1)
    } else {
        match n {
            Node::Terminal => (t0 + c0, t1 + c1),
            Node::Chance(ch) => spec_bets(*ch, path.skip(1), 0, 0, t0 + c0, t1 + c1),
            Node::Decision { player, edges } => {
                let e = edges@[path[0] as int];
                let (d0, d1) = match e.action {
                    Action::Bet(m) => if player == 0 {
                        (m as int, c1)
                    } else {
                        (c0, m as int)
                    },
                    Action::Raise(m) => if player == 0 {
                        (m as int, c1)
                    } else {
                        (c0, m as int)
                    },
                    Action::AllIn(m) => if player == 0 {
                        (m as int, c1)
                    } else {
                        (c0, m as int)
                    },
                    Action::Call => if player == 0 {
                        (c1, c1)
                    } else {
                        (c0, c0)
                    },
                    _ => (c0, c1),
                };
                spec_bets(e.child, path.skip(1), d0, d1, t0, t1)
            },
        }
    }
}

/// Computes the committed chips along a valid path suffix.
fn bets_walk(n: &Node, path: &Vec<usize>, i: usize, c0: u64, c1: u64, t0: u64, t1: u64) -> (r: (
    u64,
    u64,
))
    requires
        i <= path@.len(),
        path@.len() <= 1000000000,
        spec_path_valid(*n, path@.skip(i as int)),
        amounts_bounded(*n),
        c0 <= MAX_STACK,
        c1 <= MAX_STACK,
        t0 <= (MAX_STACK as int) * (i + 1),
        t1 <= (MAX_STACK as int) * (i + 1),
    ensures
        (r.0 as int, r.1 as int) == spec_bets(*n, path@.skip(i as int), c0 as int, c1 as int, t0 as int, t1 as int),
    decreases path@.len() - i,
{
    proof {
        assert((MAX_STACK as int) * (i + 1) <= (MAX_STACK as int) * 1000000001)
            by (nonlinear_arith)
            requires
                0 <= i + 1 <= 1000000001,
        ;
    }
    if i == path.len() {
        proof {
            assert(path@.skip(i as int) =~= Seq::<usize>::empty());
        }
        (t0 + c0, t1 + c1)
    } else {
        proof {
            assert(path@.skip(i as int).skip(1) =~= path@.skip(i as int + 1));
            assert(path@.skip(i as int)[0] == path@[i as int]);
        }
        match n {
            Node::Terminal => {
                proof {
                    assert(false);
                }
                (0, 0)
            },
            Node::Chance(ch) => {
                proof {
                    assert((MAX_STACK as int) * (i + 1) + MAX_STACK == (MAX_STACK as int) * (i
                        + 2)) by (nonlinear_arith);
                }
                bets_walk(ch, path, i + 1, 0, 0, t0 + c0, t1 + c1)
            },
            Node::Decision { player, edges } => {
                let e = &edges[path[i]];
                let mut d0 = c0;
                let mut d1 = c1;
                match e.action {
                    Action::Bet(m) => {
                        if *player == 0 {
                            d0 = m as u64;
                        } else {
                            d1 = m as u64;
                        }
                    },
                    Action::Raise(m) => {
                        if *player == 0 {
                            d0 = m as u64;
                        } else {
                            d1 = m as u64;
                        }
                    },
                    Action::AllIn(m) => {
                        if *player == 0 {
                            d0 = m as u64;
                        } else {
                            d1 = m as u64;
                        }
                    },
                    Action::Call => {
                        if *player == 0 {
                            d0 = c1;
                        } else {
                            d1 = c0;
                        }
                    },
                    _ => {},
                }
                proof {
                    assert((MAX_STACK as int) * (i + 1) <= (MAX_STACK as int) * (i + 2))
                        by (nonlinear_arith)
                        requires
                            i >= 0,
                    ;
                }
                bets_walk(&e.child, path, i + 1, d0, d1, t0, t1)
            },
        }
    }
}

/// The action labels along a valid path: the line the path spells.
pub open spec fn spec_line_of(n: Node, path: Seq<usize>) -> Seq<Action>
    decreases path.len(),
{
    if path.len() == 0 {
        Seq::empty()
    } else {
        match n {
            Node::Terminal => Seq::empty(),
            Node::Chance(c) => spec_line_of(*c, path.skip(1)),
            Node::Decision { player, edges } => seq![edges@[path[0] as int].action]
                + spec_line_of(edges@[path[0] as int].child, path.skip(1)),
        }
    }
}

/// Extracts the action labels along a valid path suffix.
fn line_of(n: &Node, path: &Vec<usize>, i: usize) -> (r: Vec<Action>)
    requires
        i <= path@.len(),
        spec_path_valid(*n, path@.skip(i as int)),
    ensures
        r@ == spec_line_of(*n, path@.skip(i as int)),
    decreases path@.len() - i,
{
    if i == path.len() {
        proof {
            assert(path@.skip(i as int) =~= Seq::<usize>::empty());
        }
        Vec::new()
    } else {
        proof {
            assert(path@.skip(i as int).skip(1) =~= path@.skip(i as int + 1));
            assert(path@.skip(i as int)[0] == path@[i as int]);
        }
        match n {
            Node::Terminal => {
                proof {
                    assert(false);
                }
                Vec::new()
            },
            Node::Chance(c) => line_of(c, path, i + 1),
            Node::Decision { player, edges } => {
                let e = &edges[path[i]];
                let mut rest = line_of(&e.child, path, i + 1);
                rest.insert(0, e.action);
                proof {
                    assert(rest@ =~= seq![e.action] + rest@.skip(1));
                }
                rest
            },
        }
    }
}

/// Copies a line of actions.
pub fn copy_line(v: &Vec<Action>) -> (r: Vec<Action>)
    ensures
        r@ == v@,
{
    let mut out: Vec<Action> = Vec::new();
    let mut i: usize = 0;
    while i < v.len()
        invariant
            i <= v@.len(),
            out@ =~= v@.take(i as int),
        decreases v@.len() - i,
    {
        out.push(v[i]);
        proof {
            assert(out@ =~= v@.take(i + 1));
        }
        i = i + 1;
    }
    proof {
        assert(v@.take(v@.len() as int) =~= v@);
    }
    out
}

/// Adds a terminal-stub edge at the node a path designates; the target must
/// be a decision node.
fn add_edge_at(n: Node, path: &Vec<usize>, i: usize, action: Action) -> (r: Node)
    requires
        i <= path@.len(),
        spec_path_valid(n, path@.skip(i as int)),
        spec_node_at(n, path@.skip(i as int)) is Decision,
        spec_node_actions(spec_node_at(n, path@.skip(i as int))).len() < 999999,
        amounts_bounded(n),
        match action {
            Action::Bet(m) => m <= MAX_STACK,
            Action::Raise(m) => m <= MAX_STACK,
            Action::AllIn(m) => m <= MAX_STACK,
            _ => true,
        },
    ensures
        amounts_bounded(r),
        spec_path_valid(r, path@.skip(i as int)),
        spec_node_at(r, path@.skip(i as int)) is Decision,
        spec_node_actions(spec_node_at(r, path@.skip(i as int))) == spec_node_actions(
            spec_node_at(n, path@.skip(i as int)),
        ).push(action),
        spec_edge_added(n, path@.skip(i as int), action, r),
    decreases path@.len() - i,
{
    let ghost n0 = n;
    if i == path.len() {
        proof {
            assert(path@.skip(i as int) =~= Seq::<usize>::empty());
        }
        match n {
            Node::Decision { player, mut edges } => {
                let ghost before = edges@;
                edges.push(Edge { action, child: Node::Terminal });
                let r = Node::Decision { player, edges };
                proof {
                    assert(spec_node_actions(r) =~= Seq::new(
                        before.len(),
                        |j: int| before[j].action,
                    ).push(action));
                    assert forall|j: int| 0 <= j < edges@.len() implies (match (
                    #[trigger] edges@[j]).action {
                        Action::Bet(m) => m <= MAX_STACK,
                        Action::Raise(m) => m <= MAX_STACK,
                        Action::AllIn(m) => m <= MAX_STACK,
                        _ => true,
                    }) && amounts_bounded(edges@[j].child) by {
                        if j < before.len() {
                            assert(edges@[j] == before[j]);
                        }
                    }
                    assert(edges@ =~= before.push(Edge { action, child: Node::Terminal }));
                    assert(spec_edge_added(n0, path@.skip(i as int), action, r));
                }
                r
            },
            _ => {
                proof {
                    assert(false);
                }
                n
            },
        }
    } else {
        proof {
            assert(path@.skip(i as int).skip(1) =~= path@.skip(i as int + 1));
            assert(path@.skip(i as int)[0] == path@[i as int]);
        }
        match n {
            Node::Terminal => {
                proof {
                    assert(false);
                }
                n
            },
            Node::Chance(c) => {
                let r = Node::Chance(Box::new(add_edge_at(*c, path, i + 1, action)));
                proof {
                    assert(spec_edge_added(n0, path@.skip(i as int), action, r));
                }
                r
            },
            Node::Decision { player, mut edges } => {
                let ghost before = edges@;
                let idx = path[i];
                let e = edges.remove(idx);
                let Edge { action: ea, child } = e;
                let newc = add_edge_at(child, path, i + 1, action);
                edges.insert(idx, Edge { action: ea, child: newc });
                let r = Node::Decision { player, edges };
                proof {
                    assert(edges@ =~= before.update(idx as int, edges@[idx as int]));
                    assert(edges@[idx as int].action == before[idx as int].action);
                    assert(spec_node_actions(r) =~= Seq::new(
                        before.len(),
                        |j: int| before[j].action,
                    ));
                    assert forall|j: int| 0 <= j < edges@.len() implies (match (
                    #[trigger] edges@[j]).action {
                        Action::Bet(m) => m <= MAX_STACK,
                        Action::Raise(m) => m <= MAX_STACK,
                        Action::AllIn(m) => m <= MAX_STACK,
                        _ => true,
                    }) && amounts_bounded(edges@[j].child) by {
                        if j != idx {
                            assert(edges@[j] == before[j]);
                        }
                    }
                    assert forall|j: int| 0 <= j < before.len() && j != idx as int implies (
                    #[trigger] edges@[j]) == before[j] by {}
                    assert(spec_edge_added(n0, path@.skip(i as int), action, r));
                }
                r
            },
        }
    }
}

/// Removes the edge the last path element designates from its parent
/// decision node.
fn remove_edge_at(n: Node, path: &Vec<usize>, i: usize) -> (r: Node)
    requires
        i < path@.len(),
        spec_path_valid(n, path@.skip(i as int)),
        spec_parent_is_decision(n, path@.skip(i as int)),
        amounts_bounded(n),
    ensures
        amounts_bounded(r),
        spec_path_valid(r, path@.skip(i as int).drop_last()),
        spec_edge_removed(n, path@.skip(i as int), r),
    decreases path@.len() - i,
{
    let ghost n0 = n;
    let plen = path.len();
    proof {
        assert(path@.skip(i as int).skip(1) =~= path@.skip(i as int + 1));
        assert(path@.skip(i as int)[0] == path@[i as int]);
    }
    match n {
        Node::Terminal => {
            proof {
                assert(false);
            }
            n
        },
        Node::Chance(c) => {
            proof {
                assert(path@.skip(i as int).drop_last().skip(1) =~= path@.skip(
                    i as int + 1,
                ).drop_last());
            }
            let r = Node::Chance(Box::new(remove_edge_at(*c, path, i + 1)));
            proof {
                assert(spec_edge_removed(n0, path@.skip(i as int), r));
            }
            r
        },
        Node::Decision { player, mut edges } => {
            let ghost before = edges@;
            let idx = path[i];
            if i + 1 == plen {
                let _removed = edges.remove(idx);
                let r = Node::Decision { player, edges };
                proof {
                    assert(path@.skip(i as int).drop_last() =~= Seq::<usize>::empty());
                    assert forall|j: int| 0 <= j < edges@.len() implies (match (
                    #[trigger] edges@[j]).action {
                        Action::Bet(m) => m <= MAX_STACK,
                        Action::Raise(m) => m <= MAX_STACK,
                        Action::AllIn(m) => m <= MAX_STACK,
                        _ => true,
                    }) && amounts_bounded(edges@[j].child) by {
                        if j < idx {
                            assert(edges@[j] == before[j]);
                        } else {
                            assert(edges@[j] == before[j + 1]);
                        }
                    }
                    assert(edges@ =~= before.remove(idx as int));
                    assert(path@.skip(i as int).len() == 1);
                    assert(spec_edge_removed(n0, path@.skip(i as int), r));
                }
                r
            } else {
                let e = edges.remove(idx);
                let Edge { action: ea, child } = e;
                let newc = remove_edge_at(child, path, i + 1);
                edges.insert(idx, Edge { action: ea, child: newc });
                let r = Node::Decision { player, edges };
                proof {
                    assert(edges@ =~= before.update(idx as int, edges@[idx as int]));
                    assert(path@.skip(i as int).drop_last().skip(1) =~= path@.skip(
                        i as int + 1,
                    ).drop_last());
                    assert(path@.skip(i as int).drop_last()[0] == path@[i as int]);
                    assert forall|j: int| 0 <= j < edges@.len() implies (match (
                    #[trigger] edges@[j]).action {
                        Action::Bet(m) => m <= MAX_STACK,
                        Action::Raise(m) => m <= MAX_STACK,
                        Action::AllIn(m) => m <= MAX_STACK,
                        _ => true,
                    }) && amounts_bounded(edges@[j].child) by {
                        if j != idx {
                            assert(edges@[j] == before[j]);
                        }
                    }
                    assert forall|j: int| 0 <= j < before.len() && j != idx as int implies (
                    #[trigger] edges@[j]) == before[j] by {}
                    assert(spec_edge_removed(n0, path@.skip(i as int), r));
                }
                r
            }
        },
    }
}

/// Whether the node one step short of the path's end is a decision: only
/// then can the last edge be detached.
pub open spec fn spec_parent_is_decision(n: Node, path: Seq<usize>) -> bool
    decreases path.len(),
{
    if path.len() == 0 {
        false
    } else if path.len() == 1 {
        n is Decision
    } else {
        match n {
            Node::Terminal => false,
            Node::Chance(c) => spec_parent_is_decision(*c, path.skip(1)),
            Node::Decision { player, edges } => spec_parent_is_decision(
                edges@[path[0] as int].child,
                path.skip(1),
            ),
        }
    }
}

/// A valid path whose parent node is a decision satisfies
/// `spec_parent_is_decision`.
proof fn lemma_parent_decision(n: Node, path: Seq<usize>)
    requires
        spec_path_valid(n, path),
        path.len() >= 1,
        spec_node_at(n, path.drop_last()) is Decision,
    ensures
        spec_parent_is_decision(n, path),
    decreases path.len(),
{
    if path.len() == 1 {
        assert(path.drop_last() =~= Seq::<usize>::empty());
    } else {
        match n {
            Node::Terminal => {},
            Node::Chance(c) => {
                assert(path.drop_last().skip(1) =~= path.skip(1).drop_last());
                assert(path.drop_last()[0] == path[0]);
                lemma_parent_decision(*c, path.skip(1));
            },
            Node::Decision { player, edges } => {
                assert(path.drop_last().skip(1) =~= path.skip(1).drop_last());
                assert(path.drop_last()[0] == path[0]);
                lemma_parent_decision(edges@[path[0] as int].child, path.skip(1));
            },
        }
    }
}

/// The trailing run of zeros that steps through the chance nodes in front of
/// the next decision or terminal.
fn chance_extension(n: &Node) -> (r: Vec<usize>)
    ensures
        spec_path_valid(*n, r@),
        spec_node_at(*n, r@) == spec_skip_chance(*n),
        spec_line_of(*n, r@) == Seq::<Action>::empty(),
    decreases *n,
{
    match n {
        Node::Chance(c) => {
            let mut p = chance_extension(c);
            let ghost p0 = p@;
            p.insert(0, 0);
            proof {
                assert(p@.skip(1) =~= p0);
                assert(p@[0] == 0usize);
            }
            p
        },
        _ => {
            let r: Vec<usize> = Vec::new();
            r
        },
    }
}

/// `n2` is `n1` with one terminal-stub edge carrying `a` appended to the
/// decision node the index path designates; every other node and edge keeps
/// its place.
pub open spec fn spec_edge_added(n1: Node, path: Seq<usize>, a: Action, n2: Node) -> bool
    decreases path.len(),
{
    if path.len() == 0 {
        match (n1, n2) {
            (
                Node::Decision { player: p1, edges: e1 },
                Node::Decision { player: p2, edges: e2 },
            ) => p2 == p1 && e2@ == e1@.push(Edge { action: a, child: Node::Terminal }),
            _ => false,
        }
    } else {
        match (n1, n2) {
            (Node::Chance(c1), Node::Chance(c2)) => path[0] == 0 && spec_edge_added(
                *c1,
                path.skip(1),
                a,
                *c2,
            ),
            (
                Node::Decision { player: p1, edges: e1 },
                Node::Decision { player: p2, edges: e2 },
            ) => {
                &&& p2 == p1
                &&& e2@.len() == e1@.len()
                &&& (path[0] as int) < e1@.len()
                &&& (forall|j: int|
                    0 <= j < e1@.len() && j != path[0] as int ==> #[trigger] e2@[j] == e1@[j])
                &&& e2@[path[0] as int].action == e1@[path[0] as int].action
                &&& spec_edge_added(
                    e1@[path[0] as int].child,
                    path.skip(1),
                    a,
                    e2@[path[0] as int].child,
                )
            },
            _ => false,
        }
    }
}

/// `n2` is `n1` with the edge the last path element designates removed from
/// its parent decision node, subtree and all; every other node and edge
/// keeps its place.
pub open spec fn spec_edge_removed(n1: Node, path: Seq<usize>, n2: Node) -> bool
    decreases path.len(),
{
    if path.len() == 0 {
        false
    } else if path.len() == 1 {
        match (n1, n2) {
            (
                Node::Decision { player: p1, edges: e1 },
                Node::Decision { player: p2, edges: e2 },
            ) => p2 == p1 && (path[0] as int) < e1@.len() && e2@ == e1@.remove(path[0] as int),
            _ => false,
        }
    } else {
        match (n1, n2) {
            (Node::Chance(c1), Node::Chance(c2)) => path[0] == 0 && spec_edge_removed(
                *c1,
                path.skip(1),
                *c2,
            ),
            (
                Node::Decision { player: p1, edges: e1 },
                Node::Decision { player: p2, edges: e2 },
            ) => {
                &&& p2 == p1
                &&& e2@.len() == e1@.len()
                &&& (path[0] as int) < e1@.len()
                &&& (forall|j: int|
                    0 <= j < e1@.len() && j != path[0] as int ==> #[trigger] e2@[j] == e1@[j])
                &&& e2@[path[0] as int].action == e1@[path[0] as int].action
                &&& spec_edge_removed(
                    e1@[path[0] as int].child,
                    path.skip(1),
                    e2@[path[0] as int].child,
                )
            },
            _ => false,
        }
    }
}

/// Whether a line can be attached: all actions but the last walk from the
/// root to a decision node that offers room and does not already carry the
/// last action, whose amount is within the stack bound.
pub open spec fn spec_can_attach(n: Node, line: Seq<Action>) -> bool {
    &&& line.len() >= 1
    &&& (match line.last() {
        Action::Bet(m) => m <= MAX_STACK,
        Action::Raise(m) => m <= MAX_STACK,
        Action::AllIn(m) => m <= MAX_STACK,
        _ => true,
    })
    &&& (match spec_walk(n, line.drop_last()) {
        Some(m) => {
            let eff = spec_skip_chance(m);
            &&& eff is Decision
            &&& spec_node_actions(eff).len() < 999999
            &&& spec_find_action(spec_node_actions(eff), line.last(), 0) == spec_node_actions(
                eff,
            ).len()
        },
        None => false,
    })
}

/// Whether a line can be detached: every action walks from the root.
pub open spec fn spec_can_detach(n: Node, line: Seq<Action>) -> bool {
    line.len() >= 1 && spec_walk(n, line) is Some
}

/// `n2` is `n1` with `line` attached as one terminal stub at the decision
/// its prefix walks to.
pub open spec fn spec_line_attached(n1: Node, line: Seq<Action>, n2: Node) -> bool {
    exists|tp: Seq<usize>|
        spec_path_valid(n1, tp) && #[trigger] spec_edge_added(n1, tp, line.last(), n2)
            && spec_line_of(n1, tp) == line.drop_last()
}

/// `n2` is `n1` with the edge `line` walks to detached, subtree and all.
pub open spec fn spec_line_detached(n1: Node, line: Seq<Action>, n2: Node) -> bool {
    exists|tp: Seq<usize>|
        spec_path_valid(n1, tp) && #[trigger] spec_edge_removed(n1, tp, n2) && spec_line_of(
            n1,
            tp,
        ) == line
}

/// The decoded line list of a byte string, or the empty list when it does
/// not decode.
pub open spec fn spec_decoded_lines(s: Seq<u8>) -> Seq<Seq<Action>> {
    match crate::line::spec_decode_lines(s) {
        Some(v) => v,
        None => Seq::empty(),
    }
}

/// The lines of `lines[i..j]` attached in order: each one attachable to the
/// tree the previous ones produced.
pub open spec fn spec_lines_attached(
    n1: Node,
    lines: Seq<Seq<Action>>,
    i: int,
    j: int,
    n2: Node,
) -> bool
    decreases j - i,
{
    if i >= j {
        n2 == n1
    } else {
        exists|mid: Node|
            #[trigger] spec_line_attached(n1, lines[i], mid) && spec_can_attach(n1, lines[i])
                && spec_lines_attached(mid, lines, i + 1, j, n2)
    }
}

/// The lines of `lines[i..j]` detached in order.
pub open spec fn spec_lines_detached(
    n1: Node,
    lines: Seq<Seq<Action>>,
    i: int,
    j: int,
    n2: Node,
) -> bool
    decreases j - i,
{
    if i >= j {
        n2 == n1
    } else {
        exists|mid: Node|
            #[trigger] spec_line_detached(n1, lines[i], mid) && spec_can_detach(n1, lines[i])
                && spec_lines_detached(mid, lines, i + 1, j, n2)
    }
}

/// Some line of `lines[i..]` cannot be attached, however the earlier ones
/// went.
pub open spec fn spec_attach_blocked(n1: Node, lines: Seq<Seq<Action>>, i: int) -> bool
    decreases lines.len() - i,
{
    if i < 0 || i >= lines.len() {
        false
    } else {
        !spec_can_attach(n1, lines[i]) || exists|mid: Node|
            #[trigger] spec_line_attached(n1, lines[i], mid) && spec_attach_blocked(
                mid,
                lines,
                i + 1,
            )
    }
}

/// Some line of `lines[i..]` cannot be detached.
pub open spec fn spec_detach_blocked(n1: Node, lines: Seq<Seq<Action>>, i: int) -> bool
    decreases lines.len() - i,
{
    if i < 0 || i >= lines.len() {
        false
    } else {
        !spec_can_detach(n1, lines[i]) || exists|mid: Node|
            #[trigger] spec_line_detached(n1, lines[i], mid) && spec_detach_blocked(
                mid,
                lines,
                i + 1,
            )
    }
}

/// Extends an attachment chain by one line.
proof fn lemma_attach_snoc(
    n1: Node,
    lines: Seq<Seq<Action>>,
    i: int,
    j: int,
    n2: Node,
    n3: Node,
)
    requires
        0 <= i <= j < lines.len(),
        spec_lines_attached(n1, lines, i, j, n2),
        spec_can_attach(n2, lines[j]),
        spec_line_attached(n2, lines[j], n3),
    ensures
        spec_lines_attached(n1, lines, i, j + 1, n3),
    decreases j - i,
{
    if i == j {
        assert(spec_lines_attached(n3, lines, j + 1, j + 1, n3));
    } else {
        let mid = choose|mid: Node|
            #[trigger] spec_line_attached(n1, lines[i], mid) && spec_can_attach(n1, lines[i])
                && spec_lines_attached(mid, lines, i + 1, j, n2);
        lemma_attach_snoc(mid, lines, i + 1, j, n2, n3);
    }
}

/// Extends a detachment chain by one line.
proof fn lemma_detach_snoc(
    n1: Node,
    lines: Seq<Seq<Action>>,
    i: int,
    j: int,
    n2: Node,
    n3: Node,
)
    requires
        0 <= i <= j < lines.len(),
        spec_lines_detached(n1, lines, i, j, n2),
        spec_can_detach(n2, lines[j]),
        spec_line_detached(n2, lines[j], n3),
    ensures
        spec_lines_detached(n1, lines, i, j + 1, n3),
    decreases j - i,
{
    if i == j {
        assert(spec_lines_detached(n3, lines, j + 1, j + 1, n3));
    } else {
        let mid = choose|mid: Node|
            #[trigger] spec_line_detached(n1, lines[i], mid) && spec_can_detach(n1, lines[i])
                && spec_lines_detached(mid, lines, i + 1, j, n2);
        lemma_detach_snoc(mid, lines, i + 1, j, n2, n3);
    }
}

/// A block after an attachment chain is a block of the whole list.
proof fn lemma_attach_blocked_lift(n1: Node, lines: Seq<Seq<Action>>, i: int, j: int, n2: Node)
    requires
        0 <= i <= j <= lines.len(),
        spec_lines_attached(n1, lines, i, j, n2),
        spec_attach_blocked(n2, lines, j),
    ensures
        spec_attach_blocked(n1, lines, i),
    decreases j - i,
{
    if i < j {
        let mid = choose|mid: Node|
            #[trigger] spec_line_attached(n1, lines[i], mid) && spec_can_attach(n1, lines[i])
                && spec_lines_attached(mid, lines, i + 1, j, n2);
        lemma_attach_blocked_lift(mid, lines, i + 1, j, n2);
    }
}

/// A block after a detachment chain is a block of the whole list.
proof fn lemma_detach_blocked_lift(n1: Node, lines: Seq<Seq<Action>>, i: int, j: int, n2: Node)
    requires
        0 <= i <= j <= lines.len(),
        spec_lines_detached(n1, lines, i, j, n2),
        spec_detach_blocked(n2, lines, j),
    ensures
        spec_detach_blocked(n1, lines, i),
    decreases j - i,
{
    if i < j {
        let mid = choose|mid: Node|
            #[trigger] spec_line_detached(n1, lines[i], mid) && spec_can_detach(n1, lines[i])
                && spec_lines_detached(mid, lines, i + 1, j, n2);
        lemma_detach_blocked_lift(mid, lines, i + 1, j, n2);
    }
}

/// First position of a line in a list, or the list's length.
pub open spec fn spec_find_line(ls: Seq<Seq<Action>>, l: Seq<Action>, i: int) -> int
    decreases ls.len() - i,
{
    if i < 0 || i >= ls.len() {
        ls.len() as int
    } else if ls[i] == l {
        i
    } else {
        spec_find_line(ls, l, i + 1)
    }
}

/// A scan that found no earlier match pins down `spec_find_line`.
proof fn lemma_find_line_skips(ls: Seq<Seq<Action>>, l: Seq<Action>, i: int, j: int)
    requires
        0 <= i <= j <= ls.len(),
        forall|k: int| i <= k < j ==> #[trigger] ls[k] != l,
        j == ls.len() || ls[j] == l,
    ensures
        spec_find_line(ls, l, i) == j,
    decreases j - i,
{
    if i < j {
        lemma_find_line_skips(ls, l, i + 1, j);
    }
}

/// How a line joins the customization record: a line that was removed
/// earlier is struck from the removed list, anything else joins the added
/// list.
pub open spec fn spec_note_added(
    added: Seq<Seq<Action>>,
    removed: Seq<Seq<Action>>,
    line: Seq<Action>,
) -> (Seq<Seq<Action>>, Seq<Seq<Action>>) {
    let idx = spec_find_line(removed, line, 0);
    if idx < removed.len() {
        (added, removed.remove(idx))
    } else {
        (added.push(line), removed)
    }
}

/// How a line's removal joins the record: a line that was added earlier is
/// struck from the added list, anything else joins the removed list.
pub open spec fn spec_note_removed(
    added: Seq<Seq<Action>>,
    removed: Seq<Seq<Action>>,
    line: Seq<Action>,
) -> (Seq<Seq<Action>>, Seq<Seq<Action>>) {
    let idx = spec_find_line(added, line, 0);
    if idx < added.len() {
        (added.remove(idx), removed)
    } else {
        (added, removed.push(line))
    }
}

/// Equality of two lines, executably.
fn lines_equal(a: &Vec<Action>, b: &Vec<Action>) -> (r: bool)
    ensures
        r == (a@ == b@),
{
    if a.len() != b.len() {
        return false;
    }
    let mut i: usize = 0;
    while i < a.len()
        invariant
            i <= a@.len(),
            a@.len() == b@.len(),
            forall|k: int| 0 <= k < i ==> #[trigger] a@[k] == b@[k],
        decreases a@.len() - i,
    {
        if !actions_equal(&a[i], &b[i]) {
            return false;
        }
        i = i + 1;
    }
    proof {
        assert(a@ =~= b@);
    }
    true
}

/// First position of a line in a list, or the list's length, executably.
fn find_line(ls: &Vec<Vec<Action>>, l: &Vec<Action>) -> (r: usize)
    ensures
        r <= ls@.len(),
        r as int == spec_find_line(crate::line::lines_view(ls@), l@, 0),
        r < ls@.len() ==> ls@[r as int]@ == l@,
{
    let ghost lv = crate::line::lines_view(ls@);
    let mut i: usize = 0;
    while i < ls.len()
        invariant
            i <= ls@.len(),
            lv == crate::line::lines_view(ls@),
            forall|k: int| 0 <= k < i ==> #[trigger] lv[k] != l@,
        decreases ls@.len() - i,
    {
        if lines_equal(&ls[i], l) {
            proof {
                assert(lv[i as int] == l@);
                lemma_find_line_skips(lv, l@, 0, i as int);
            }
            return i;
        }
        proof {
            assert(lv[i as int] == ls@[i as int]@);
        }
        i = i + 1;
    }
    proof {
        lemma_find_line_skips(lv, l@, 0, lv.len() as int);
    }
    i
}

/// The decision or terminal node behind any run of chance nodes, executably.
fn skip_chance_ref<'a>(n: &'a Node) -> (r: &'a Node)
    ensures
        *r == spec_skip_chance(*n),
    decreases *n,
{
    match n {
        Node::Chance(c) => skip_chance_ref(c),
        _ => n,
    }
}

/// Whether a size list is acceptable, executably.
fn sizes_ok(v: &Vec<u32>) -> (b: bool)
    ensures
        b == sizes_wf(v@),
{
    if v.len() > 32 {
        return false;
    }
    let mut i: usize = 0;
    while i < v.len()
        invariant
            i <= v@.len(),
            forall|k: int| 0 <= k < i ==> #[trigger] v@[k] <= MAX_SIZE_PCT,
        decreases v@.len() - i,
    {
        if v[i] > MAX_SIZE_PCT {
            return false;
        }
        i = i + 1;
    }
    true
}

/// Whether a configuration is acceptable, executably.
pub fn config_ok(cfg: &TreeConfig) -> (b: bool)
    ensures
        b == cfg.wf(),
{
    if cfg.initial_street > STREET_RIVER {
        return false;
    }
    if cfg.starting_pot < 1 || cfg.starting_pot > MAX_POT {
        return false;
    }
    if cfg.effective_stack < 1 || cfg.effective_stack > MAX_STACK {
        return false;
    }
    if !sizes_ok(&cfg.oop_flop_bet) || !sizes_ok(&cfg.oop_flop_raise) || !sizes_ok(
        &cfg.oop_turn_bet,
    ) || !sizes_ok(&cfg.oop_turn_raise) || !sizes_ok(&cfg.oop_river_bet) || !sizes_ok(
        &cfg.oop_river_raise,
    ) {
        return false;
    }
    if !sizes_ok(&cfg.ip_flop_bet) || !sizes_ok(&cfg.ip_flop_raise) || !sizes_ok(&cfg.ip_turn_bet)
        || !sizes_ok(&cfg.ip_turn_raise) || !sizes_ok(&cfg.ip_river_bet) || !sizes_ok(
        &cfg.ip_river_raise,
    ) {
        return false;
    }
    match cfg.oop_turn_donk {
        Some(ref v) => if !sizes_ok(v) {
            return false;
        },
        None => {},
    }
    match cfg.oop_river_donk {
        Some(ref v) => if !sizes_ok(v) {
            return false;
        },
        None => {},
    }
    if cfg.add_allin_threshold > MAX_THRESHOLD || cfg.force_allin_threshold > MAX_THRESHOLD
        || cfg.merging_threshold > MAX_THRESHOLD {
        return false;
    }
    true
}

/// The betting tree with its cursor and customization lists.
pub struct ActionTree {
    config: TreeConfig,
    root: Node,
    path: Vec<usize>,
    added: Vec<Vec<Action>>,
    removed: Vec<Vec<Action>>,
}

impl ActionTree {
    /// The configuration the tree was generated from.
    pub closed spec fn spec_config(&self) -> TreeConfig {
        self.config
    }

    /// The root node.
    pub closed spec fn spec_root_node(&self) -> Node {
        self.root
    }

    /// The cursor path.
    pub closed spec fn spec_path(&self) -> Seq<usize> {
        self.path@
    }

    /// The recorded added lines.
    pub closed spec fn spec_added(&self) -> Seq<Seq<Action>> {
        crate::line::lines_view(self.added@)
    }

    /// The recorded removed lines.
    pub closed spec fn spec_removed(&self) -> Seq<Seq<Action>> {
        crate::line::lines_view(self.removed@)
    }

    /// The node the cursor designates.
    pub open spec fn spec_current(&self) -> Node {
        spec_node_at(self.spec_root_node(), self.spec_path())
    }

    /// Whether the navigator is in a lawful state: acceptable configuration,
    /// valid cursor, and every chip amount within bounds.
    pub open spec fn wf(&self) -> bool {
        &&& self.spec_config().wf()
        &&& spec_path_valid(self.spec_root_node(), self.spec_path())
        &&& amounts_bounded(self.spec_root_node())
    }

    /// Whether the tree is exactly the grammar-generated one of its
    /// configuration (true until the first edit).
    pub open spec fn matches_grammar(&self) -> bool {
        node_matches(
            &self.spec_config(),
            BuildState::spec_root(&self.spec_config()),
            self.spec_root_node(),
        )
    }

    /// Generates the canonical tree of a configuration, with the cursor at
    /// the root and no customization.  Fails exactly when the configuration
    /// is out of range.
    pub fn new(config: TreeConfig) -> (r: Result<ActionTree, TreeError>)
        ensures
            match r {
                Ok(t) => {
                    &&& config.wf()
                    &&& t.wf()
                    &&& t.matches_grammar()
                    &&& t.spec_config() == config
                    &&& t.spec_path().len() == 0
                    &&& t.spec_added().len() == 0
                    &&& t.spec_removed().len() == 0
                },
                Err(e) => e == TreeError::BadConfig && !config.wf(),
            },
    {
        if !config_ok(&config) {
            return Err(TreeError::BadConfig);
        }
        Ok(Self::build_with(config))
    }

    /// Generates the canonical tree of a configuration known to be
    /// acceptable.
    pub fn build_with(config: TreeConfig) -> (t: ActionTree)
        requires
            config.wf(),
        ensures
            t.wf(),
            t.matches_grammar(),
            t.spec_config() == config,
            t.spec_path().len() == 0,
            t.spec_added().len() == 0,
            t.spec_removed().len() == 0,
    {
        let root = build_tree(&config);
        proof {
            let st = BuildState::spec_root(&config);
            lemma_matched_bounded(&config, st, root);
        }
        ActionTree { config, root, path: Vec::new(), added: Vec::new(), removed: Vec::new() }
    }

    /// Whether the cursor designates a terminal node.
    pub fn is_terminal_node(&self) -> (r: bool)
        requires
            self.wf(),
        ensures
            r == (self.spec_current() is Terminal),
    {
        proof {
            assert(self.path@.skip(0) =~= self.path@);
        }
        let cur = node_at(&self.root, &self.path, 0);
        match cur {
            Node::Terminal => true,
            _ => false,
        }
    }

    /// Whether the cursor designates a chance node.
    pub fn is_chance_node(&self) -> (r: bool)
        requires
            self.wf(),
        ensures
            r == (self.spec_current() is Chance),
    {
        proof {
            assert(self.path@.skip(0) =~= self.path@);
        }
        let cur = node_at(&self.root, &self.path, 0);
        match cur {
            Node::Chance(_) => true,
            _ => false,
        }
    }

    /// The starting pot of the configuration.
    pub fn starting_pot(&self) -> (r: u32)
        ensures
            r == self.spec_config().starting_pot,
    {
        self.config.starting_pot
    }

    /// The seat label of the cursor's decision node; zero elsewhere.
    pub fn current_player_label(&self) -> (r: u8)
        requires
            self.wf(),
        ensures
            self.spec_current() matches Node::Decision { player, .. } ==> r == player,
    {
        proof {
            assert(self.path@.skip(0) =~= self.path@);
        }
        let cur = node_at(&self.root, &self.path, 0);
        match cur {
            Node::Decision { player, edges } => *player,
            _ => 0,
        }
    }

    /// Resets the cursor to the root unconditionally.
    pub fn back_to_root(&mut self)
        requires
            old(self).wf(),
        ensures
            final(self).wf(),
            final(self).spec_path().len() == 0,
            final(self).spec_root_node() == old(self).spec_root_node(),
            final(self).spec_config() == old(self).spec_config(),
            final(self).spec_added() == old(self).spec_added(),
            final(self).spec_removed() == old(self).spec_removed(),
    {
        self.path = Vec::new();
    }

    /// The display forms of the actions available at the cursor, stepping
    /// through chance nodes; empty at a terminal.
    pub fn actions(&self) -> (r: Vec<Vec<u8>>)
        requires
            self.wf(),
        ensures
            ({
                let acts = spec_node_actions(spec_skip_chance(self.spec_current()));
                r@.len() == acts.len() && forall|j: int|
                    0 <= j < acts.len() ==> (#[trigger] r@[j])@ == crate::action::spec_display(
                        acts[j],
                    )
            }),
    {
        proof {
            assert(self.path@.skip(0) =~= self.path@);
        }
        let cur = node_at(&self.root, &self.path, 0);
        let eff = skip_chance_ref(cur);
        let acts = node_actions(eff);
        let mut out: Vec<Vec<u8>> = Vec::new();
        let mut i: usize = 0;
        while i < acts.len()
            invariant
                i <= acts@.len(),
                out@.len() == i,
                forall|j: int|
                    0 <= j < i ==> (#[trigger] out@[j])@ == crate::action::spec_display(acts@[j]),
            decreases acts@.len() - i,
        {
            out.push(crate::action::display_action(acts[i]));
            i = i + 1;
        }
        out
    }

    /// Advances the cursor by one action, stepping through chance nodes, and
    /// answers the index of the matched action among the available ones.
    /// When no available action matches — including at a terminal — the
    /// answer is the sentinel `-1` and the cursor stays put: the sentinel is
    /// an answer for the caller to check, not an error.
    pub fn play(&mut self, a: Action) -> (r: i32)
        requires
            old(self).wf(),
            old(self).spec_path().len() <= 100000000,
        ensures
            final(self).wf(),
            final(self).spec_root_node() == old(self).spec_root_node(),
            final(self).spec_config() == old(self).spec_config(),
            final(self).spec_added() == old(self).spec_added(),
            final(self).spec_removed() == old(self).spec_removed(),
            match spec_step(old(self).spec_current(), a) {
                None => r == -1 && final(self).spec_path() == old(self).spec_path(),
                Some(child) => {
                    &&& r >= 0
                    &&& r as int == spec_find_action(
                        spec_node_actions(spec_skip_chance(old(self).spec_current())),
                        a,
                        0,
                    )
                    &&& final(self).spec_current() == child
                    &&& final(self).spec_path().len() > old(self).spec_path().len()
                },
            },
    {
        proof {
            assert(self.path@.skip(0) =~= self.path@);
        }
        let cur = node_at(&self.root, &self.path, 0);
        match play_step(cur, a) {
            None => -1,
            Some(p) => {
                proof {
                    lemma_path_concat(self.root, self.path@, p@);
                }
                let idx = p[p.len() - 1];
                let ghost oldpath = self.path@;
                let mut k: usize = 0;
                while k < p.len()
                    invariant
                        k <= p@.len(),
                        self.path@ == oldpath + p@.take(k as int),
                        self.root == old(self).root,
                        self.config == old(self).config,
                        self.added == old(self).added,
                        self.removed == old(self).removed,
                        oldpath.len() <= 100000000,
                        p@.len() <= usize::MAX,
                    decreases p@.len() - k,
                {
                    proof {
                        assert(oldpath + p@.take(k + 1) =~= (oldpath + p@.take(k as int)).push(
                            p@[k as int],
                        ));
                    }
                    self.path.push(p[k]);
                    k = k + 1;
                }
                proof {
                    assert(self.path@ =~= oldpath + p@);
                    lemma_bounded_at(old(self).spec_root_node(), oldpath);
                    lemma_path_indexes_bounded(spec_node_at(old(self).spec_root_node(), oldpath), p@);
                    assert(p@[p@.len() - 1] < 1000000);
                }
                idx as i32
            },
        }
    }

    /// Steps the cursor into a chance node's continuation: the card is
    /// revealed outside the tree, which holds a single subtree for all of
    /// them.  Fails, changing nothing, when the cursor is not at a chance
    /// node.
    pub fn enter_chance(&mut self) -> (r: Result<(), TreeError>)
        requires
            old(self).wf(),
        ensures
            final(self).wf(),
            final(self).spec_root_node() == old(self).spec_root_node(),
            final(self).spec_config() == old(self).spec_config(),
            final(self).spec_added() == old(self).spec_added(),
            final(self).spec_removed() == old(self).spec_removed(),
            match r {
                Ok(()) => old(self).spec_current() is Chance && final(self).spec_path() == old(
                    self,
                ).spec_path().push(0),
                Err(e) => e == TreeError::NotADecision && !(old(self).spec_current() is Chance)
                    && *final(self) == *old(self),
            },
    {
        proof {
            assert(self.path@.skip(0) =~= self.path@);
        }
        let cur = node_at(&self.root, &self.path, 0);
        match cur {
            Node::Chance(c) => {
                proof {
                    let one = seq![0usize];
                    assert(one.skip(1) =~= Seq::<usize>::empty());
                    assert(one[0] == 0usize);
                    assert(spec_path_valid(**c, one.skip(1)));
                    assert(spec_path_valid(self.spec_current(), one));
                    lemma_path_concat(self.spec_root_node(), self.path@, one);
                    assert(self.path@ + one =~= self.path@.push(0usize));
                }
                self.path.push(0);
                Ok(())
            },
            _ => Err(TreeError::NotADecision),
        }
    }

    /// Advances the cursor along the edge with a given index at a decision
    /// node.  Fails, changing nothing, at any other node or out-of-range
    /// index.
    pub fn play_index(&mut self, idx: usize) -> (r: Result<(), TreeError>)
        requires
            old(self).wf(),
        ensures
            final(self).wf(),
            final(self).spec_root_node() == old(self).spec_root_node(),
            final(self).spec_config() == old(self).spec_config(),
            final(self).spec_added() == old(self).spec_added(),
            final(self).spec_removed() == old(self).spec_removed(),
            r is Ok <==> old(self).spec_current() is Decision && idx < spec_node_actions(
                old(self).spec_current(),
            ).len(),
            match r {
                Ok(()) => final(self).spec_path() == old(self).spec_path().push(idx),
                Err(e) => e == TreeError::NotADecision && *final(self) == *old(self),
            },
    {
        proof {
            assert(self.path@.skip(0) =~= self.path@);
        }
        let cur = node_at(&self.root, &self.path, 0);
        match cur {
            Node::Decision { player, edges } => {
                if idx >= edges.len() {
                    return Err(TreeError::NotADecision);
                }
                proof {
                    let one = seq![idx];
                    assert(one.skip(1) =~= Seq::<usize>::empty());
                    assert(one[0] == idx);
                    assert(spec_path_valid(edges@[idx as int].child, one.skip(1)));
                    assert(spec_path_valid(self.spec_current(), one));
                    lemma_path_concat(self.spec_root_node(), self.path@, one);
                    assert(self.path@ + one =~= self.path@.push(idx));
                }
                self.path.push(idx);
                Ok(())
            },
            _ => Err(TreeError::NotADecision),
        }
    }

    /// Replaces the cursor with a previously captured one; the checkpoint
    /// must come from this tree.
    pub fn restore_path(&mut self, checkpoint: &Vec<usize>)
        requires
            old(self).wf(),
            spec_path_valid(old(self).spec_root_node(), checkpoint@),
        ensures
            final(self).wf(),
            final(self).spec_root_node() == old(self).spec_root_node(),
            final(self).spec_config() == old(self).spec_config(),
            final(self).spec_added() == old(self).spec_added(),
            final(self).spec_removed() == old(self).spec_removed(),
            final(self).spec_path() == checkpoint@,
    {
        self.path = copy_path(checkpoint);
    }

    /// A copy of the cursor, as a checkpoint for speculative exploration.
    pub fn checkpoint(&self) -> (r: Vec<usize>)
        requires
            self.wf(),
        ensures
            r@ == self.spec_path(),
            spec_path_valid(self.spec_root_node(), r@),
    {
        copy_path(&self.path)
    }

    /// Decodes a single action token and plays it; a malformed token gives
    /// the sentinel, like any unavailable action.
    pub fn play_encoded(&mut self, token: &Vec<u8>) -> (r: i32)
        requires
            old(self).wf(),
            old(self).spec_path().len() <= 100000000,
        ensures
            final(self).wf(),
            final(self).spec_root_node() == old(self).spec_root_node(),
            final(self).spec_config() == old(self).spec_config(),
            final(self).spec_added() == old(self).spec_added(),
            final(self).spec_removed() == old(self).spec_removed(),
            crate::action::spec_decode_token(token@) is None ==> r == -1
                && final(self).spec_path() == old(self).spec_path(),
            crate::action::spec_decode_token(token@) matches Some(a) ==> match spec_step(
                old(self).spec_current(),
                a,
            ) {
                None => r == -1 && final(self).spec_path() == old(self).spec_path(),
                Some(child) => {
                    &&& r >= 0
                    &&& r as int == spec_find_action(
                        spec_node_actions(spec_skip_chance(old(self).spec_current())),
                        a,
                        0,
                    )
                    &&& final(self).spec_current() == child
                    &&& final(self).spec_path().len() > old(self).spec_path().len()
                },
            },
    {
        let n = token.len();
        proof {
            assert(token@.subrange(0, token@.len() as int) =~= token@);
        }
        match crate::action::decode_token(token, 0, n) {
            None => -1,
            Some(a) => self.play(a),
        }
    }

    /// Replays a whole line from the root.  All-or-nothing: on success the
    /// cursor designates the line's end; when any step is unavailable the
    /// call fails and the cursor keeps its old position.
    pub fn apply_history(&mut self, line: &Vec<Action>) -> (r: Result<(), TreeError>)
        requires
            old(self).wf(),
        ensures
            final(self).wf(),
            final(self).spec_root_node() == old(self).spec_root_node(),
            final(self).spec_config() == old(self).spec_config(),
            final(self).spec_added() == old(self).spec_added(),
            final(self).spec_removed() == old(self).spec_removed(),
            match r {
                Ok(()) => spec_walk(old(self).spec_root_node(), line@) == Some(
                    final(self).spec_current(),
                ),
                Err(e) => {
                    &&& e == TreeError::BadHistory
                    &&& spec_walk(old(self).spec_root_node(), line@) is None
                    &&& final(self).spec_path() == old(self).spec_path()
                },
            },
    {
        let mut newpath: Vec<usize> = Vec::new();
        let mut i: usize = 0;
        proof {
            assert(newpath@ =~= Seq::<usize>::empty());
            assert(line@.take(0) =~= Seq::<Action>::empty());
        }
        while i < line.len()
            invariant
                i <= line@.len(),
                self.wf(),
                *self == *old(self),
                spec_path_valid(self.spec_root_node(), newpath@),
                spec_walk(self.spec_root_node(), line@.take(i as int)) == Some(
                    spec_node_at(self.spec_root_node(), newpath@),
                ),
            decreases line@.len() - i,
        {
            proof {
                assert(newpath@.skip(0) =~= newpath@);
            }
            let cur = node_at(&self.root, &newpath, 0);
            let a = line[i];
            match play_step(cur, a) {
                None => {
                    proof {
                        lemma_walk_split(self.spec_root_node(), line@, i as int);
                        assert(line@.skip(i as int)[0] == a);
                    }
                    return Err(TreeError::BadHistory);
                },
                Some(p) => {
                    proof {
                        lemma_path_concat(self.spec_root_node(), newpath@, p@);
                        lemma_walk_split(self.spec_root_node(), line@.take(i + 1), i as int);
                        assert(line@.take(i + 1).take(i as int) =~= line@.take(i as int));
                        assert(line@.take(i + 1).skip(i as int) =~= seq![a]);
                        assert(seq![a].skip(1) =~= Seq::<Action>::empty());
                        assert(seq![a][0] == a);
                        let m = spec_node_at(self.spec_root_node(), newpath@);
                        let child = spec_node_at(m, p@);
                        assert(spec_step(m, a) == Some(child));
                        assert(spec_walk(child, Seq::<Action>::empty()) == Some(child));
                        assert(spec_walk(m, seq![a]) == Some(child));
                    }
                    let ghost np0 = newpath@;
                    let mut k: usize = 0;
                    while k < p.len()
                        invariant
                            k <= p@.len(),
                            newpath@ == np0 + p@.take(k as int),
                        decreases p@.len() - k,
                    {
                        proof {
                            assert(np0 + p@.take(k + 1) =~= (np0 + p@.take(k as int)).push(
                                p@[k as int],
                            ));
                        }
                        newpath.push(p[k]);
                        k = k + 1;
                    }
                    proof {
                        assert(newpath@ =~= np0 + p@);
                    }
                },
            }
            i = i + 1;
        }
        proof {
            assert(line@.take(line@.len() as int) =~= line@);
        }
        self.path = newpath;
        Ok(())
    }

    /// The chips each player has committed at the cursor, out-of-position
    /// player first.
    pub fn total_bet_amount(&self) -> (r: (u64, u64))
        requires
            self.wf(),
            self.spec_path().len() <= 1000000000,
        ensures
            (r.0 as int, r.1 as int) == spec_bets(
                self.spec_root_node(),
                self.spec_path(),
                0,
                0,
                0,
                0,
            ),
    {
        proof {
            assert(self.path@.skip(0) =~= self.path@);
        }
        bets_walk(&self.root, &self.path, 0, 0, 0, 0, 0)
    }

    /// The line of actions the cursor spells.
    pub fn current_line(&self) -> (r: Vec<Action>)
        requires
            self.wf(),
        ensures
            r@ == spec_line_of(self.spec_root_node(), self.spec_path()),
    {
        proof {
            assert(self.path@.skip(0) =~= self.path@);
        }
        line_of(&self.root, &self.path, 0)
    }

    /// Records a line as customization, per `spec_note_added`.
    fn note_line_added(&mut self, line: Vec<Action>)
        ensures
            final(self).config == old(self).config,
            final(self).root == old(self).root,
            final(self).path == old(self).path,
            (final(self).spec_added(), final(self).spec_removed()) == spec_note_added(
                old(self).spec_added(),
                old(self).spec_removed(),
                line@,
            ),
    {
        let ghost lv = line@;
        let r = find_line(&self.removed, &line);
        if r < self.removed.len() {
            let ghost before = crate::line::lines_view(self.removed@);
            self.removed.remove(r);
            proof {
                assert(crate::line::lines_view(self.removed@) =~= before.remove(r as int));
            }
        } else {
            let ghost before = crate::line::lines_view(self.added@);
            self.added.push(line);
            proof {
                assert(crate::line::lines_view(self.added@) =~= before.push(lv));
            }
        }
    }

    /// Records a line's removal, per `spec_note_removed`.
    fn note_line_removed(&mut self, line: Vec<Action>)
        ensures
            final(self).config == old(self).config,
            final(self).root == old(self).root,
            final(self).path == old(self).path,
            (final(self).spec_added(), final(self).spec_removed()) == spec_note_removed(
                old(self).spec_added(),
                old(self).spec_removed(),
                line@,
            ),
    {
        let ghost lv = line@;
        let a = find_line(&self.added, &line);
        if a < self.added.len() {
            let ghost before = crate::line::lines_view(self.added@);
            self.added.remove(a);
            proof {
                assert(crate::line::lines_view(self.added@) =~= before.remove(a as int));
            }
        } else {
            let ghost before = crate::line::lines_view(self.removed@);
            self.removed.push(line);
            proof {
                assert(crate::line::lines_view(self.removed@) =~= before.push(lv));
            }
        }
    }

    /// Inserts a synthetic bet or raise edge at the cursor, leading to a
    /// terminal stub, and records the new line.  Succeeds exactly when the
    /// cursor sits at a decision with room that does not already carry the
    /// action and the amount is within the stack bound; it fails, changing
    /// nothing, otherwise.
    pub fn add_bet_action(&mut self, amount: u32, is_raise: bool) -> (r: Result<(), TreeError>)
        requires
            old(self).wf(),
        ensures
            final(self).wf(),
            final(self).spec_config() == old(self).spec_config(),
            r is Ok <==> ({
                let eff = spec_skip_chance(old(self).spec_current());
                let a = if is_raise {
                    Action::Raise(amount)
                } else {
                    Action::Bet(amount)
                };
                &&& amount <= MAX_STACK
                &&& eff is Decision
                &&& spec_node_actions(eff).len() < 999999
                &&& spec_find_action(spec_node_actions(eff), a, 0) == spec_node_actions(
                    eff,
                ).len()
            }),
            r is Err ==> *final(self) == *old(self),
            r is Ok ==> final(self).spec_path() == old(self).spec_path(),
            r is Ok ==> exists|tp: Seq<usize>|
                #[trigger] spec_path_valid(old(self).spec_root_node(), tp) && spec_edge_added(
                    old(self).spec_root_node(),
                    tp,
                    if is_raise {
                        Action::Raise(amount)
                    } else {
                        Action::Bet(amount)
                    },
                    final(self).spec_root_node(),
                ) && spec_node_at(old(self).spec_root_node(), tp) == spec_skip_chance(
                    old(self).spec_current(),
                ) && spec_line_of(old(self).spec_root_node(), tp) == spec_line_of(
                    old(self).spec_root_node(),
                    old(self).spec_path(),
                ),
            r is Ok ==> (final(self).spec_added(), final(self).spec_removed())
                == spec_note_added(
                old(self).spec_added(),
                old(self).spec_removed(),
                spec_line_of(old(self).spec_root_node(), old(self).spec_path()).push(
                    if is_raise {
                        Action::Raise(amount)
                    } else {
                        Action::Bet(amount)
                    },
                ),
            ),
    {
        if amount > MAX_STACK {
            return Err(TreeError::BadAmount);
        }
        let action = if is_raise {
            Action::Raise(amount)
        } else {
            Action::Bet(amount)
        };
        proof {
            assert(self.path@.skip(0) =~= self.path@);
        }
        let cur = node_at(&self.root, &self.path, 0);
        let ext = chance_extension(cur);
        let eff = skip_chance_ref(cur);
        match eff {
            Node::Decision { player, edges } => {
                proof {
                    assert(spec_node_actions(*eff) =~= Seq::new(
                        edges@.len(),
                        |k: int| edges@[k].action,
                    ));
                }
                if edges.len() >= 999999 {
                    return Err(TreeError::BadAmount);
                }
                let j = find_edge(edges, action);
                if j < edges.len() {
                    return Err(TreeError::DuplicateAction);
                }
                proof {
                    assert(spec_node_actions(*eff).len() == edges@.len());
                    assert(spec_find_action(spec_node_actions(*eff), action, 0)
                        == spec_node_actions(*eff).len());
                }
            },
            _ => {
                return Err(TreeError::NotADecision);
            },
        }
        let mut tpath = copy_path(&self.path);
        let ghost ext0 = ext@;
        append_path(&mut tpath, &ext);
        proof {
            lemma_path_concat(self.spec_root_node(), self.path@, ext0);
            assert(tpath@ =~= self.path@ + ext0);
            assert(spec_node_at(self.spec_root_node(), tpath@) is Decision);
            assert(spec_line_of(self.spec_root_node(), tpath@) =~= spec_line_of(
                self.spec_root_node(),
                self.path@,
            ));
        }
        let mut line = self.current_line();
        line.push(action);
        proof {
            assert(line@.drop_last() =~= spec_line_of(
                old(self).spec_root_node(),
                old(self).spec_path(),
            ));
            assert(spec_line_of(old(self).spec_root_node(), old(self).spec_path()).push(
                action,
            ).drop_last() =~= spec_line_of(old(self).spec_root_node(), old(self).spec_path()));
        }
        let mut tmp = Node::Terminal;
        core::mem::swap(&mut tmp, &mut self.root);
        proof {
            assert(tpath@.skip(0) =~= tpath@);
        }
        let newroot = add_edge_at(tmp, &tpath, 0, action);
        self.root = newroot;
        proof {
            lemma_valid_prefix(self.spec_root_node(), tpath@, self.path@.len() as int);
            assert(tpath@.take(self.path@.len() as int) =~= self.path@);
            assert(spec_edge_added(
                old(self).spec_root_node(),
                tpath@,
                action,
                self.spec_root_node(),
            ));
        }
        self.note_line_added(line);
        Ok(())
    }

    /// Deletes the cursor node and its subtree from its parent; the cursor
    /// moves to the parent.  Succeeds exactly when the cursor is away from
    /// the root and its parent is a decision node; it fails, changing
    /// nothing, otherwise.
    pub fn remove_current_node(&mut self) -> (r: Result<(), TreeError>)
        requires
            old(self).wf(),
        ensures
            final(self).wf(),
            final(self).spec_config() == old(self).spec_config(),
            r is Ok <==> old(self).spec_path().len() >= 1 && spec_node_at(
                old(self).spec_root_node(),
                old(self).spec_path().drop_last(),
            ) is Decision,
            match r {
                Ok(()) => {
                    &&& final(self).spec_path() == old(self).spec_path().drop_last()
                    &&& spec_edge_removed(
                        old(self).spec_root_node(),
                        old(self).spec_path(),
                        final(self).spec_root_node(),
                    )
                    &&& (final(self).spec_added(), final(self).spec_removed())
                        == spec_note_removed(
                        old(self).spec_added(),
                        old(self).spec_removed(),
                        spec_line_of(old(self).spec_root_node(), old(self).spec_path()),
                    )
                },
                Err(_) => *final(self) == *old(self),
            },
    {
        let plen = self.path.len();
        if plen == 0 {
            return Err(TreeError::AtRoot);
        }
        let mut prefix = copy_path(&self.path);
        let _last = prefix.remove(plen - 1);
        proof {
            assert(prefix@ =~= self.path@.drop_last());
            lemma_valid_prefix(self.spec_root_node(), self.path@, plen - 1);
            assert(self.path@.take(plen - 1) =~= self.path@.drop_last());
            assert(prefix@.skip(0) =~= prefix@);
        }
        let parent = node_at(&self.root, &prefix, 0);
        match parent {
            Node::Decision { player, edges } => {},
            _ => {
                return Err(TreeError::NotADecision);
            },
        }
        proof {
            lemma_parent_decision(self.spec_root_node(), self.path@);
        }
        let line = self.current_line();
        let mut tmp = Node::Terminal;
        core::mem::swap(&mut tmp, &mut self.root);
        proof {
            assert(self.path@.skip(0) =~= self.path@);
        }
        let newroot = remove_edge_at(tmp, &self.path, 0);
        self.root = newroot;
        self.path = prefix;
        self.note_line_removed(line);
        Ok(())
    }

    /// Attaches a line: all actions but the last must already be playable
    /// from the root, and the last becomes a new terminal-stub edge at the
    /// decision the prefix walks to.  Succeeds exactly when the line can be
    /// attached; it fails, changing nothing, otherwise.  On success the
    /// cursor returns to the root and the line joins the customization
    /// record.
    pub fn add_line(&mut self, line: &Vec<Action>) -> (r: Result<(), TreeError>)
        requires
            old(self).wf(),
        ensures
            final(self).wf(),
            final(self).spec_config() == old(self).spec_config(),
            r is Ok <==> spec_can_attach(old(self).spec_root_node(), line@),
            r is Err ==> *final(self) == *old(self),
            r is Ok ==> final(self).spec_path().len() == 0,
            r is Ok ==> spec_line_attached(
                old(self).spec_root_node(),
                line@,
                final(self).spec_root_node(),
            ),
            r is Ok ==> (final(self).spec_added(), final(self).spec_removed())
                == spec_note_added(old(self).spec_added(), old(self).spec_removed(), line@),
    {
        let llen = line.len();
        if llen == 0 {
            return Err(TreeError::AddLineFailed);
        }
        let action = line[llen - 1];
        proof {
            assert(line@.last() == action);
        }
        match action {
            Action::Bet(m) => if m > MAX_STACK {
                return Err(TreeError::BadAmount);
            },
            Action::Raise(m) => if m > MAX_STACK {
                return Err(TreeError::BadAmount);
            },
            Action::AllIn(m) => if m > MAX_STACK {
                return Err(TreeError::BadAmount);
            },
            _ => {},
        }
        // walk the prefix
        let mut tpath: Vec<usize> = Vec::new();
        let mut i: usize = 0;
        proof {
            assert(tpath@ =~= Seq::<usize>::empty());
            assert(line@.drop_last().take(0) =~= Seq::<Action>::empty());
            assert(spec_line_of(self.spec_root_node(), tpath@) =~= Seq::<Action>::empty());
        }
        while i < llen - 1
            invariant
                i < llen == line@.len(),
                self.wf(),
                *self == *old(self),
                spec_path_valid(self.spec_root_node(), tpath@),
                spec_walk(self.spec_root_node(), line@.drop_last().take(i as int)) == Some(
                    spec_node_at(self.spec_root_node(), tpath@),
                ),
                spec_line_of(self.spec_root_node(), tpath@) == line@.drop_last().take(i as int),
            decreases llen - i,
        {
            proof {
                assert(tpath@.skip(0) =~= tpath@);
            }
            let cur = node_at(&self.root, &tpath, 0);
            let a = line[i];
            proof {
                assert(line@.drop_last()[i as int] == a);
            }
            match play_step(cur, a) {
                None => {
                    proof {
                        lemma_walk_split(self.spec_root_node(), line@.drop_last(), i as int);
                        assert(line@.drop_last().skip(i as int)[0] == a);
                    }
                    return Err(TreeError::AddLineFailed);
                },
                Some(p) => {
                    proof {
                        lemma_path_concat(self.spec_root_node(), tpath@, p@);
                        lemma_walk_split(
                            self.spec_root_node(),
                            line@.drop_last().take(i + 1),
                            i as int,
                        );
                        assert(line@.drop_last().take(i + 1).take(i as int) =~= line@.drop_last()
                            .take(i as int));
                        assert(line@.drop_last().take(i + 1).skip(i as int) =~= seq![a]);
                        assert(seq![a].skip(1) =~= Seq::<Action>::empty());
                        assert(seq![a][0] == a);
                        let m = spec_node_at(self.spec_root_node(), tpath@);
                        let child = spec_node_at(m, p@);
                        assert(spec_step(m, a) == Some(child));
                        assert(spec_walk(child, Seq::<Action>::empty()) == Some(child));
                        assert(spec_walk(m, seq![a]) == Some(child));
                        assert(line@.drop_last().take(i as int) + seq![a] =~= line@.drop_last()
                            .take(i + 1));
                    }
                    append_path(&mut tpath, &p);
                },
            }
            i = i + 1;
        }
        proof {
            assert(tpath@.skip(0) =~= tpath@);
            assert(line@.drop_last().take(llen - 1) =~= line@.drop_last());
        }
        let cur = node_at(&self.root, &tpath, 0);
        let ext = chance_extension(cur);
        let eff = skip_chance_ref(cur);
        match eff {
            Node::Decision { player, edges } => {
                proof {
                    assert(spec_node_actions(*eff) =~= Seq::new(
                        edges@.len(),
                        |k: int| edges@[k].action,
                    ));
                }
                if edges.len() >= 999999 {
                    return Err(TreeError::AddLineFailed);
                }
                let j = find_edge(edges, action);
                if j < edges.len() {
                    return Err(TreeError::AddLineFailed);
                }
                proof {
                    assert(spec_node_actions(*eff).len() == edges@.len());
                    assert(spec_find_action(spec_node_actions(*eff), action, 0)
                        == spec_node_actions(*eff).len());
                }
            },
            _ => {
                return Err(TreeError::AddLineFailed);
            },
        }
        let ghost tp0 = tpath@;
        let ghost ext0 = ext@;
        append_path(&mut tpath, &ext);
        proof {
            lemma_path_concat(self.spec_root_node(), tp0, ext0);
            assert(tpath@ =~= tp0 + ext0);
            assert(spec_node_at(self.spec_root_node(), tpath@) is Decision);
            assert(spec_line_of(self.spec_root_node(), tpath@) =~= line@.drop_last());
        }
        let mut tmp = Node::Terminal;
        core::mem::swap(&mut tmp, &mut self.root);
        proof {
            assert(tpath@.skip(0) =~= tpath@);
        }
        let newroot = add_edge_at(tmp, &tpath, 0, action);
        self.root = newroot;
        self.path = Vec::new();
        proof {
            assert(spec_edge_added(
                old(self).spec_root_node(),
                tpath@,
                line@.last(),
                self.spec_root_node(),
            ));
        }
        self.note_line_added(copy_line(line));
        Ok(())
    }

    /// Detaches a line: every action must be playable from the root, and the
    /// edge the last action labels is removed with its subtree.  Succeeds
    /// exactly when the whole line walks from the root; it fails, changing
    /// nothing, otherwise.  On success the cursor returns to the root and
    /// the removal joins the customization record.
    pub fn remove_line(&mut self, line: &Vec<Action>) -> (r: Result<(), TreeError>)
        requires
            old(self).wf(),
        ensures
            final(self).wf(),
            final(self).spec_config() == old(self).spec_config(),
            r is Ok <==> spec_can_detach(old(self).spec_root_node(), line@),
            r is Err ==> *final(self) == *old(self),
            r is Ok ==> final(self).spec_path().len() == 0,
            r is Ok ==> spec_line_detached(
                old(self).spec_root_node(),
                line@,
                final(self).spec_root_node(),
            ),
            r is Ok ==> (final(self).spec_added(), final(self).spec_removed())
                == spec_note_removed(old(self).spec_added(), old(self).spec_removed(), line@),
    {
        let llen = line.len();
        if llen == 0 {
            return Err(TreeError::RemoveLineFailed);
        }
        let mut tpath: Vec<usize> = Vec::new();
        let mut i: usize = 0;
        proof {
            assert(tpath@ =~= Seq::<usize>::empty());
            assert(line@.take(0) =~= Seq::<Action>::empty());
            assert(spec_line_of(self.spec_root_node(), tpath@) =~= Seq::<Action>::empty());
        }
        while i < llen
            invariant
                i <= llen == line@.len(),
                self.wf(),
                *self == *old(self),
                spec_path_valid(self.spec_root_node(), tpath@),
                spec_walk(self.spec_root_node(), line@.take(i as int)) == Some(
                    spec_node_at(self.spec_root_node(), tpath@),
                ),
                spec_line_of(self.spec_root_node(), tpath@) == line@.take(i as int),
                i > 0 ==> tpath@.len() >= 1 && spec_node_at(
                    self.spec_root_node(),
                    tpath@.drop_last(),
                ) is Decision,
            decreases llen - i,
        {
            proof {
                assert(tpath@.skip(0) =~= tpath@);
            }
            let cur = node_at(&self.root, &tpath, 0);
            let a = line[i];
            match play_step(cur, a) {
                None => {
                    proof {
                        lemma_walk_split(self.spec_root_node(), line@, i as int);
                        assert(line@.skip(i as int)[0] == a);
                    }
                    return Err(TreeError::RemoveLineFailed);
                },
                Some(p) => {
                    proof {
                        lemma_path_concat(self.spec_root_node(), tpath@, p@);
                        lemma_walk_split(self.spec_root_node(), line@.take(i + 1), i as int);
                        assert(line@.take(i + 1).take(i as int) =~= line@.take(i as int));
                        assert(line@.take(i + 1).skip(i as int) =~= seq![a]);
                        assert(seq![a].skip(1) =~= Seq::<Action>::empty());
                        assert(seq![a][0] == a);
                        let m = spec_node_at(self.spec_root_node(), tpath@);
                        let child = spec_node_at(m, p@);
                        assert(spec_step(m, a) == Some(child));
                        assert(spec_walk(child, Seq::<Action>::empty()) == Some(child));
                        assert(spec_walk(m, seq![a]) == Some(child));
                        assert(line@.take(i as int) + seq![a] =~= line@.take(i + 1));
                        // the parent of the step's last edge is a decision
                        lemma_valid_prefix(m, p@, p@.len() - 1);
                        assert(p@.take(p@.len() - 1) =~= p@.drop_last());
                        lemma_path_concat(self.spec_root_node(), tpath@, p@.drop_last());
                        assert((tpath@ + p@).drop_last() =~= tpath@ + p@.drop_last());
                    }
                    append_path(&mut tpath, &p);
                },
            }
            i = i + 1;
        }
        proof {
            assert(line@.take(llen as int) =~= line@);
        }
        let tlen = tpath.len();
        let mut prefix = copy_path(&tpath);
        let _last = prefix.remove(tlen - 1);
        proof {
            assert(prefix@ =~= tpath@.drop_last());
            lemma_valid_prefix(self.spec_root_node(), tpath@, tlen - 1);
            assert(tpath@.take(tlen - 1) =~= tpath@.drop_last());
            assert(prefix@.skip(0) =~= prefix@);
        }
        let parent = node_at(&self.root, &prefix, 0);
        match parent {
            Node::Decision { player, edges } => {},
            _ => {
                return Err(TreeError::RemoveLineFailed);
            },
        }
        proof {
            lemma_parent_decision(self.spec_root_node(), tpath@);
        }
        let mut tmp = Node::Terminal;
        core::mem::swap(&mut tmp, &mut self.root);
        proof {
            assert(tpath@.skip(0) =~= tpath@);
        }
        let newroot = remove_edge_at(tmp, &tpath, 0);
        self.root = newroot;
        self.path = Vec::new();
        proof {
            assert(spec_edge_removed(
                old(self).spec_root_node(),
                tpath@,
                self.spec_root_node(),
            ));
        }
        self.note_line_removed(copy_line(line));
        Ok(())
    }

    /// Strikes a previously added line from the tree and the added list:
    /// exactly `remove_line` on it.
    pub fn delete_added_line(&mut self, line: &Vec<Action>) -> (r: Result<(), TreeError>)
        requires
            old(self).wf(),
        ensures
            final(self).wf(),
            final(self).spec_config() == old(self).spec_config(),
            r is Ok <==> spec_can_detach(old(self).spec_root_node(), line@),
            r is Err ==> *final(self) == *old(self),
            r is Ok ==> final(self).spec_path().len() == 0,
            r is Ok ==> spec_line_detached(
                old(self).spec_root_node(),
                line@,
                final(self).spec_root_node(),
            ),
            r is Ok ==> (final(self).spec_added(), final(self).spec_removed())
                == spec_note_removed(old(self).spec_added(), old(self).spec_removed(), line@),
    {
        self.remove_line(line)
    }

    /// Restores a previously removed line as a terminal stub and strikes it
    /// from the removed list: exactly `add_line` on it.
    pub fn delete_removed_line(&mut self, line: &Vec<Action>) -> (r: Result<(), TreeError>)
        requires
            old(self).wf(),
        ensures
            final(self).wf(),
            final(self).spec_config() == old(self).spec_config(),
            r is Ok <==> spec_can_attach(old(self).spec_root_node(), line@),
            r is Err ==> *final(self) == *old(self),
            r is Ok ==> final(self).spec_path().len() == 0,
            r is Ok ==> spec_line_attached(
                old(self).spec_root_node(),
                line@,
                final(self).spec_root_node(),
            ),
            r is Ok ==> (final(self).spec_added(), final(self).spec_removed())
                == spec_note_added(old(self).spec_added(), old(self).spec_removed(), line@),
    {
        self.add_line(line)
    }

    /// The added lines, encoded and joined by commas.
    pub fn added_lines(&self) -> (r: Vec<u8>)
        requires
            self.wf(),
        ensures
            r@ == crate::line::spec_encode_lines(self.spec_added()),
    {
        crate::line::encode_lines(&self.added)
    }

    /// The removed lines, encoded and joined by commas.
    pub fn removed_lines(&self) -> (r: Vec<u8>)
        requires
            self.wf(),
        ensures
            r@ == crate::line::spec_encode_lines(self.spec_removed()),
    {
        crate::line::encode_lines(&self.removed)
    }

    /// Rebuilds the tree from a configuration and encoded customization
    /// lists, replacing this one.  The added lines are attached in list
    /// order, then the removed lines detached, and the recorded lists are
    /// set to the decoded inputs.  The whole call fails, changing nothing,
    /// exactly when a list does not decode, the configuration is out of
    /// range, or some line cannot be attached or detached in its turn.
    pub fn rebuild(&mut self, config: TreeConfig, added: &Vec<u8>, removed: &Vec<u8>) -> (r: Result<
        (),
        TreeError,
    >)
        requires
            old(self).wf(),
        ensures
            final(self).wf(),
            r is Err ==> *final(self) == *old(self),
            r == Result::<(), TreeError>::Err(TreeError::BadLine)
                <==> crate::line::spec_decode_lines(added@) is None
                || crate::line::spec_decode_lines(removed@) is None,
            crate::line::spec_decode_lines(added@) is Some && crate::line::spec_decode_lines(
                removed@,
            ) is Some ==> (r == Result::<(), TreeError>::Err(TreeError::BadConfig) <==> !config
                .wf()),
            config.wf() && crate::line::spec_decode_lines(added@) is Some
                && crate::line::spec_decode_lines(removed@) is Some && spec_decoded_lines(
                added@,
            ).len() == 0 && spec_decoded_lines(removed@).len() == 0 ==> r is Ok,
            r == Result::<(), TreeError>::Err(TreeError::AddLineFailed) ==> exists|g: Node|
                #[trigger] node_matches(&config, BuildState::spec_root(&config), g)
                    && spec_attach_blocked(g, spec_decoded_lines(added@), 0),
            r == Result::<(), TreeError>::Err(TreeError::RemoveLineFailed) ==> exists|
                g: Node,
                mid: Node,
            |
                node_matches(&config, BuildState::spec_root(&config), g)
                    && #[trigger] spec_lines_attached(
                    g,
                    spec_decoded_lines(added@),
                    0,
                    spec_decoded_lines(added@).len() as int,
                    mid,
                ) && spec_detach_blocked(mid, spec_decoded_lines(removed@), 0),
            r is Ok ==> exists|g: Node, mid: Node|
                node_matches(&config, BuildState::spec_root(&config), g)
                    && #[trigger] spec_lines_attached(
                    g,
                    spec_decoded_lines(added@),
                    0,
                    spec_decoded_lines(added@).len() as int,
                    mid,
                ) && spec_lines_detached(
                    mid,
                    spec_decoded_lines(removed@),
                    0,
                    spec_decoded_lines(removed@).len() as int,
                    final(self).spec_root_node(),
                ),
            r is Ok ==> final(self).spec_config() == config && final(self).spec_path().len() == 0,
            r is Ok ==> final(self).spec_added() == spec_decoded_lines(added@),
            r is Ok ==> final(self).spec_removed() == spec_decoded_lines(removed@),
    {
        let added_lines = match crate::line::decode_lines(added) {
            Some(v) => v,
            None => {
                return Err(TreeError::BadLine);
            },
        };
        let removed_lines = match crate::line::decode_lines(removed) {
            Some(v) => v,
            None => {
                return Err(TreeError::BadLine);
            },
        };
        let ghost av = crate::line::lines_view(added_lines@);
        let ghost rv = crate::line::lines_view(removed_lines@);
        let mut t = match ActionTree::new(config) {
            Ok(t) => t,
            Err(e) => {
                return Err(e);
            },
        };
        let ghost g0 = t.spec_root_node();
        let mut i: usize = 0;
        while i < added_lines.len()
            invariant
                i <= added_lines@.len(),
                t.wf(),
                t.spec_config() == config,
                *self == *old(self),
                old(self).wf(),
                av == crate::line::lines_view(added_lines@),
                crate::line::spec_decode_lines(added@) == Some(av),
                crate::line::spec_decode_lines(removed@) == Some(rv),
                rv == crate::line::lines_view(removed_lines@),
                config.wf(),
                node_matches(&config, BuildState::spec_root(&config), g0),
                spec_lines_attached(g0, av, 0, i as int, t.spec_root_node()),
            decreases added_lines@.len() - i,
        {
            let ghost pre = t.spec_root_node();
            proof {
                assert(av[i as int] == added_lines@[i as int]@);
            }
            match t.add_line(&added_lines[i]) {
                Ok(()) => {
                    proof {
                        lemma_attach_snoc(g0, av, 0, i as int, pre, t.spec_root_node());
                    }
                },
                Err(_) => {
                    proof {
                        assert(spec_attach_blocked(pre, av, i as int));
                        lemma_attach_blocked_lift(g0, av, 0, i as int, pre);
                    }
                    return Err(TreeError::AddLineFailed);
                },
            }
            i = i + 1;
        }
        let ghost mid0 = t.spec_root_node();
        let mut k: usize = 0;
        while k < removed_lines.len()
            invariant
                k <= removed_lines@.len(),
                t.wf(),
                t.spec_config() == config,
                *self == *old(self),
                old(self).wf(),
                rv == crate::line::lines_view(removed_lines@),
                av == crate::line::lines_view(added_lines@),
                crate::line::spec_decode_lines(added@) == Some(av),
                crate::line::spec_decode_lines(removed@) == Some(rv),
                config.wf(),
                node_matches(&config, BuildState::spec_root(&config), g0),
                spec_lines_attached(g0, av, 0, av.len() as int, mid0),
                spec_lines_detached(mid0, rv, 0, k as int, t.spec_root_node()),
            decreases removed_lines@.len() - k,
        {
            let ghost pre = t.spec_root_node();
            proof {
                assert(rv[k as int] == removed_lines@[k as int]@);
            }
            match t.remove_line(&removed_lines[k]) {
                Ok(()) => {
                    proof {
                        lemma_detach_snoc(mid0, rv, 0, k as int, pre, t.spec_root_node());
                    }
                },
                Err(_) => {
                    proof {
                        assert(spec_detach_blocked(pre, rv, k as int));
                        lemma_detach_blocked_lift(mid0, rv, 0, k as int, pre);
                        assert(av == spec_decoded_lines(added@));
                        assert(rv == spec_decoded_lines(removed@));
                        assert(spec_lines_attached(
                            g0,
                            spec_decoded_lines(added@),
                            0,
                            spec_decoded_lines(added@).len() as int,
                            mid0,
                        ));
                        assert(spec_detach_blocked(mid0, spec_decoded_lines(removed@), 0));
                    }
                    return Err(TreeError::RemoveLineFailed);
                },
            }
            k = k + 1;
        }
        proof {
            assert(av == spec_decoded_lines(added@));
            assert(rv == spec_decoded_lines(removed@));
            assert(spec_lines_attached(
                g0,
                spec_decoded_lines(added@),
                0,
                spec_decoded_lines(added@).len() as int,
                mid0,
            ));
            assert(spec_lines_detached(
                mid0,
                spec_decoded_lines(removed@),
                0,
                spec_decoded_lines(removed@).len() as int,
                t.spec_root_node(),
            ));
        }
        t.back_to_root();
        t.added = added_lines;
        t.removed = removed_lines;
        *self = t;
        Ok(())
    }
}

/// The invalid-terminal lines under a node: lines ending in a terminal stub
/// directly behind a bet, raise or all-in edge — places where a subtree is
/// owed but none was generated, as edits leave behind.
pub open spec fn spec_invalid_lines(n: Node, prefix: Seq<Action>) -> Seq<Seq<Action>>
    decreases n, 1int, 0int,
{
    match n {
        Node::Terminal => Seq::empty(),
        Node::Chance(c) => spec_invalid_lines(*c, prefix),
        Node::Decision { player, edges } => spec_invalid_edges(edges@, prefix, 0),
    }
}

/// The invalid-terminal lines under the edges of a decision node, from edge
/// `i` on.
pub open spec fn spec_invalid_edges(edges: Seq<Edge>, prefix: Seq<Action>, i: int) -> Seq<
    Seq<Action>,
>
    decreases edges, 0int, edges.len() - i,
{
    if i < 0 || i >= edges.len() {
        Seq::empty()
    } else {
        let e = edges[i];
        (match e.action {
            Action::Bet(_) => if e.child is Terminal {
                seq![prefix.push(e.action)]
            } else {
                Seq::<Seq<Action>>::empty()
            },
            Action::Raise(_) => if e.child is Terminal {
                seq![prefix.push(e.action)]
            } else {
                Seq::<Seq<Action>>::empty()
            },
            Action::AllIn(_) => if e.child is Terminal {
                seq![prefix.push(e.action)]
            } else {
                Seq::<Seq<Action>>::empty()
            },
            _ => Seq::<Seq<Action>>::empty(),
        }) + spec_invalid_lines(e.child, prefix.push(e.action)) + spec_invalid_edges(
            edges,
            prefix,
            i + 1,
        )
    }
}

/// Collects the invalid-terminal lines under a node.
fn collect_invalid(n: &Node, prefix: &mut Vec<Action>, out: &mut Vec<Vec<Action>>)
    ensures
        final(prefix)@ == old(prefix)@,
        crate::line::lines_view(final(out)@) == crate::line::lines_view(old(out)@)
            + spec_invalid_lines(*n, old(prefix)@),
    decreases *n, 1int, 0int,
{
    match n {
        Node::Terminal => {
            proof {
                assert(crate::line::lines_view(out@) =~= crate::line::lines_view(out@)
                    + Seq::<Seq<Action>>::empty());
            }
        },
        Node::Chance(c) => {
            collect_invalid(c, prefix, out);
        },
        Node::Decision { player, edges } => {
            collect_invalid_edges(edges, prefix, out, 0);
        },
    }
}

/// Collects the invalid-terminal lines under the edges of a decision node.
fn collect_invalid_edges(
    edges: &Vec<Edge>,
    prefix: &mut Vec<Action>,
    out: &mut Vec<Vec<Action>>,
    i: usize,
)
    requires
        i <= edges@.len(),
    ensures
        final(prefix)@ == old(prefix)@,
        crate::line::lines_view(final(out)@) == crate::line::lines_view(old(out)@)
            + spec_invalid_edges(edges@, old(prefix)@, i as int),
    decreases edges@, 0int, edges@.len() - i,
{
    if i == edges.len() {
        proof {
            assert(crate::line::lines_view(out@) =~= crate::line::lines_view(out@)
                + Seq::<Seq<Action>>::empty());
        }
        return ;
    }
    let ghost base = crate::line::lines_view(out@);
    let ghost p0 = prefix@;
    let e = &edges[i];
    prefix.push(e.action);
    let stub = match e.action {
        Action::Bet(_) => true,
        Action::Raise(_) => true,
        Action::AllIn(_) => true,
        _ => false,
    };
    let terminal = match e.child {
        Node::Terminal => true,
        _ => false,
    };
    if stub && terminal {
        out.push(copy_line(prefix));
        proof {
            assert(crate::line::lines_view(out@) =~= base + seq![p0.push(e.action)]);
        }
    }
    let ghost mid = crate::line::lines_view(out@);
    collect_invalid(&e.child, prefix, out);
    let _ = prefix.pop();
    proof {
        assert(prefix@ =~= p0);
        assert(crate::line::lines_view(out@) =~= mid + spec_invalid_lines(e.child, p0.push(
            e.action,
        )));
    }
    let ghost before_rest = crate::line::lines_view(out@);
    collect_invalid_edges(edges, prefix, out, i + 1);
    proof {
        assert(crate::line::lines_view(out@) =~= before_rest + spec_invalid_edges(
            edges@,
            p0,
            i + 1,
        ));
        assert(crate::line::lines_view(out@) =~= base + spec_invalid_edges(edges@, p0, i as int));
    }
}

impl ActionTree {
    /// The lines ending in an invalid terminal: a terminal stub directly
    /// behind a bet, raise or all-in edge, where a subtree is owed — encoded
    /// and joined by commas.
    pub fn invalid_terminals(&self) -> (r: Vec<u8>)
        requires
            self.wf(),
        ensures
            r@ == crate::line::spec_encode_lines(
                spec_invalid_lines(self.spec_root_node(), Seq::empty()),
            ),
    {
        let mut prefix: Vec<Action> = Vec::new();
        let mut out: Vec<Vec<Action>> = Vec::new();
        proof {
            assert(crate::line::lines_view(out@) =~= Seq::<Seq<Action>>::empty());
        }
        collect_invalid(&self.root, &mut prefix, &mut out);
        proof {
            assert(crate::line::lines_view(out@) =~= spec_invalid_lines(
                self.spec_root_node(),
                Seq::empty(),
            ));
        }
        crate::line::encode_lines(&out)
    }
}

/// Copies a cursor path.
fn copy_path(v: &Vec<usize>) -> (r: Vec<usize>)
    ensures
        r@ == v@,
{
    let mut out: Vec<usize> = Vec::new();
    let mut i: usize = 0;
    while i < v.len()
        invariant
            i <= v@.len(),
            out@ =~= v@.take(i as int),
        decreases v@.len() - i,
    {
        out.push(v[i]);
        proof {
            assert(out@ =~= v@.take(i + 1));
        }
        i = i + 1;
    }
    proof {
        assert(v@.take(v@.len() as int) =~= v@);
    }
    out
}

/// Appends one path to another.
fn append_path(dst: &mut Vec<usize>, src: &Vec<usize>)
    ensures
        final(dst)@ == old(dst)@ + src@,
{
    let ghost d0 = old(dst)@;
    let mut i: usize = 0;
    while i < src.len()
        invariant
            i <= src@.len(),
            dst@ =~= d0 + src@.take(i as int),
        decreases src@.len() - i,
    {
        proof {
            assert(d0 + src@.take(i + 1) =~= (d0 + src@.take(i as int)).push(src@[i as int]));
        }
        dst.push(src[i]);
        i = i + 1;
    }
    proof {
        assert(dst@ =~= d0 + src@);
    }
}

/// The always-available fallback tree: a one-chip pot and stack on the flop
/// with no sized bets, no donk rules, and zero thresholds.
pub fn default_action_tree() -> (r: ActionTree)
    ensures
        r.wf(),
        r.matches_grammar(),
        r.spec_path().len() == 0,
        r.spec_added().len() == 0,
        r.spec_removed().len() == 0,
        r.spec_config().initial_street == 0,
        r.spec_config().starting_pot == 1,
        r.spec_config().effective_stack == 1,
        r.spec_config().oop_flop_bet@.len() == 0,
        r.spec_config().oop_flop_raise@.len() == 0,
        r.spec_config().oop_turn_bet@.len() == 0,
        r.spec_config().oop_turn_raise@.len() == 0,
        r.spec_config().oop_river_bet@.len() == 0,
        r.spec_config().oop_river_raise@.len() == 0,
        r.spec_config().ip_flop_bet@.len() == 0,
        r.spec_config().ip_flop_raise@.len() == 0,
        r.spec_config().ip_turn_bet@.len() == 0,
        r.spec_config().ip_turn_raise@.len() == 0,
        r.spec_config().ip_river_bet@.len() == 0,
        r.spec_config().ip_river_raise@.len() == 0,
        r.spec_config().oop_turn_donk is None,
        r.spec_config().oop_river_donk is None,
        r.spec_config().add_allin_threshold == 0,
        r.spec_config().force_allin_threshold == 0,
        r.spec_config().merging_threshold == 0,
{
    let config = TreeConfig {
        initial_street: 0,
        starting_pot: 1,
        effective_stack: 1,
        oop_flop_bet: Vec::new(),
        oop_flop_raise: Vec::new(),
        oop_turn_bet: Vec::new(),
        oop_turn_raise: Vec::new(),
        oop_river_bet: Vec::new(),
        oop_river_raise: Vec::new(),
        ip_flop_bet: Vec::new(),
        ip_flop_raise: Vec::new(),
        ip_turn_bet: Vec::new(),
        ip_turn_raise: Vec::new(),
        ip_river_bet: Vec::new(),
        ip_river_raise: Vec::new(),
        oop_turn_donk: None,
        oop_river_donk: None,
        add_allin_threshold: 0,
        force_allin_threshold: 0,
        merging_threshold: 0,
    };
    ActionTree::build_with(config)
}

} // verus!
