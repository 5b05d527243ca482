//! The drawing of `kb tree`: the root, then each entry under the one it was
//! reached from, with `├── `, `└── ` and `│   ` branches.

use vstd::prelude::*;

use crate::cli::render::{truncate_note, truncated};
use crate::domain::graph::{TreeNode, TreeResult};
use crate::text::{owned, pad_right, push_char, push_padded, push_str, str_eq};

verus! {

/// Width of the key column in a tree.
pub const TREE_COL_KEY: usize = 12;

/// The entries of `nodes` reached from the entry with id `pid`, in order.
pub open spec fn kids(nodes: Seq<TreeNode>, pid: Seq<char>) -> Seq<TreeNode>
    decreases nodes.len(),
{
    if nodes.len() == 0 {
        seq![]
    } else {
        let rest = kids(nodes.drop_last(), pid);
        if nodes.last().parent_id@ == pid {
            rest.push(nodes.last())
        } else {
            rest
        }
    }
}

/// The line of one entry: prefix, branch, key padded to its column and the
/// note in quotes.
pub open spec fn tree_line(prefix: Seq<char>, last: bool, node: TreeNode) -> Seq<char> {
    prefix + (if last {
        "└── "@
    } else {
        "├── "@
    }) + pad_right(node.key@, 12) + " \""@ + truncated(node.note@) + "\"\n"@
}

/// The prefix of the lines below an entry.
pub open spec fn child_prefix(prefix: Seq<char>, last: bool) -> Seq<char> {
    prefix + if last {
        "    "@
    } else {
        "│   "@
    }
}

/// The lines of the entries below `pid`, each followed by its own subtree;
/// `fuel` bounds the depth drawn.
pub open spec fn children_text(
    nodes: Seq<TreeNode>,
    pid: Seq<char>,
    prefix: Seq<char>,
    fuel: nat,
) -> Seq<char>
    decreases fuel, 1nat, 0nat,
{
    kids_text(nodes, kids(nodes, pid), prefix, fuel)
}

/// The lines of the sibling entries `ks` and their subtrees.
pub open spec fn kids_text(
    nodes: Seq<TreeNode>,
    ks: Seq<TreeNode>,
    prefix: Seq<char>,
    fuel: nat,
) -> Seq<char>
    decreases fuel, 0nat, ks.len(),
{
    if ks.len() == 0 || fuel == 0 {
        seq![]
    } else {
        let last = ks.len() == 1;
        tree_line(prefix, last, ks[0]) + children_text(
            nodes,
            ks[0].id@,
            child_prefix(prefix, last),
            (fuel - 1) as nat,
        ) + kids_text(nodes, ks.drop_first(), prefix, fuel)
    }
}

/// The drawing of a tree walk: the root's key, then the entries below it.
/// The depth drawn is bounded by one more than the number of entries,
/// which an acyclic walk never exceeds.
pub open spec fn tree_text(r: TreeResult) -> Seq<char> {
    r.root.key@ + seq!['\n'] + children_text(
        r.nodes@,
        r.root.id@,
        seq![],
        (r.nodes@.len() + 1) as nat,
    )
}

pub open spec fn picked(nodes: Seq<TreeNode>, idx: Seq<usize>) -> Seq<TreeNode> {
    idx.map_values(|i: usize| nodes[i as int])
}

/// The positions of the entries reached from `pid`.
fn kid_indices(nodes: &Vec<TreeNode>, pid: &str) -> (res: Vec<usize>)
    ensures
        forall|k: int| 0 <= k < res@.len() ==> #[trigger] res@[k] < nodes@.len(),
        picked(nodes@, res@) == kids(nodes@, pid@),
{
    let mut res: Vec<usize> = Vec::new();
    let mut i: usize = 0;
    assert(nodes@.take(0) =~= seq![]);
    assert(picked(nodes@, res@) =~= seq![]);
    while i < nodes.len()
        invariant
            0 <= i <= nodes@.len(),
            forall|k: int| 0 <= k < res@.len() ==> #[trigger] res@[k] < i,
            picked(nodes@, res@) == kids(nodes@.take(i as int), pid@),
        decreases nodes@.len() - i,
    {
        assert(nodes@.take(i + 1).drop_last() =~= nodes@.take(i as int));
        assert(nodes@.take(i + 1).last() == nodes@[i as int]);
        if str_eq(nodes[i].parent_id.as_str(), pid) {
            let ghost before = res@;
            res.push(i);
            assert(picked(nodes@, res@) =~= picked(nodes@, before).push(nodes@[i as int]));
        }
        i = i + 1;
    }
    assert(nodes@.take(nodes@.len() as int) =~= nodes@);
    res
}

fn render_children(nodes: &Vec<TreeNode>, pid: &str, prefix: &str, fuel: usize, out: &mut String)
    ensures
        final(out)@ == old(out)@ + children_text(nodes@, pid@, prefix@, fuel as nat),
    decreases fuel, 1nat, 0nat,
{
    let ks = kid_indices(nodes, pid);
    assert(picked(nodes@, ks@).skip(0) =~= picked(nodes@, ks@));
    render_kids(nodes, &ks, 0, prefix, fuel, out);
}

fn render_kids(
    nodes: &Vec<TreeNode>,
    ks: &Vec<usize>,
    start: usize,
    prefix: &str,
    fuel: usize,
    out: &mut String,
)
    requires
        start <= ks@.len(),
        forall|k: int| 0 <= k < ks@.len() ==> #[trigger] ks@[k] < nodes@.len(),
    ensures
        final(out)@ == old(out)@ + kids_text(
            nodes@,
            picked(nodes@, ks@).skip(start as int),
            prefix@,
            fuel as nat,
        ),
    decreases fuel, 0nat, ks@.len() - start,
{
    let ghost rest = picked(nodes@, ks@).skip(start as int);
    if start == ks.len() || fuel == 0 {
        assert(old(out)@ + kids_text(nodes@, rest, prefix@, fuel as nat) =~= old(out)@);
        return;
    }
    let node = &nodes[ks[start]];
    assert(rest[0] == *node);
    let last = start + 1 == ks.len();
    push_str(out, prefix);
    if last {
        push_str(out, "└── ");
    } else {
        push_str(out, "├── ");
    }
    push_padded(out, node.key.as_str(), TREE_COL_KEY);
    push_str(out, " \"");
    let t = truncate_note(node.note.as_str());
    push_str(out, t.as_str());
    push_str(out, "\"\n");
    let ghost after_line = out@;
    assert(after_line =~= old(out)@ + tree_line(prefix@, last, *node));
    let mut cp = owned(prefix);
    if last {
        push_str(&mut cp, "    ");
    } else {
        push_str(&mut cp, "│   ");
    }
    assert(cp@ == child_prefix(prefix@, last));
    render_children(nodes, node.id.as_str(), cp.as_str(), fuel - 1, out);
    let ghost after_children = out@;
    assert(rest.drop_first() =~= picked(nodes@, ks@).skip(start + 1));
    render_kids(nodes, ks, start + 1, prefix, fuel, out);
    assert(out@ =~= old(out)@ + kids_text(nodes@, rest, prefix@, fuel as nat));
}

/// Draws a tree walk as indented branches under the root's key.
pub fn render_tree(result: &TreeResult) -> (res: String)
    requires
        result.nodes@.len() < usize::MAX,
    ensures
        res@ == tree_text(*result),
{
    let mut out = owned(result.root.key.as_str());
    push_char(&mut out, '\n');
    render_children(
        &result.nodes,
        result.root.id.as_str(),
        "",
        result.nodes.len() + 1,
        &mut out,
    );
    proof {
        reveal_strlit("");
        assert(""@ =~= seq![]);
    }
    out
}

} // verus!
