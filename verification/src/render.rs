use crate::identity::{resolve_model, Identity};
use crate::node::{
    children_model, lemma_children_model, node_model, pos_model, NodeModel, SceneNode,
};
use crate::store::{open_of, CollapseStore, StoreModel};
use vstd::prelude::*;

verus! {

broadcast use vstd::std_specs::vec::group_vec_axioms;

/// One drawn line of the panel: the node's identity, its position path
/// (child indexes from the root; empty for the root itself), what the
/// row shows, and whether its children are currently shown.
pub struct Row {
    pub id: Identity,
    pub pos: Vec<usize>,
    pub label: String,
    pub visible: bool,
    pub has_children: bool,
    pub open: bool,
}

/// The mathematical shape of one row.
#[verifier::ext_equal]
pub struct RowModel {
    pub id: Seq<Seq<char>>,
    pub pos: Seq<int>,
    pub label: Seq<char>,
    pub visible: bool,
    pub has_children: bool,
    pub open: bool,
}

impl View for Row {
    type V = RowModel;

    open spec fn view(&self) -> RowModel {
        RowModel {
            id: self.id@,
            pos: pos_model(self.pos@),
            label: self.label@,
            visible: self.visible,
            has_children: self.has_children,
            open: self.open,
        }
    }
}

/// The models of a vector of rows, in order.
pub open spec fn rows_model(rows: Seq<Row>) -> Seq<RowModel> {
    rows.map_values(|r: Row| r@)
}

/// The rows drawn for the node `t` whose parent has identity `parent`
/// (`None` for the root) and whose position path is `pos`: the node's
/// own row first and, when it has children and its identity reads as
/// open in `m`, the rows of each child, in the order the children
/// appear in the model.  The children of a collapsed node are not
/// drawn at all.
pub open spec fn render_node(
    t: NodeModel,
    parent: Option<Seq<Seq<char>>>,
    pos: Seq<int>,
    m: StoreModel,
) -> Seq<RowModel>
    decreases t, 0nat, 0nat,
{
    let id = resolve_model(parent, t.label);
    let row = RowModel {
        id: id,
        pos: pos,
        label: t.label,
        visible: t.visible,
        has_children: t.children.len() > 0,
        open: open_of(m, id),
    };
    if t.children.len() > 0 && open_of(m, id) {
        seq![row] + render_children(t.children, id, pos, 0, m)
    } else {
        seq![row]
    }
}

/// The rows of the children of a node with identity `id` and position
/// path `pos`, from child `i` on.
pub open spec fn render_children(
    cs: Seq<NodeModel>,
    id: Seq<Seq<char>>,
    pos: Seq<int>,
    i: int,
    m: StoreModel,
) -> Seq<RowModel>
    decreases cs, cs.len() - i, 1nat,
{
    if i < 0 || i >= cs.len() {
        seq![]
    } else {
        render_node(cs[i], Option::Some(id), pos.push(i), m) + render_children(
            cs,
            id,
            pos,
            i + 1,
            m,
        )
    }
}

/// Appends to `out` the rows drawn for `node`, exactly as `render_node`
/// says, reading but never changing the store.
#[verifier::loop_isolation(false)]
pub fn render_into(
    node: &SceneNode,
    parent: Option<&Identity>,
    pos: &Vec<usize>,
    store: &CollapseStore,
    out: &mut Vec<Row>,
)
    ensures
        rows_model(final(out)@) == rows_model(old(out)@) + render_node(
            node@,
            match parent {
                Option::Some(p) => Option::Some(p@),
                Option::None => Option::None,
            },
            pos_model(pos@),
            store@,
        ),
    decreases node,
{
    let ghost pm: Option<Seq<Seq<char>>> = match parent {
        Option::Some(p) => Option::Some(p@),
        Option::None => Option::None,
    };
    let ghost posm = pos_model(pos@);
    let ghost target = render_node(node@, pm, posm, store@);
    let id = Identity::resolve(parent, &node.label);
    let has_children = node.children.len() > 0;
    let open = store.is_open(&id);
    proof {
        lemma_children_model(node.children@, 0);
    }
    let row = Row {
        id: id.duplicate(),
        pos: clone_pos(pos),
        label: node.label.clone(),
        visible: node.visible,
        has_children: has_children,
        open: open,
    };
    let ghost rowm = row@;
    proof {
        assert(rowm == target[0]);
    }
    out.push(row);
    proof {
        assert(rows_model(out@) =~= rows_model(old(out)@) + seq![rowm]);
    }
    if has_children && open {
        let ghost cs = node@.children;
        let mut j: usize = 0;
        proof {
            assert(target =~= seq![rowm] + render_children(cs, id@, posm, 0, store@));
        }
        while j < node.children.len()
            invariant
                j <= node.children@.len(),
                cs == node@.children,
                cs.len() == node.children@.len(),
                forall|l: int|
                    0 <= l < cs.len() ==> cs[l] == node_model(#[trigger] node.children@[l]),
                id@ == resolve_model(pm, node@.label),
                rows_model(old(out)@) + target == rows_model(out@) + render_children(
                    cs,
                    id@,
                    posm,
                    j as int,
                    store@,
                ),
            decreases node.children@.len() - j,
        {
            let mut child_pos = clone_pos(pos);
            child_pos.push(j);
            proof {
                assert(pos_model(child_pos@) =~= posm.push(j as int));
            }
            let ghost before = rows_model(out@);
            render_into(&node.children[j], Option::Some(&id), &child_pos, store, out);
            proof {
                assert(rows_model(out@) == before + render_node(
                    cs[j as int],
                    Option::Some(id@),
                    posm.push(j as int),
                    store@,
                ));
                assert(render_children(cs, id@, posm, j as int, store@) == render_node(
                    cs[j as int],
                    Option::Some(id@),
                    posm.push(j as int),
                    store@,
                ) + render_children(cs, id@, posm, j + 1, store@));
                assert(rows_model(old(out)@) + target =~= rows_model(out@) + render_children(
                    cs,
                    id@,
                    posm,
                    j + 1,
                    store@,
                ));
            }
            j = j + 1;
        }
        proof {
            assert(render_children(cs, id@, posm, j as int, store@) =~= Seq::<
                RowModel,
            >::empty());
            assert(rows_model(old(out)@) + target =~= rows_model(out@));
        }
    } else {
        proof {
            assert(target =~= seq![rowm]);
        }
    }
}

/// A copy of a position path, index for index.
fn clone_pos(pos: &Vec<usize>) -> (r: Vec<usize>)
    ensures
        r@ == pos@,
{
    let r = pos.clone();
    proof {
        assert(r@ =~= pos@);
    }
    r
}

/// The pre-order labels of a tree: the node's own label, then those of
/// each child's subtree, children in the order they appear in the model.
pub open spec fn preorder(t: NodeModel) -> Seq<Seq<char>>
    decreases t, 0nat, 0nat,
{
    seq![t.label] + preorder_children(t.children, 0)
}

/// The pre-order labels of the subtrees of `cs` from index `i` on.
pub open spec fn preorder_children(cs: Seq<NodeModel>, i: int) -> Seq<Seq<char>>
    decreases cs, cs.len() - i, 1nat,
{
    if i < 0 || i >= cs.len() {
        seq![]
    } else {
        preorder(cs[i]) + preorder_children(cs, i + 1)
    }
}

/// Every identity reads as expanded in `m`, as on a first frame, when
/// nothing was written yet.
pub open spec fn all_open(m: StoreModel) -> bool {
    forall|id: Seq<Seq<char>>| open_of(m, id)
}

/// Rendering visits the nodes in exactly the order they appear in the
/// model: with every branch expanded, the labels of the drawn rows are
/// the pre-order labels of the tree — nothing is reordered, added or
/// dropped.
pub proof fn lemma_render_follows_model_order(
    t: NodeModel,
    parent: Option<Seq<Seq<char>>>,
    pos: Seq<int>,
    m: StoreModel,
)
    requires
        all_open(m),
    ensures
        render_node(t, parent, pos, m).map_values(|r: RowModel| r.label) == preorder(t),
    decreases t, 0nat, 0nat,
{
    let id = resolve_model(parent, t.label);
    let rows = render_node(t, parent, pos, m);
    if t.children.len() > 0 {
        lemma_render_children_order(t.children, id, pos, 0, m);
        assert(rows.map_values(|r: RowModel| r.label) =~= preorder(t));
    } else {
        assert(preorder_children(t.children, 0) =~= Seq::<Seq<char>>::empty());
        assert(rows.map_values(|r: RowModel| r.label) =~= preorder(t));
    }
}

proof fn lemma_render_children_order(
    cs: Seq<NodeModel>,
    id: Seq<Seq<char>>,
    pos: Seq<int>,
    i: int,
    m: StoreModel,
)
    requires
        all_open(m),
    ensures
        render_children(cs, id, pos, i, m).map_values(|r: RowModel| r.label)
            == preorder_children(cs, i),
    decreases cs, cs.len() - i, 1nat,
{
    if 0 <= i < cs.len() {
        lemma_render_follows_model_order(cs[i], Option::Some(id), pos.push(i), m);
        lemma_render_children_order(cs, id, pos, i + 1, m);
        assert(render_children(cs, id, pos, i, m).map_values(|r: RowModel| r.label)
            =~= preorder_children(cs, i));
    } else {
        assert(render_children(cs, id, pos, i, m).map_values(|r: RowModel| r.label)
            =~= preorder_children(cs, i));
    }
}

} // verus!
