use vstd::prelude::*;

verus! {

broadcast use vstd::std_specs::vec::group_vec_axioms;

/// One entry of the scene hierarchy: a display label, the ordered
/// children it exclusively owns, and its own visibility flag.  The tree
/// is finite and acyclic by construction, since children are owned
/// values, never references.
pub struct SceneNode {
    pub label: String,
    pub children: Vec<SceneNode>,
    pub visible: bool,
}

/// The mathematical shape of one scene node: the label as a character
/// sequence, the children as a sequence of models in the same order, and
/// the visibility flag.
#[verifier::ext_equal]
pub struct NodeModel {
    pub label: Seq<char>,
    pub children: Seq<NodeModel>,
    pub visible: bool,
}

/// The model of a node, children in model order.
pub open spec fn node_model(n: SceneNode) -> NodeModel
    decreases n, 0nat, 0nat,
{
    NodeModel {
        label: n.label@,
        children: children_model(n.children@, 0),
        visible: n.visible,
    }
}

/// The models of the nodes of `s` from index `i` on, in order.
pub open spec fn children_model(s: Seq<SceneNode>, i: int) -> Seq<NodeModel>
    decreases s, s.len() - i, 1nat,
{
    if i < 0 || i >= s.len() {
        seq![]
    } else {
        seq![node_model(s[i])] + children_model(s, i + 1)
    }
}

impl View for SceneNode {
    type V = NodeModel;

    open spec fn view(&self) -> NodeModel {
        node_model(*self)
    }
}

/// How `children_model` relates to the vector it models: one model per
/// node, in the same order.
pub proof fn lemma_children_model(s: Seq<SceneNode>, i: int)
    requires
        0 <= i <= s.len(),
    ensures
        children_model(s, i).len() == s.len() - i,
        forall|j: int|
            0 <= j < s.len() - i ==> #[trigger] children_model(s, i)[j] == node_model(s[i + j]),
    decreases s.len() - i,
{
    if i < s.len() {
        lemma_children_model(s, i + 1);
        assert forall|j: int| 0 <= j < s.len() - i implies children_model(s, i)[j] == node_model(
            s[i + j],
        ) by {
            if j > 0 {
                assert(children_model(s, i + 1)[j - 1] == node_model(s[i + 1 + (j - 1)]));
            }
        }
    }
}

/// Replacing one node of a vector replaces exactly its model.
pub proof fn lemma_children_model_update(s: Seq<SceneNode>, i: int, x: SceneNode)
    requires
        0 <= i < s.len(),
    ensures
        children_model(s.update(i, x), 0) == children_model(s, 0).update(i, node_model(x)),
{
    lemma_children_model(s, 0);
    lemma_children_model(s.update(i, x), 0);
    assert forall|j: int| 0 <= j < s.len() implies children_model(s.update(i, x), 0)[j]
        == children_model(s, 0).update(i, node_model(x))[j] by {
        assert(children_model(s.update(i, x), 0)[j] == node_model(s.update(i, x)[j]));
        assert(children_model(s, 0)[j] == node_model(s[j]));
    }
    assert(children_model(s.update(i, x), 0) =~= children_model(s, 0).update(i, node_model(x)));
}

/// A position path as a sequence of child indexes.
pub open spec fn pos_model(p: Seq<usize>) -> Seq<int> {
    Seq::new(p.len(), |i: int| p[i] as int)
}

/// Whether `p` addresses a node of `t`: each step picks one of the
/// current node's children, and the empty path addresses `t` itself.
pub open spec fn valid_path(t: NodeModel, p: Seq<int>) -> bool
    decreases p.len(),
{
    p.len() == 0 || (0 <= p[0] < t.children.len() && valid_path(t.children[p[0]], p.drop_first()))
}

/// The node `p` addresses.
pub open spec fn node_at(t: NodeModel, p: Seq<int>) -> NodeModel
    decreases p.len(),
{
    if p.len() == 0 {
        t
    } else {
        node_at(t.children[p[0]], p.drop_first())
    }
}

/// `t` with the visibility flag of the node at `p` set to `v` and
/// nothing else changed.
pub open spec fn with_visible_at(t: NodeModel, p: Seq<int>, v: bool) -> NodeModel
    decreases p.len(),
{
    if p.len() == 0 {
        NodeModel { visible: v, ..t }
    } else {
        NodeModel {
            children: t.children.update(
                p[0],
                with_visible_at(t.children[p[0]], p.drop_first(), v),
            ),
            ..t
        }
    }
}

/// `t` with the label of the node at `p` replaced and nothing else
/// changed.
pub open spec fn with_label_at(t: NodeModel, p: Seq<int>, label: Seq<char>) -> NodeModel
    decreases p.len(),
{
    if p.len() == 0 {
        NodeModel { label: label, ..t }
    } else {
        NodeModel {
            children: t.children.update(
                p[0],
                with_label_at(t.children[p[0]], p.drop_first(), label),
            ),
            ..t
        }
    }
}

impl SceneNode {
    /// Whether `path` addresses a node of this tree.
    pub fn path_is_valid(&self, path: &Vec<usize>) -> (r: bool)
        ensures
            r == valid_path(self@, pos_model(path@)),
    {
        proof {
            assert(pos_model(path@).skip(0) =~= pos_model(path@));
        }
        self.path_is_valid_from(path, 0)
    }

    fn path_is_valid_from(&self, path: &Vec<usize>, k: usize) -> (r: bool)
        requires
            k <= path@.len(),
        ensures
            r == valid_path(self@, pos_model(path@).skip(k as int)),
        decreases path@.len() - k,
    {
        if k == path.len() {
            true
        } else {
            let i = path[k];
            proof {
                lemma_children_model(self.children@, 0);
                assert(pos_model(path@).skip(k as int)[0] == i as int);
                assert(pos_model(path@).skip(k as int).drop_first() =~= pos_model(path@).skip(
                    k + 1,
                ));
            }
            if i < self.children.len() {
                self.children[i].path_is_valid_from(path, k + 1)
            } else {
                false
            }
        }
    }

    /// Sets the visibility flag of the node `path` addresses, and of no
    /// other node: the rest of the tree is exactly as it was.
    pub fn set_visible(&mut self, path: &Vec<usize>, v: bool)
        requires
            valid_path(old(self)@, pos_model(path@)),
        ensures
            final(self)@ == with_visible_at(old(self)@, pos_model(path@), v),
    {
        proof {
            assert(pos_model(path@).skip(0) =~= pos_model(path@));
        }
        self.set_visible_from(path, 0, v)
    }

    fn set_visible_from(&mut self, path: &Vec<usize>, k: usize, v: bool)
        requires
            k <= path@.len(),
            valid_path(old(self)@, pos_model(path@).skip(k as int)),
        ensures
            final(self)@ == with_visible_at(old(self)@, pos_model(path@).skip(k as int), v),
        decreases path@.len() - k,
    {
        if k == path.len() {
            self.visible = v;
            proof {
                assert(self@ =~= with_visible_at(old(self)@, pos_model(path@).skip(k as int), v));
            }
        } else {
            let ghost p = pos_model(path@).skip(k as int);
            let i = path[k];
            proof {
                lemma_children_model(old(self).children@, 0);
                assert(p[0] == i as int);
                assert(p.drop_first() =~= pos_model(path@).skip(k + 1));
            }
            let child = &mut self.children[i];
            child.set_visible_from(path, k + 1, v);
            proof {
                lemma_children_model_update(
                    old(self).children@,
                    i as int,
                    self.children@[i as int],
                );
                assert(self@ =~= with_visible_at(old(self)@, p, v));
            }
        }
    }

    /// Renames the node `path` addresses, and no other node: the rest
    /// of the tree is exactly as it was.
    pub fn set_label(&mut self, path: &Vec<usize>, label: String)
        requires
            valid_path(old(self)@, pos_model(path@)),
        ensures
            final(self)@ == with_label_at(old(self)@, pos_model(path@), label@),
    {
        proof {
            assert(pos_model(path@).skip(0) =~= pos_model(path@));
        }
        self.set_label_from(path, 0, label)
    }

    fn set_label_from(&mut self, path: &Vec<usize>, k: usize, label: String)
        requires
            k <= path@.len(),
            valid_path(old(self)@, pos_model(path@).skip(k as int)),
        ensures
            final(self)@ == with_label_at(old(self)@, pos_model(path@).skip(k as int), label@),
        decreases path@.len() - k,
    {
        if k == path.len() {
            self.label = label;
            proof {
                assert(self@ =~= with_label_at(
                    old(self)@,
                    pos_model(path@).skip(k as int),
                    label@,
                ));
            }
        } else {
            let ghost p = pos_model(path@).skip(k as int);
            let i = path[k];
            proof {
                lemma_children_model(old(self).children@, 0);
                assert(p[0] == i as int);
                assert(p.drop_first() =~= pos_model(path@).skip(k + 1));
            }
            let child = &mut self.children[i];
            child.set_label_from(path, k + 1, label);
            proof {
                lemma_children_model_update(
                    old(self).children@,
                    i as int,
                    self.children@[i as int],
                );
                assert(self@ =~= with_label_at(old(self)@, p, label@));
            }
        }
    }
}

/// Toggling visibility touches exactly one node: setting the flag at
/// path `p` keeps every path valid, keeps every label and every child
/// count, changes the flag at `p` to `v`, and leaves the flag at every
/// other path exactly as it was.
pub proof fn lemma_set_visible_touches_one_node(t: NodeModel, p: Seq<int>, v: bool, q: Seq<int>)
    requires
        valid_path(t, p),
        valid_path(t, q),
    ensures
        valid_path(with_visible_at(t, p, v), q),
        node_at(with_visible_at(t, p, v), q).label == node_at(t, q).label,
        node_at(with_visible_at(t, p, v), q).children.len() == node_at(t, q).children.len(),
        q == p ==> node_at(with_visible_at(t, p, v), q).visible == v,
        q != p ==> node_at(with_visible_at(t, p, v), q).visible == node_at(t, q).visible,
    decreases p.len() + q.len(),
{
    let w = with_visible_at(t, p, v);
    if p.len() == 0 {
        if q.len() > 0 {
            lemma_node_at_same_children(t, w, q);
        } else {
            assert(q =~= p);
        }
    } else {
        if q.len() == 0 {
        } else if p[0] != q[0] {
            assert(w.children[q[0]] == t.children[q[0]]);
            assert(node_at(w, q) == node_at(w.children[q[0]], q.drop_first()));
            assert(node_at(t, q) == node_at(t.children[q[0]], q.drop_first()));
        } else {
            lemma_set_visible_touches_one_node(
                t.children[p[0]],
                p.drop_first(),
                v,
                q.drop_first(),
            );
            if q != p {
                assert(q.drop_first() != p.drop_first()) by {
                    if q.drop_first() == p.drop_first() {
                        assert forall|k: int| 0 <= k < q.len() implies q[k] == p[k] by {
                            if k > 0 {
                                assert(q[k] == q.drop_first()[k - 1]);
                                assert(p[k] == p.drop_first()[k - 1]);
                            }
                        }
                        assert(q =~= p);
                    }
                }
            }
            assert(w.children[q[0]] == with_visible_at(t.children[p[0]], p.drop_first(), v));
            assert(node_at(w, q) == node_at(w.children[q[0]], q.drop_first()));
            assert(node_at(t, q) == node_at(t.children[q[0]], q.drop_first()));
        }
    }
}

/// Two trees with the same children agree on every non-empty path.
proof fn lemma_node_at_same_children(a: NodeModel, b: NodeModel, q: Seq<int>)
    requires
        a.children == b.children,
        q.len() > 0,
        valid_path(a, q),
    ensures
        valid_path(b, q),
        node_at(a, q) == node_at(b, q),
{
    assert(node_at(a, q) == node_at(a.children[q[0]], q.drop_first()));
    assert(node_at(b, q) == node_at(b.children[q[0]], q.drop_first()));
}

} // verus!
