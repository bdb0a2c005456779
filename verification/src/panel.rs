use crate::identity::Identity;
use crate::node::{
    lemma_children_model, pos_model, valid_path, with_label_at, with_visible_at, NodeModel,
    SceneNode,
};
use crate::render::{render_node, rows_model, render_into, Row, RowModel};
use crate::store::{open_of, store_set, CollapseStore, StoreModel};
use vstd::prelude::*;

verus! {

/// Which page of the panel is shown.
#[derive(PartialEq, Eq, Structural, Clone, Copy, Debug)]
pub enum Tab {
    Scene,
    Import,
}

impl Default for Tab {
    /// The panel starts on the scene page.
    fn default() -> (r: Tab)
        ensures
            r == Tab::Scene,
    {
        Tab::Scene
    }
}

/// The mathematical shape of a whole session.
#[verifier::ext_equal]
pub struct StateModel {
    pub tab: Tab,
    pub filter: Seq<char>,
    pub root: NodeModel,
    pub store: StoreModel,
}

/// The session-scoped state of the panel: the selected tab, the filter
/// text (an input field only, with no matching semantics yet), the
/// owned scene tree, and the collapse store that survives across
/// frames.
pub struct State {
    tab: Tab,
    scene_filter: String,
    root_node: SceneNode,
    collapse: CollapseStore,
}

impl View for State {
    type V = StateModel;

    closed spec fn view(&self) -> StateModel {
        StateModel {
            tab: self.tab,
            filter: self.scene_filter@,
            root: self.root_node@,
            store: self.collapse@,
        }
    }
}

/// The demo tree the panel starts with.
pub open spec fn demo_tree() -> NodeModel {
    NodeModel {
        label: "Root"@,
        visible: true,
        children: seq![
            NodeModel { label: "Player"@, children: seq![], visible: true },
            NodeModel { label: "Obstacle"@, children: seq![], visible: true },
            NodeModel {
                label: "Aliens"@,
                visible: true,
                children: seq![
                    NodeModel { label: "Alien 1"@, children: seq![], visible: true },
                    NodeModel { label: "Alien 2"@, children: seq![], visible: false },
                ],
            },
        ],
    }
}

fn leaf(label: &str, visible: bool) -> (r: SceneNode)
    ensures
        r@ == (NodeModel { label: label@, children: seq![], visible: visible }),
{
    let r = SceneNode { label: label.to_owned(), children: Vec::new(), visible };
    proof {
        assert(r@.children =~= Seq::<NodeModel>::empty());
        assert(r@ =~= (NodeModel { label: label@, children: seq![], visible: visible }));
    }
    r
}

impl Default for State {
    /// A fresh session: scene tab, empty filter, the demo tree, and a
    /// collapse store with nothing written, so every branch starts
    /// expanded.
    fn default() -> (r: State)
        ensures
            r@.tab == Tab::Scene,
            r@.filter == Seq::<char>::empty(),
            r@.root == demo_tree(),
            r@.store == Seq::<(Seq<Seq<char>>, bool)>::empty(),
    {
        let mut aliens_children: Vec<SceneNode> = Vec::new();
        aliens_children.push(leaf("Alien 1", true));
        aliens_children.push(leaf("Alien 2", false));
        let aliens = SceneNode {
            label: "Aliens".to_owned(),
            children: aliens_children,
            visible: true,
        };
        proof {
            lemma_children_model(aliens.children@, 0);
            assert(aliens@.children =~= demo_tree().children[2].children);
            assert(aliens@ =~= demo_tree().children[2]);
        }
        let mut root_children: Vec<SceneNode> = Vec::new();
        root_children.push(leaf("Player", true));
        root_children.push(leaf("Obstacle", true));
        root_children.push(aliens);
        let root_node = SceneNode {
            label: "Root".to_owned(),
            children: root_children,
            visible: true,
        };
        proof {
            lemma_children_model(root_node.children@, 0);
            assert(root_node@.children =~= demo_tree().children);
            assert(root_node@ =~= demo_tree());
        }
        State {
            tab: Tab::Scene,
            scene_filter: String::new(),
            root_node,
            collapse: CollapseStore::new(),
        }
    }
}

/// One user interaction, collected by the host while it drew a frame.
pub enum PanelEvent {
    /// The tab selector was clicked.
    SelectTab(Tab),
    /// The filter text field was edited.
    SetFilter(String),
    /// The visibility checkbox of the row at this position path was set.
    SetVisible(Vec<usize>, bool),
    /// The collapse affordance of the row with this identity was set.
    SetOpen(Identity, bool),
}

/// The mathematical shape of one interaction.
#[verifier::ext_equal]
pub enum EventModel {
    SelectTab(Tab),
    SetFilter(Seq<char>),
    SetVisible(Seq<int>, bool),
    SetOpen(Seq<Seq<char>>, bool),
}

impl View for PanelEvent {
    type V = EventModel;

    open spec fn view(&self) -> EventModel {
        match self {
            PanelEvent::SelectTab(t) => EventModel::SelectTab(*t),
            PanelEvent::SetFilter(f) => EventModel::SetFilter(f@),
            PanelEvent::SetVisible(p, v) => EventModel::SetVisible(pos_model(p@), *v),
            PanelEvent::SetOpen(id, b) => EventModel::SetOpen(id@, *b),
        }
    }
}

/// The state after one interaction.  A visibility toggle whose path no
/// longer addresses a node changes nothing; every other interaction
/// changes exactly the component it names.
pub open spec fn apply_model(s: StateModel, e: EventModel) -> StateModel {
    match e {
        EventModel::SelectTab(t) => StateModel { tab: t, ..s },
        EventModel::SetFilter(f) => StateModel { filter: f, ..s },
        EventModel::SetVisible(p, v) => if valid_path(s.root, p) {
            StateModel { root: with_visible_at(s.root, p, v), ..s }
        } else {
            s
        },
        EventModel::SetOpen(id, b) => StateModel { store: store_set(s.store, id, b), ..s },
    }
}

/// The state after a run of interactions, applied in order.
pub open spec fn apply_all(s: StateModel, es: Seq<EventModel>) -> StateModel
    decreases es.len(),
{
    if es.len() == 0 {
        s
    } else {
        apply_all(apply_model(s, es[0]), es.drop_first())
    }
}

/// The rows the panel draws for a given state, top to bottom: on the
/// scene tab a walk of the tree that skips the children of every
/// collapsed branch, on the import tab nothing.  A function of the
/// state alone, so re-rendering an unchanged state draws the same rows.
pub open spec fn frame_model(s: StateModel) -> Seq<RowModel> {
    if s.tab == Tab::Scene {
        render_node(s.root, Option::None, seq![], s.store)
    } else {
        seq![]
    }
}

impl State {
    /// The selected tab.
    pub fn tab(&self) -> (r: Tab)
        ensures
            r == self@.tab,
    {
        self.tab
    }

    /// The filter text (inert in this version).
    pub fn scene_filter(&self) -> (r: &String)
        ensures
            r@ == self@.filter,
    {
        &self.scene_filter
    }

    /// The scene tree.
    pub fn root_node(&self) -> (r: &SceneNode)
        ensures
            r@ == self@.root,
    {
        &self.root_node
    }

    /// The rows to draw this frame.  Reading never changes the state:
    /// the same state draws the same rows, frame after frame.
    pub fn render_frame(&self) -> (rows: Vec<Row>)
        ensures
            rows_model(rows@) == frame_model(self@),
    {
        let mut out: Vec<Row> = Vec::new();
        match self.tab {
            Tab::Scene => {
                let pos: Vec<usize> = Vec::new();
                proof {
                    assert(pos_model(pos@) =~= Seq::<int>::empty());
                    assert(rows_model(out@) =~= Seq::<RowModel>::empty());
                }
                render_into(&self.root_node, Option::None, &pos, &self.collapse, &mut out);
                proof {
                    assert(rows_model(out@) =~= frame_model(self@));
                }
            },
            Tab::Import => {
                proof {
                    assert(rows_model(out@) =~= frame_model(self@));
                }
            },
        }
        out
    }

    /// Applies one collected interaction, exactly as `apply_model`
    /// says.  Returns whether the interaction found its target; only a
    /// visibility toggle can miss, when its path no longer addresses a
    /// node.
    pub fn apply_event(&mut self, e: PanelEvent) -> (ok: bool)
        ensures
            final(self)@ == apply_model(old(self)@, e@),
            ok == match e@ {
                EventModel::SetVisible(p, _) => valid_path(old(self)@.root, p),
                _ => true,
            },
    {
        match e {
            PanelEvent::SelectTab(t) => {
                self.tab = t;
                proof {
                    assert(self@ =~= apply_model(old(self)@, e@));
                }
                true
            },
            PanelEvent::SetFilter(f) => {
                self.scene_filter = f;
                proof {
                    assert(self@ =~= apply_model(old(self)@, e@));
                }
                true
            },
            PanelEvent::SetVisible(p, v) => {
                if self.root_node.path_is_valid(&p) {
                    self.root_node.set_visible(&p, v);
                    proof {
                        assert(self@ =~= apply_model(old(self)@, e@));
                    }
                    true
                } else {
                    proof {
                        assert(self@ =~= apply_model(old(self)@, e@));
                    }
                    false
                }
            },
            PanelEvent::SetOpen(id, b) => {
                self.collapse.set_open(id, b);
                proof {
                    assert(self@ =~= apply_model(old(self)@, e@));
                }
                true
            },
        }
    }

    /// Renames the node at `path` (the root itself at the empty path).
    /// The rest of the tree, the collapse store and everything else are
    /// exactly as they were; the renamed node answers to a fresh
    /// identity from the next frame on.  Returns whether the path
    /// addressed a node.
    pub fn rename_node(&mut self, path: &Vec<usize>, label: String) -> (ok: bool)
        ensures
            ok == valid_path(old(self)@.root, pos_model(path@)),
            ok ==> final(self)@ == (StateModel {
                root: with_label_at(old(self)@.root, pos_model(path@), label@),
                ..old(self)@
            }),
            !ok ==> final(self)@ == old(self)@,
    {
        if self.root_node.path_is_valid(path) {
            self.root_node.set_label(path, label);
            true
        } else {
            false
        }
    }
}

/// Collapse state for a given identity is stable across consecutive
/// frames when no toggle happens in between: drawing reads the store
/// without writing it, and a run of interactions none of which is a
/// collapse toggle leaves every identity's open state exactly as it
/// was.
pub proof fn lemma_collapse_stable(s: StateModel, es: Seq<EventModel>, id: Seq<Seq<char>>)
    requires
        forall|i: int| 0 <= i < es.len() ==> !(#[trigger] es[i] is SetOpen),
    ensures
        open_of(apply_all(s, es).store, id) == open_of(s.store, id),
    decreases es.len(),
{
    if es.len() > 0 {
        assert(apply_model(s, es[0]).store == s.store);
        assert(forall|i: int|
            0 <= i < es.drop_first().len() ==> !(#[trigger] es.drop_first()[i] is SetOpen));
        lemma_collapse_stable(apply_model(s, es[0]), es.drop_first(), id);
    }
}

} // verus!
