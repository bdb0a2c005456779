use vstd::prelude::*;

verus! {

/// A stable key for one scene node: the labels on the path from the root
/// down to the node, in order.  It is recomputed every frame from the
/// ancestry path and never stored on a node, so renaming or moving a node
/// deliberately gives it a fresh key.
pub struct Identity {
    path: Vec<String>,
}

impl View for Identity {
    type V = Seq<Seq<char>>;

    closed spec fn view(&self) -> Seq<Seq<char>> {
        Seq::new(self.path@.len(), |i: int| self.path@[i]@)
    }
}

/// The key of a node with the given label whose parent has key `parent`
/// (`None` when the node is the root): the parent key extended by the
/// label, or a one-label key at the root.
pub open spec fn resolve_model(parent: Option<Seq<Seq<char>>>, label: Seq<char>) -> Seq<Seq<char>> {
    match parent {
        Option::Some(p) => p.push(label),
        Option::None => seq![label],
    }
}

/// The key reached by resolving every label of `labels` in order,
/// starting from no parent; `None` when `labels` is empty.
pub open spec fn chain_model(labels: Seq<Seq<char>>) -> Option<Seq<Seq<char>>>
    decreases labels.len(),
{
    if labels.len() == 0 {
        Option::None
    } else {
        Option::Some(resolve_model(chain_model(labels.drop_last()), labels.last()))
    }
}

impl Identity {
    /// The key of a node with label `label` under a parent with key
    /// `parent`, or of the root when `parent` is `None`.  The result is a
    /// function of the arguments alone, so identical inputs give an
    /// identical key on every frame and in every run.
    pub fn resolve(parent: Option<&Identity>, label: &String) -> (r: Identity)
        ensures
            r@ == resolve_model(
                match parent {
                    Option::Some(p) => Option::Some(p@),
                    Option::None => Option::None,
                },
                label@,
            ),
    {
        match parent {
            Option::Some(p) => {
                let mut path = p.path.clone();
                path.push(label.clone());
                let r = Identity { path };
                proof {
                    assert(r@ =~= p@.push(label@));
                }
                r
            },
            Option::None => {
                let mut path: Vec<String> = Vec::new();
                path.push(label.clone());
                let r = Identity { path };
                proof {
                    assert(r@ =~= seq![label@]);
                }
                r
            },
        }
    }

    /// The key of the node at the end of the whole ancestry path
    /// `labels`, resolved in one call; `None` when the path is empty.
    pub fn resolve_path(labels: &Vec<String>) -> (r: Option<Identity>)
        ensures
            labels@.len() == 0 ==> r is None,
            labels@.len() > 0 ==> (r matches Some(id) && id@ == label_models(labels@)),
    {
        if labels.len() == 0 {
            Option::None
        } else {
            let mut path: Vec<String> = Vec::new();
            let mut i: usize = 0;
            while i < labels.len()
                invariant
                    i <= labels@.len(),
                    path@.len() == i,
                    forall|j: int| 0 <= j < i ==> path@[j]@ == labels@[j]@,
                decreases labels@.len() - i,
            {
                path.push(labels[i].clone());
                i = i + 1;
            }
            let r = Identity { path };
            proof {
                assert(r@ =~= label_models(labels@));
            }
            Option::Some(r)
        }
    }

    /// A key equal to this one, label for label.
    pub fn duplicate(&self) -> (r: Identity)
        ensures
            r@ == self@,
    {
        let r = Identity { path: self.path.clone() };
        proof {
            assert(r@ =~= self@);
        }
        r
    }

    /// Whether two keys are the same, label for label.
    pub fn same_as(&self, other: &Identity) -> (r: bool)
        ensures
            r == (self@ == other@),
    {
        if self.path.len() != other.path.len() {
            proof {
                assert(self@.len() != other@.len());
            }
            return false;
        }
        let mut i: usize = 0;
        while i < self.path.len()
            invariant
                i <= self.path@.len(),
                self.path@.len() == other.path@.len(),
                forall|j: int| 0 <= j < i ==> self.path@[j]@ == other.path@[j]@,
            decreases self.path@.len() - i,
        {
            if !(self.path[i] == other.path[i]) {
                proof {
                    assert(self@[i as int] != other@[i as int]);
                }
                return false;
            }
            i = i + 1;
        }
        proof {
            assert(self@ =~= other@);
        }
        true
    }
}

/// The views of a vector of labels, in order.
pub open spec fn label_models(labels: Seq<String>) -> Seq<Seq<char>> {
    Seq::new(labels.len(), |i: int| labels[i]@)
}

/// Composing `resolve` one label at a time along a path gives exactly the
/// key that resolving the whole path at once gives, whatever the path.
pub proof fn lemma_identity_composition(labels: Seq<Seq<char>>)
    requires
        labels.len() > 0,
    ensures
        chain_model(labels) == Option::Some(labels),
    decreases labels.len(),
{
    if labels.len() == 1 {
        assert(labels.drop_last().len() == 0);
        assert(chain_model(labels) == Option::Some(seq![labels.last()]));
        assert(seq![labels.last()] =~= labels);
    } else {
        lemma_identity_composition(labels.drop_last());
        assert(chain_model(labels) == Option::Some(labels.drop_last().push(labels.last())));
        assert(labels.drop_last().push(labels.last()) =~= labels);
    }
}

/// Renaming a node changes its identity: under one and the same parent,
/// two different labels always resolve to two different keys.
pub proof fn lemma_rename_changes_identity(
    parent: Option<Seq<Seq<char>>>,
    label1: Seq<char>,
    label2: Seq<char>,
)
    requires
        label1 != label2,
    ensures
        resolve_model(parent, label1) != resolve_model(parent, label2),
{
    match parent {
        Option::Some(p) => {
            assert(resolve_model(parent, label1).last() == label1);
            assert(resolve_model(parent, label2).last() == label2);
        },
        Option::None => {
            assert(resolve_model(parent, label1).last() == label1);
            assert(resolve_model(parent, label2).last() == label2);
        },
    }
}

} // verus!
