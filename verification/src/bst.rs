//! A persistent binary search tree over any totally ordered element type.
use vstd::prelude::*;
use vstd::laws_eq::obeys_concrete_eq;
use vstd::laws_cmp::obeys_partial_cmp_spec_properties;
use vstd::std_specs::cmp::PartialOrdSpec;
use crate::seqs::clones_of;

verus! {

/// A binary tree: a leaf, or a node with a value and two subtrees.
#[derive(Debug)]
pub enum Tree<T> {
    Leaf,
    Node { value: T, left: Box<Tree<T>>, right: Box<Tree<T>> },
}

/// `a` orders strictly before `b`.
pub open spec fn below<T: PartialOrd>(a: T, b: T) -> bool {
    a.partial_cmp_spec(&b) == Some(core::cmp::Ordering::Less)
}

/// `a` orders strictly after `b`.
pub open spec fn above<T: PartialOrd>(a: T, b: T) -> bool {
    a.partial_cmp_spec(&b) == Some(core::cmp::Ordering::Greater)
}

/// The element type's `==`, `<` and `>` behave as a total order on values.
pub open spec fn ordered_type<T: PartialOrd>() -> bool {
    &&& obeys_concrete_eq::<T>()
    &&& T::obeys_partial_cmp_spec()
    &&& obeys_partial_cmp_spec_properties::<T>()
    &&& forall|x: T, y: T| #[trigger] x.partial_cmp_spec(&y) is Some
}

impl<T> Tree<T> {
    /// The set of values stored in the tree.
    pub open spec fn elems(&self) -> Set<T>
        decreases self,
    {
        match self {
            Tree::Leaf => Set::empty(),
            Tree::Node { value, left, right } => (**left).elems().union((**right).elems()).insert(*value),
        }
    }

    /// The values in in-order (left subtree, node, right subtree).
    pub open spec fn inorder(&self) -> Seq<T>
        decreases self,
    {
        match self {
            Tree::Leaf => Seq::empty(),
            Tree::Node { value, left, right } => (**left).inorder() + seq![*value] + (**right).inorder(),
        }
    }

    /// The number of nodes.
    pub open spec fn node_count(&self) -> nat
        decreases self,
    {
        match self {
            Tree::Leaf => 0,
            Tree::Node { left, right, .. } => 1 + (**left).node_count() + (**right).node_count(),
        }
    }

    /// The number of nodes on the longest root-to-leaf path.
    pub open spec fn levels(&self) -> nat
        decreases self,
    {
        match self {
            Tree::Leaf => 0,
            Tree::Node { left, right, .. } => {
                let l = (**left).levels();
                let r = (**right).levels();
                1 + if l >= r { l } else { r }
            }
        }
    }
}

impl<T: PartialOrd> Tree<T> {
    /// Every node's left values order before it and right values after it.
    pub open spec fn is_search_tree(&self) -> bool
        decreases self,
    {
        match self {
            Tree::Leaf => true,
            Tree::Node { value, left, right } => {
                &&& forall|x: T| #[trigger] (**left).elems().contains(x) ==> below(x, *value)
                &&& forall|x: T| #[trigger] (**right).elems().contains(x) ==> above(x, *value)
                &&& (**left).is_search_tree()
                &&& (**right).is_search_tree()
            }
        }
    }
}

impl<T: PartialOrd> Tree<T> {
    /// The tree with `v` added as a new leaf at the end of its search path;
    /// the same tree when the path meets a node equal to `v`.
    pub open spec fn inserted(self, v: T) -> Tree<T>
        decreases self,
    {
        match self {
            Tree::Leaf => Tree::Node { value: v, left: Box::new(Tree::Leaf), right: Box::new(Tree::Leaf) },
            Tree::Node { value, left, right } => if below(v, value) {
                Tree::Node { value, left: Box::new((*left).inserted(v)), right }
            } else if above(v, value) {
                Tree::Node { value, left, right: Box::new((*right).inserted(v)) }
            } else {
                Tree::Node { value, left, right }
            },
        }
    }
}

/// The sequence is strictly increasing.
pub open spec fn strictly_sorted<T: PartialOrd>(s: Seq<T>) -> bool {
    forall|i: int, j: int| 0 <= i < j < s.len() ==> below(#[trigger] s[i], #[trigger] s[j])
}

proof fn lemma_order_facts<T: PartialOrd>(a: T, v: T, b: T)
    requires
        ordered_type::<T>(),
        below(a, v),
        above(b, v),
    ensures
        below(a, b),
{
    reveal(obeys_partial_cmp_spec_properties);
    assert(v.partial_cmp_spec(&b) == Some(core::cmp::Ordering::Less));
}

proof fn lemma_inorder_elems<T>(t: &Tree<T>)
    ensures
        forall|x: T| t.inorder().contains(x) <==> t.elems().contains(x),
        t.inorder().len() == t.node_count(),
    decreases t,
{
    match t {
        Tree::Leaf => {}
        Tree::Node { value, left, right } => {
            lemma_inorder_elems(&**left);
            lemma_inorder_elems(&**right);
            let l = (**left).inorder();
            let r = (**right).inorder();
            let s = t.inorder();
            assert(s == l + seq![*value] + r);
            assert forall|x: T| s.contains(x) implies t.elems().contains(x) by {
                let k = choose|k: int| 0 <= k < s.len() && s[k] == x;
                if k < l.len() {
                    assert(l[k] == x);
                    assert(l.contains(x));
                } else if k > l.len() {
                    assert(r[k - l.len() - 1] == x);
                    assert(r.contains(x));
                }
            }
            assert forall|x: T| t.elems().contains(x) implies s.contains(x) by {
                if (**left).elems().contains(x) {
                    assert(l.contains(x));
                    let k = choose|k: int| 0 <= k < l.len() && l[k] == x;
                    assert(s[k] == x);
                } else if (**right).elems().contains(x) {
                    assert(r.contains(x));
                    let k = choose|k: int| 0 <= k < r.len() && r[k] == x;
                    assert(s[l.len() + 1 + k] == x);
                } else {
                    assert(s[l.len() as int] == x);
                }
            }
        }
    }
}

impl<T: Ord + Clone> Tree<T> {
    /// The empty tree.
    pub fn empty() -> (t: Self)
        ensures
            t.elems() == Set::<T>::empty(),
            t.node_count() == 0,
            t.is_search_tree(),
    {
        Tree::Leaf
    }

    /// The tree with `new_value` added in its ordered place; a value already
    /// present leaves the tree as it is.
    pub fn insert(self, new_value: T) -> (t: Self)
        requires
            ordered_type::<T>(),
            self.is_search_tree(),
        ensures
            t.is_search_tree(),
            t.elems() == self.elems().insert(new_value),
            t.node_count() == self.node_count() + (if self.elems().contains(new_value) { 0nat } else { 1nat }),
            self.elems().contains(new_value) ==> t == self,
            t == self.inserted(new_value),
        decreases self,
    {
        proof { reveal(obeys_concrete_eq); reveal(obeys_partial_cmp_spec_properties); }
        match self {
            Tree::Leaf => {
                let t = Tree::Node { value: new_value, left: Box::new(Tree::Leaf), right: Box::new(Tree::Leaf) };
                assert(Tree::<T>::Leaf.elems() == Set::<T>::empty());
                assert(Tree::<T>::Leaf.node_count() == 0);
                assert(t.elems() =~= Set::<T>::empty().insert(new_value));
                t
            }
            Tree::Node { value, left, right } => {
                let ghost old_left = *left;
                let ghost old_right = *right;
                if new_value < value {
                    assert(below(new_value, value));
                    proof { if old_right.elems().contains(new_value) {                         assert(above(new_value, value));                     } }
                    assert(!old_right.elems().contains(new_value));
                    assert(new_value != value);
                    let nl = (*left).insert(new_value);
                    let t = Tree::Node { value, left: Box::new(nl), right };
                    proof {
                        if old_left.elems().insert(value).union(old_right.elems()).contains(new_value) {
                            assert(old_left.elems().contains(new_value));
                            assert(nl == old_left);
                        }
                    }
                    assert(t.elems() =~= old_left.elems().union(old_right.elems()).insert(value).insert(new_value));
                    t
                } else if new_value > value {
                    assert(above(new_value, value));
                    proof { if old_left.elems().contains(new_value) {                         assert(below(new_value, value));                     } }
                    assert(!old_left.elems().contains(new_value));
                    assert(new_value != value);
                    let nr = (*right).insert(new_value);
                    let t = Tree::Node { value, left, right: Box::new(nr) };
                    proof {
                        if old_left.elems().insert(value).union(old_right.elems()).contains(new_value) {
                            assert(old_right.elems().contains(new_value));
                            assert(nr == old_right);
                        }
                    }
                    assert(t.elems() =~= old_left.elems().union(old_right.elems()).insert(value).insert(new_value));
                    t
                } else {
                    assert(new_value.partial_cmp_spec(&value) == Some(core::cmp::Ordering::Equal));
                    assert(new_value == value);
                    let t = Tree::Node { value, left, right };
                    assert(t.elems() =~= t.elems().insert(new_value));
                    t
                }
            }
        }
    }

    /// Whether `target` is stored in the tree, searching one path from the root.
    pub fn contains(&self, target: &T) -> (b: bool)
        requires
            ordered_type::<T>(),
            self.is_search_tree(),
        ensures
            b == self.elems().contains(*target),
        decreases self,
    {
        proof { reveal(obeys_concrete_eq); reveal(obeys_partial_cmp_spec_properties); }
        match self {
            Tree::Leaf => false,
            Tree::Node { value, left, right } => {
                if target.eq(value) {
                    true
                } else if target < value {
                    assert(below(*target, *value));
                    proof { if (**right).elems().contains(*target) {                         assert(above(*target, *value));                     } }
                    (**left).contains(target)
                } else {
                    assert(*target != *value);
                    assert(!below(*target, *value));
                    proof { if (**left).elems().contains(*target) {                         assert(below(*target, *value));                     } }
                    (**right).contains(target)
                }
            }
        }
    }

    /// The stored values (clones) in increasing order.
    pub fn to_sorted_vec(&self) -> (r: Vec<T>)
        requires
            ordered_type::<T>(),
            self.is_search_tree(),
        ensures
            r@.len() == self.inorder().len(),
            forall|i: int| 0 <= i < r@.len() ==> cloned::<T>(self.inorder()[i], #[trigger] r@[i]),
            strictly_sorted(self.inorder()),
            self.inorder().len() == self.node_count(),
            forall|x: T| self.inorder().contains(x) <==> self.elems().contains(x),
        decreases self,
    {
        proof { lemma_inorder_elems(self); }
        match self {
            Tree::Leaf => Vec::new(),
            Tree::Node { value, left, right } => {
                let mut result = (**left).to_sorted_vec();
                result.push(value.clone());
                let mut rest = (**right).to_sorted_vec();
                result.append(&mut rest);
                proof {
                    reveal(obeys_partial_cmp_spec_properties);
                    let l = (**left).inorder();
                    let rr = (**right).inorder();
                    let s = self.inorder();
                    lemma_inorder_elems(&**left);
                    lemma_inorder_elems(&**right);
                    assert forall|i: int, j: int| 0 <= i < j < s.len() implies below(#[trigger] s[i], #[trigger] s[j]) by {
                        let n: int = l.len() + 0int;
                        if j < n {
                            assert(s[i] == l[i] && s[j] == l[j]);
                        } else if i > n {
                            assert(s[i] == rr[i - n - 1] && s[j] == rr[j - n - 1]);
                        } else if i == n {
                            assert(s[j] == rr[j - n - 1]);
                            assert(rr.contains(s[j]));
                            assert((**right).elems().contains(s[j]));
                            assert(above(s[j], *value));
                        } else if j == n {
                            assert(s[i] == l[i]);
                            assert(l.contains(s[i]));
                            assert((**left).elems().contains(s[i]));
                        } else {
                            assert(s[i] == l[i]);
                            assert(s[j] == rr[j - n - 1]);
                            assert(l.contains(s[i]));
                            assert(rr.contains(s[j]));
                            lemma_order_facts(s[i], *value, s[j]);
                        }
                    }
                    assert forall|i: int| 0 <= i < result@.len() implies cloned::<T>(s[i], #[trigger] result@[i]) by {
                        let n: int = l.len() + 0int;
                        if i < n {
                            assert(s[i] == l[i]);
                        } else if i > n {
                            assert(s[i] == rr[i - n - 1]);
                        }
                    }
                }
                result
            }
        }
    }

    /// The number of stored values.
    pub fn size(&self) -> (n: usize)
        requires
            self.node_count() <= usize::MAX,
        ensures
            n == self.node_count(),
        decreases self,
    {
        match self {
            Tree::Leaf => 0,
            Tree::Node { left, right, .. } => 1 + (**left).size() + (**right).size(),
        }
    }

    /// The length of the longest root-to-leaf path.
    pub fn height(&self) -> (n: usize)
        requires
            self.node_count() <= usize::MAX,
        ensures
            n == self.levels(),
        decreases self,
    {
        proof { lemma_levels_le_count(self); }
        match self {
            Tree::Leaf => 0,
            Tree::Node { left, right, .. } => {
                let l = (**left).height();
                let r = (**right).height();
                1 + if l >= r { l } else { r }
            }
        }
    }
}

proof fn lemma_levels_le_count<T>(t: &Tree<T>)
    ensures
        t.levels() <= t.node_count(),
    decreases t,
{
    match t {
        Tree::Leaf => {}
        Tree::Node { left, right, .. } => {
            lemma_levels_le_count(&**left);
            lemma_levels_le_count(&**right);
        }
    }
}

} // verus!
verus! {

/// A copy of the tree with each value cloned, in the same shape.
fn clone_tree<T: Clone>(t: &Tree<T>) -> (r: Tree<T>)
    ensures
        clones_of(t.inorder(), r.inorder()),
        r.node_count() == t.node_count(),
    decreases t,
{
    match t {
        Tree::Leaf => Tree::Leaf,
        Tree::Node { value, left, right } => {
            let v = value.clone();
            let l = clone_tree(&**left);
            let rr = clone_tree(&**right);
            let r = Tree::Node { value: v, left: Box::new(l), right: Box::new(rr) };
            proof {
                let a = (**left).inorder();
                let b = (**right).inorder();
                let x = l.inorder();
                let y = rr.inorder();
                assert(t.inorder() == a + seq![*value] + b);
                assert(r.inorder() == x + seq![v] + y);
                assert forall|i: int| 0 <= i < r.inorder().len() implies cloned::<T>(t.inorder()[i], #[trigger] r.inorder()[i]) by {
                    if i < a.len() {
                        assert(t.inorder()[i] == a[i] && r.inorder()[i] == x[i]);
                    } else if i == a.len() {
                        assert(t.inorder()[i] == *value && r.inorder()[i] == v);
                    } else {
                        assert(t.inorder()[i] == b[i - a.len() - 1] && r.inorder()[i] == y[i - a.len() - 1]);
                    }
                }
            }
            r
        },
    }
}

impl<T: Clone> Clone for Tree<T> {
    fn clone(&self) -> (r: Self)
        ensures
            clones_of(self.inorder(), r.inorder()),
            r.node_count() == self.node_count(),
    {
        clone_tree(self)
    }
}

} // verus!
