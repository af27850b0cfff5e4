use vstd::prelude::*;
use vstd::string::*;

use crate::text::push_char;

verus! {

/// The child that `kids` gives for `c`: the first edge with that key.
pub open spec fn find_key(kids: Seq<(char, usize)>, c: char) -> Option<usize>
    decreases kids.len(),
{
    if kids.len() == 0 {
        None
    } else if kids[0].0 == c {
        Some(kids[0].1)
    } else {
        find_key(kids.drop_first(), c)
    }
}

/// The characters of `s` that the tree can follow from the root, in order
/// (the others are skipped), and the node reached.
pub open spec fn walk(t: Seq<Seq<(char, usize)>>, s: Seq<char>) -> (Seq<char>, int)
    decreases s.len(),
{
    if s.len() == 0 {
        (seq![], 0)
    } else {
        let (b, n) = walk(t, s.drop_last());
        if 0 <= n < t.len() {
            match find_key(t[n], s.last()) {
                Some(m) => (b.push(s.last()), m as int),
                None => (b, n),
            }
        } else {
            (b, n)
        }
    }
}

/// The characters met from node `n` while each node passed has exactly one child.
pub open spec fn extend(t: Seq<Seq<(char, usize)>>, n: int) -> Seq<char>
    decreases t.len() - n,
{
    if 0 <= n < t.len() && t[n].len() == 1 && n < t[n][0].1 < t.len() {
        seq![t[n][0].0] + extend(t, t[n][0].1 as int)
    } else {
        seq![]
    }
}

/// The completion of `s`: `s` itself unless the tree follows all of it, and then
/// `s` followed by the one path that the tree leaves open after it.
pub open spec fn longest_match(t: Seq<Seq<(char, usize)>>, s: Seq<char>) -> Seq<char> {
    let (b, n) = walk(t, s);
    if b.len() < s.len() {
        s
    } else {
        b + extend(t, n)
    }
}

/// The number of characters in all the names together.
pub open spec fn total_len(names: Seq<String>) -> nat
    decreases names.len(),
{
    if names.len() == 0 {
        0
    } else {
        total_len(names.drop_last()) + names.last()@.len()
    }
}

/// Every edge leads to a node that exists and comes after its parent.
pub open spec fn well_linked(t: Seq<Seq<(char, usize)>>) -> bool {
    &&& t.len() >= 1
    &&& forall|n: int, j: int|
        0 <= n < t.len() && 0 <= j < t[n].len() ==> n < #[trigger] t[n][j].1 < t.len()
}

/// `t2` keeps every node and every edge of `t1`.
pub open spec fn extends(t1: Seq<Seq<(char, usize)>>, t2: Seq<Seq<(char, usize)>>) -> bool {
    &&& t1.len() <= t2.len()
    &&& forall|n: int|
        0 <= n < t1.len() ==> t1[n].len() <= #[trigger] t2[n].len() && t2[n].subrange(0, t1[n].len() as int)
            == t1[n]
}

proof fn lemma_extends_refl(t: Seq<Seq<(char, usize)>>)
    ensures
        extends(t, t),
{
    assert forall|n: int| 0 <= n < t.len() implies t[n].len() <= #[trigger] t[n].len() && t[n].subrange(
        0,
        t[n].len() as int,
    ) == t[n] by {
        assert(t[n].subrange(0, t[n].len() as int) =~= t[n]);
    }
}

proof fn lemma_extends_trans(t0: Seq<Seq<(char, usize)>>, t1: Seq<Seq<(char, usize)>>, t2: Seq<Seq<(char, usize)>>)
    requires
        extends(t0, t1),
        extends(t1, t2),
    ensures
        extends(t0, t2),
{
    assert forall|n: int| 0 <= n < t0.len() implies t0[n].len() <= #[trigger] t2[n].len() && t2[n].subrange(
        0,
        t0[n].len() as int,
    ) == t0[n] by {
        assert(t1[n].len() <= t2[n].len());
        assert(t2[n].subrange(0, t1[n].len() as int) == t1[n]);
        assert(t2[n].subrange(0, t0[n].len() as int) =~= t1[n].subrange(0, t0[n].len() as int));
    }
}

proof fn lemma_total_len_prefix(names: Seq<String>, k: int)
    requires
        0 <= k <= names.len(),
    ensures
        total_len(names.take(k)) <= total_len(names),
    decreases names.len(),
{
    if k < names.len() {
        assert(names.drop_last().take(k) =~= names.take(k));
        lemma_total_len_prefix(names.drop_last(), k);
    } else {
        assert(names.take(k) =~= names);
    }
}

proof fn lemma_find_key_prefix(kids: Seq<(char, usize)>, more: Seq<(char, usize)>, c: char)
    requires
        find_key(kids, c) is Some,
        more.subrange(0, kids.len() as int) == kids,
        kids.len() <= more.len(),
    ensures
        find_key(more, c) == find_key(kids, c),
    decreases kids.len(),
{
    assert(more[0] == kids[0]);
    if kids[0].0 != c {
        assert(more.drop_first().subrange(0, kids.drop_first().len() as int) =~= kids.drop_first());
        lemma_find_key_prefix(kids.drop_first(), more.drop_first(), c);
    }
}

proof fn lemma_find_key_push(kids: Seq<(char, usize)>, c: char, m: usize)
    requires
        find_key(kids, c) is None,
    ensures
        find_key(kids.push((c, m)), c) == Some(m),
    decreases kids.len(),
{
    if kids.len() == 0 {
    } else {
        assert(kids.push((c, m)).drop_first() =~= kids.drop_first().push((c, m)));
        lemma_find_key_push(kids.drop_first(), c, m);
    }
}

proof fn lemma_walk_kept(t1: Seq<Seq<(char, usize)>>, t2: Seq<Seq<(char, usize)>>, s: Seq<char>)
    requires
        extends(t1, t2),
        walk(t1, s).0 == s,
        0 <= walk(t1, s).1 < t1.len(),
        well_linked(t1),
    ensures
        walk(t2, s) == walk(t1, s),
    decreases s.len(),
{
    if s.len() > 0 {
        let (b, n) = walk(t1, s.drop_last());
        if !(0 <= n < t1.len()) || find_key(t1[n], s.last()) is None {
            lemma_walk_len(t1, s.drop_last());
            assert(walk(t1, s).0.len() < s.len());
        } else {
            lemma_walk_len(t1, s.drop_last());
            assert(b.push(s.last()) == s);
            assert(b =~= s.drop_last());
            if s.len() > 1 {
                lemma_walk_in_range(t1, s.drop_last());
            }
            lemma_walk_kept(t1, t2, s.drop_last());
            assert(t2[n].subrange(0, t1[n].len() as int) == t1[n]);
            lemma_find_key_prefix(t1[n], t2[n], s.last());
        }
    }
}

proof fn lemma_walk_len(t: Seq<Seq<(char, usize)>>, s: Seq<char>)
    ensures
        walk(t, s).0.len() <= s.len(),
    decreases s.len(),
{
    if s.len() > 0 {
        lemma_walk_len(t, s.drop_last());
    }
}

proof fn lemma_find_key_edge(kids: Seq<(char, usize)>, c: char)
    requires
        find_key(kids, c) is Some,
    ensures
        exists|j: int| 0 <= j < kids.len() && kids[j].1 == find_key(kids, c)->0,
    decreases kids.len(),
{
    if kids[0].0 != c {
        lemma_find_key_edge(kids.drop_first(), c);
        let j = choose|j: int| 0 <= j < kids.drop_first().len() && kids.drop_first()[j].1 == find_key(kids, c)->0;
        assert(kids[j + 1] == kids.drop_first()[j]);
    } else {
        assert(kids[0].1 == find_key(kids, c)->0);
    }
}

proof fn lemma_walk_in_range(t: Seq<Seq<(char, usize)>>, s: Seq<char>)
    requires
        well_linked(t),
    ensures
        0 <= walk(t, s).1 < t.len(),
    decreases s.len(),
{
    if s.len() > 0 {
        lemma_walk_in_range(t, s.drop_last());
        let n = walk(t, s.drop_last()).1;
        if let Some(m) = find_key(t[n], s.last()) {
            lemma_find_key_edge(t[n], s.last());
        }
    }
}

/// One node of the tree: its outgoing edges, each a character and the index
/// of the node it leads to.
pub struct TreeNode {
    children: Vec<(char, usize)>,
}

impl View for TreeNode {
    type V = Seq<(char, usize)>;

    closed spec fn view(&self) -> Seq<(char, usize)> {
        self.children@
    }
}

impl TreeNode {
    pub fn make() -> (r: TreeNode)
        ensures
            r@ == Seq::<(char, usize)>::empty(),
    {
        TreeNode { children: Vec::new() }
    }

    /// Adds an edge labelled `key` to the node at `index`.
    pub fn create_child(&mut self, key: char, index: usize)
        ensures
            final(self)@ == old(self)@.push((key, index)),
    {
        self.children.push((key, index));
    }

    pub fn child_nodes_count(&self) -> (r: usize)
        ensures
            r == self@.len(),
    {
        self.children.len()
    }

    pub fn get_child(&self, key: char) -> (r: Option<usize>)
        ensures
            r == find_key(self@, key),
    {
        let mut i: usize = 0;
        assert(self@.subrange(0, self@.len() as int) =~= self@);
        while i < self.children.len()
            invariant
                i <= self@.len(),
                find_key(self@, key) == find_key(self@.subrange(i as int, self@.len() as int), key),
            decreases self@.len() - i,
        {
            let ghost rest = self@.subrange(i as int, self@.len() as int);
            assert(rest.drop_first() =~= self@.subrange(i + 1, self@.len() as int));
            if self.children[i].0 == key {
                return Some(self.children[i].1);
            }
            i = i + 1;
        }
        None
    }

    /// The edge labels, in the order the edges were made.
    pub fn get_keys(&self) -> (r: Vec<char>)
        ensures
            r@ == self@.map_values(|p: (char, usize)| p.0),
    {
        let mut keys: Vec<char> = Vec::new();
        let mut i: usize = 0;
        while i < self.children.len()
            invariant
                i <= self@.len(),
                keys@ =~= self@.map_values(|p: (char, usize)| p.0).take(i as int),
            decreases self@.len() - i,
        {
            keys.push(self.children[i].0);
            i = i + 1;
        }
        keys
    }
}

/// A prefix tree of file names, for completing a typed word. Node 0 is the root.
pub struct DirPrefixTree {
    nodes: Vec<TreeNode>,
}

impl DirPrefixTree {
    /// The edges of each node, by index.
    pub closed spec fn tree(&self) -> Seq<Seq<(char, usize)>> {
        self.nodes@.map_values(|n: TreeNode| n@)
    }

    pub open spec fn wf(&self) -> bool {
        well_linked(self.tree())
    }

    /// An empty tree: the root alone.
    pub fn make() -> (r: DirPrefixTree)
        ensures
            r.wf(),
            r.tree() == seq![Seq::<(char, usize)>::empty()],
    {
        let mut nodes: Vec<TreeNode> = Vec::new();
        nodes.push(TreeNode::make());
        let r = DirPrefixTree { nodes };
        assert(r.tree() =~= seq![Seq::<(char, usize)>::empty()]);
        r
    }

    /// Adds the path of `value`, creating the nodes it lacks.
    pub fn insert(&mut self, value: &str)
        requires
            old(self).wf(),
        ensures
            final(self).wf(),
            extends(old(self).tree(), final(self).tree()),
            final(self).tree().len() <= old(self).tree().len() + value@.len(),
            old(self).tree().len() + value@.len() < usize::MAX ==> walk(final(self).tree(), value@).0
                == value@,
    {
        let n = value.unicode_len();
        let mut cur: usize = 0;
        proof {
            lemma_extends_refl(self.tree());
            assert(value@.take(0) =~= seq![]);
        }
        let mut i: usize = 0;
        while i < n
            invariant
                n == value@.len(),
                i <= n,
                self.wf(),
                extends(old(self).tree(), self.tree()),
                self.tree().len() <= old(self).tree().len() + i,
                walk(self.tree(), value@.take(i as int)) == (value@.take(i as int), cur as int),
            decreases n - i,
        {
            let c = value.get_char(i);
            let ghost pre = value@.take(i as int);
            assert(value@.take(i + 1).drop_last() =~= pre);
            assert(value@.take(i + 1).last() == c);
            assert(pre.push(c) =~= value@.take(i + 1));
            proof {
                lemma_walk_in_range(self.tree(), pre);
            }
            let found = self.nodes[cur].get_child(c);
            match found {
                Some(m) => {
                    cur = m;
                },
                None => {
                    let ghost t0 = self.tree();
                    if self.nodes.len() == usize::MAX {
                        return;
                    }
                    let fresh = self.nodes.len();
                    self.nodes.push(TreeNode::make());
                    let mut node = TreeNode::make();
                    self.nodes.set_and_swap(cur, &mut node);
                    node.create_child(c, fresh);
                    self.nodes.set_and_swap(cur, &mut node);
                    let ghost t1 = self.tree();
                    assert(t1 =~= t0.push(Seq::<(char, usize)>::empty()).update(
                        cur as int,
                        t0[cur as int].push((c, fresh)),
                    ));
                    assert(extends(t0, t1)) by {
                        assert forall|k: int| 0 <= k < t0.len() implies t0[k].len() <= #[trigger] t1[k].len()
                            && t1[k].subrange(0, t0[k].len() as int) == t0[k] by {
                            assert(t1[k].subrange(0, t0[k].len() as int) =~= t0[k]);
                        }
                    }
                    proof {
                        lemma_extends_trans(old(self).tree(), t0, t1);
                    }
                    assert(well_linked(t1)) by {
                        assert forall|k: int, j: int| 0 <= k < t1.len() && 0 <= j < t1[k].len() implies k
                            < #[trigger] t1[k][j].1 < t1.len() by {
                            if k < t0.len() && j < t0[k].len() {
                                assert(t1[k][j] == t0[k][j]);
                            }
                        }
                    }
                    proof {
                lemma_walk_kept(t0, t1, pre);
            }
                    proof {
                lemma_find_key_push(t0[cur as int], c, fresh);
            }
                    cur = fresh;
                },
            }
            i = i + 1;
        }
        assert(value@.take(n as int) =~= value@);
    }

    /// Adds the given file names, those of the working directory. Each becomes a
    /// path of the tree, unless the tree runs out of node indices.
    pub fn update_to_current_dir(&mut self, file_names: &Vec<String>)
        requires
            old(self).wf(),
        ensures
            final(self).wf(),
            extends(old(self).tree(), final(self).tree()),
            old(self).tree().len() + total_len(file_names@) < usize::MAX ==> forall|j: int|
                0 <= j < file_names@.len() ==> walk(final(self).tree(), #[trigger] file_names@[j]@).0
                    == file_names@[j]@,
    {
        let mut i: usize = 0;
        proof {
            lemma_extends_refl(self.tree());
        }
        while i < file_names.len()
            invariant
                i <= file_names@.len(),
                self.wf(),
                extends(old(self).tree(), self.tree()),
                self.tree().len() <= old(self).tree().len() + total_len(file_names@.take(i as int)),
                old(self).tree().len() + total_len(file_names@) < usize::MAX ==> forall|j: int|
                    0 <= j < i ==> walk(self.tree(), #[trigger] file_names@[j]@).0 == file_names@[j]@,
            decreases file_names@.len() - i,
        {
            let ghost mid = self.tree();
            proof {
                assert(file_names@.take(i + 1).drop_last() =~= file_names@.take(i as int));
                lemma_total_len_prefix(file_names@, i + 1);
            }
            self.insert(file_names[i].as_str());
            proof {
                lemma_extends_trans(old(self).tree(), mid, self.tree());
                if old(self).tree().len() + total_len(file_names@) < usize::MAX {
                    assert forall|j: int| 0 <= j < i + 1 implies walk(
                        self.tree(),
                        #[trigger] file_names@[j]@,
                    ).0 == file_names@[j]@ by {
                        if j < i {
                            lemma_walk_in_range(mid, file_names@[j]@);
                            lemma_walk_kept(mid, self.tree(), file_names@[j]@);
                        }
                    }
                }
            }
            i = i + 1;
        }
    }

    /// Follows the characters of `value` from the root, skipping those the tree
    /// cannot follow. When every character was followed, the match goes on as
    /// long as the node reached has exactly one child; otherwise `value` is
    /// returned as it is.
    pub fn find_longest_match(&self, value: &str) -> (r: String)
        requires
            self.wf(),
        ensures
            r@ == longest_match(self.tree(), value@),
    {
        let t = Ghost(self.tree());
        let mut buf = String::new();
        let mut node: usize = 0;
        let n = value.unicode_len();
        let mut i: usize = 0;
        while i < n
            invariant
                n == value@.len(),
                i <= n,
                self.wf(),
                t@ == self.tree(),
                walk(t@, value@.take(i as int)) == (buf@, node as int),
                0 <= node < t@.len(),
            decreases n - i,
        {
            let key = value.get_char(i);
            let ghost pre = value@.take(i as int);
            assert(value@.take(i + 1).drop_last() =~= pre);
            assert(value@.take(i + 1).last() == key);
            if let Some(next_node) = self.nodes[node].get_child(key) {
                proof {
                lemma_find_key_edge(t@[node as int], key);
            }
                push_char(&mut buf, key);
                node = next_node;
            }
            i = i + 1;
        }
        assert(value@.take(n as int) =~= value@);
        if buf.as_str().unicode_len() < n {
            return value.to_owned();
        }
        let ghost matched = buf@;
        while self.nodes[node].child_nodes_count() == 1
            invariant
                self.wf(),
                t@ == self.tree(),
                0 <= node < t@.len(),
                buf@ + extend(t@, node as int) == matched + extend(t@, walk(t@, value@).1),
            decreases t@.len() - node,
        {
            let keys = self.nodes[node].get_keys();
            let key = keys[0];
            assert(t@[node as int][0].0 == key);
            let next_node = self.nodes[node].get_child(key);
            assert(find_key(t@[node as int], key) == Some(t@[node as int][0].1));
            let next = match next_node {
                Some(m) => m,
                None => node,
            };
            assert(node < t@[node as int][0].1 < t@.len());
            assert(buf@.push(key) + extend(t@, next as int) =~= buf@ + extend(t@, node as int));
            push_char(&mut buf, key);
            node = next;
        }
        assert(extend(t@, node as int) =~= seq![]);
        assert(buf@ =~= buf@ + extend(t@, node as int));
        buf
    }
}

} // verus!
