//! The tree of physical operators that an execution context carries, and
//! the re-attachment of record batches to its leaves.

use crate::batch::{clone_groups, groups_view, schema_eq, schemas_agree, Batch};
use arrow::datatypes::Schema;
use std::sync::Arc;
use vstd::prelude::*;

verus! {

/// One operator of a physical plan with the operators that feed it. A node
/// without children is a leaf: a source whose partitions are attached
/// after the plan has travelled.
#[derive(Debug)]
pub struct PhysicalPlan {
    /// The canonical description of the operator.
    pub operator: String,
    /// The schema of what the operator yields.
    pub schema: Arc<Schema>,
    /// The partitions of a leaf; they do not travel with the plan.
    pub partitions: Vec<Vec<Batch>>,
    /// The operators that feed this one.
    pub children: Vec<PhysicalPlan>,
}

/// A plan as a mathematical value.
pub struct PlanView {
    pub operator: Seq<char>,
    pub schema: Schema,
    pub partitions: Seq<Seq<Batch>>,
    pub children: Seq<PlanView>,
}

/// A path from the root of a plan: the index of the child to enter at each
/// step.
pub type Path = Seq<int>;

/// Whether `p` comes no later than `q` among paths of the same length read
/// from left to right.
pub open spec fn lex_le(p: Path, q: Path) -> bool
    decreases p.len(),
{
    p.len() == 0 || q.len() == 0 || p[0] < q[0] || (p[0] == q[0] && lex_le(
        p.drop_first(),
        q.drop_first(),
    ))
}

/// Whether a breadth-first walk from the root reaches `p` no later than
/// `q`: shallower nodes first, and nodes of one depth from left to right.
pub open spec fn bfs_le(p: Path, q: Path) -> bool {
    p.len() < q.len() || (p.len() == q.len() && lex_le(p, q))
}

/// The child among the first `k` whose nearest leaf is nearest, the
/// leftmost of them where several are.
pub open spec fn nearest_child(children: Seq<PlanView>, k: nat) -> nat
    decreases children, k,
{
    if k <= 1 || k > children.len() {
        0
    } else {
        let b = nearest_child(children, (k - 1) as nat);
        if b < children.len() && children[k - 1].first_leaf().len() < children[b as int].first_leaf().len() {
            (k - 1) as nat
        } else {
            b
        }
    }
}

impl PlanView {
    /// The node has no children.
    pub open spec fn is_leaf(self) -> bool {
        self.children.len() == 0
    }

    /// The path leads to a node of the plan.
    pub open spec fn valid(self, path: Path) -> bool
        decreases path.len(),
    {
        path.len() == 0 || (0 <= path[0] < self.children.len() && self.children[path[0]].valid(
            path.drop_first(),
        ))
    }

    /// The node that the path leads to.
    pub open spec fn at(self, path: Path) -> PlanView
        decreases path.len(),
    {
        if path.len() == 0 {
            self
        } else {
            self.children[path[0]].at(path.drop_first())
        }
    }

    /// The path leads to a leaf of the plan.
    pub open spec fn leaf_at(self, path: Path) -> bool {
        self.valid(path) && self.at(path).is_leaf()
    }

    /// The path leads to the leaf that a breadth-first walk reaches first.
    pub open spec fn bfs_first(self, path: Path) -> bool {
        self.leaf_at(path) && forall|q: Path| self.leaf_at(q) ==> bfs_le(path, q)
    }

    /// The plan with `data` as the partitions of the node at `path`.
    pub open spec fn install(self, path: Path, data: Seq<Seq<Batch>>) -> PlanView
        decreases path.len(),
    {
        if path.len() == 0 {
            PlanView {
                operator: self.operator,
                schema: self.schema,
                partitions: data,
                children: self.children,
            }
        } else if 0 <= path[0] < self.children.len() {
            PlanView {
                operator: self.operator,
                schema: self.schema,
                partitions: self.partitions,
                children: self.children.update(
                    path[0],
                    self.children[path[0]].install(path.drop_first(), data),
                ),
            }
        } else {
            self
        }
    }

    /// The path to the leaf that a breadth-first walk reaches first: into
    /// the child whose nearest leaf is nearest, the leftmost such child.
    pub open spec fn first_leaf(self) -> Path
        decreases self, 0nat,
    {
        let i = nearest_child(self.children, self.children.len());
        if i < self.children.len() {
            seq![i as int] + self.children[i as int].first_leaf()
        } else {
            Seq::empty()
        }
    }

    /// What a leaf with this schema holds after two inputs were offered:
    /// the right one if its schema agrees, else the left one if its schema
    /// agrees, else what it held.
    pub open spec fn pick(
        self,
        left: Seq<Seq<Batch>>,
        left_schema: Schema,
        right: Seq<Seq<Batch>>,
        right_schema: Schema,
    ) -> Seq<Seq<Batch>> {
        if schemas_agree(self.schema, right_schema) {
            right
        } else if schemas_agree(self.schema, left_schema) {
            left
        } else {
            self.partitions
        }
    }

    /// The plan after each of its leaves picked between two inputs.
    pub open spec fn feed_two(
        self,
        left: Seq<Seq<Batch>>,
        left_schema: Schema,
        right: Seq<Seq<Batch>>,
        right_schema: Schema,
    ) -> PlanView
        decreases self,
    {
        if self.children.len() == 0 {
            PlanView {
                operator: self.operator,
                schema: self.schema,
                partitions: self.pick(left, left_schema, right, right_schema),
                children: self.children,
            }
        } else {
            PlanView {
                operator: self.operator,
                schema: self.schema,
                partitions: self.partitions,
                children: Seq::new(
                    self.children.len(),
                    |i: int|
                        if 0 <= i < self.children.len() {
                            self.children[i].feed_two(left, left_schema, right, right_schema)
                        } else {
                            self
                        },
                ),
            }
        }
    }

    /// Whether two plans are the same but for the partitions at their
    /// nodes: the same operators with agreeing schemas, child by child.
    pub open spec fn same_shape(self, other: PlanView) -> bool
        decreases self,
    {
        &&& self.operator == other.operator
        &&& schemas_agree(self.schema, other.schema)
        &&& self.children.len() == other.children.len()
        &&& forall|i: int|
            0 <= i < self.children.len() ==> (#[trigger] self.children[i]).same_shape(
                other.children[i],
            )
    }
}

/// The leftmost nearest child lies among the first `k`, no other of them
/// has a nearer leaf, and those to its left have theirs farther away.
pub proof fn lemma_nearest_child(children: Seq<PlanView>, k: nat)
    requires
        1 <= k <= children.len(),
    ensures
        nearest_child(children, k) < k,
        forall|j: int|
            0 <= j < k ==> children[nearest_child(children, k) as int].first_leaf().len() <= (
            #[trigger] children[j]).first_leaf().len(),
        forall|j: int|
            0 <= j < nearest_child(children, k) ==> children[nearest_child(
                children,
                k,
            ) as int].first_leaf().len() < (#[trigger] children[j]).first_leaf().len(),
    decreases k,
{
    if k > 1 {
        lemma_nearest_child(children, (k - 1) as nat);
    }
}

/// The first leaf of a plan is the leaf that a breadth-first walk from the
/// root reaches before every other leaf.
pub proof fn lemma_first_leaf(plan: PlanView)
    ensures
        plan.bfs_first(plan.first_leaf()),
    decreases plan,
{
    let p = plan.first_leaf();
    if plan.children.len() == 0 {
        assert forall|q: Path| plan.leaf_at(q) implies bfs_le(p, q) by {}
    } else {
        let n = plan.children.len();
        lemma_nearest_child(plan.children, n);
        let i = nearest_child(plan.children, n) as int;
        let child = plan.children[i];
        lemma_first_leaf(child);
        assert(p.drop_first() =~= child.first_leaf());
        assert(p[0] == i);
        assert forall|q: Path| plan.leaf_at(q) implies bfs_le(p, q) by {
            assert(q.len() > 0);
            let j = q[0];
            let other = plan.children[j];
            lemma_first_leaf(other);
            assert(other.leaf_at(q.drop_first()));
            assert(bfs_le(other.first_leaf(), q.drop_first()));
            if p.len() == q.len() {
                if j == i {
                    assert(lex_le(child.first_leaf(), q.drop_first()));
                }
            }
        }
    }
}

/// Two leaves that are both reached first are the same leaf.
pub proof fn lemma_bfs_first_unique(plan: PlanView, p: Path, q: Path)
    requires
        plan.bfs_first(p),
        plan.bfs_first(q),
    ensures
        p == q,
{
    assert(bfs_le(p, q) && bfs_le(q, p));
    lemma_lex_antisymmetric(p, q);
}

proof fn lemma_lex_antisymmetric(p: Path, q: Path)
    requires
        p.len() == q.len(),
        lex_le(p, q),
        lex_le(q, p),
    ensures
        p == q,
    decreases p.len(),
{
    if p.len() > 0 {
        lemma_lex_antisymmetric(p.drop_first(), q.drop_first());
        assert(p =~= seq![p[0]] + p.drop_first());
        assert(q =~= seq![q[0]] + q.drop_first());
    } else {
        assert(p =~= q);
    }
}

/// Installing data at a node changes the partitions of that node and
/// nothing else: every path stays valid, and every other node keeps its
/// operator, schema and partitions.
pub proof fn lemma_install(plan: PlanView, path: Path, data: Seq<Seq<Batch>>, q: Path)
    requires
        plan.valid(path),
    ensures
        plan.install(path, data).valid(q) == plan.valid(q),
        plan.valid(q) ==> {
            let before = plan.at(q);
            let after = plan.install(path, data).at(q);
            &&& after.operator == before.operator
            &&& after.schema == before.schema
            &&& after.children.len() == before.children.len()
            &&& after.partitions == if q == path {
                data
            } else {
                before.partitions
            }
        },
    decreases q.len(),
{
    let fed = plan.install(path, data);
    if path.len() == 0 {
        if q.len() > 0 {
            assert(fed.children == plan.children);
        } else {
            assert(q =~= path);
        }
    } else if q.len() > 0 {
        let i = path[0];
        if q[0] == i {
            lemma_install(plan.children[i], path.drop_first(), data, q.drop_first());
            if q.drop_first() == path.drop_first() {
                assert(q =~= seq![q[0]] + q.drop_first());
                assert(path =~= seq![path[0]] + path.drop_first());
            }
        }
    }
}

/// After two inputs were offered, the plan has the nodes it had, and each
/// of its leaves, wherever it stands, holds what it picked by its schema.
pub proof fn lemma_feed_two(
    plan: PlanView,
    left: Seq<Seq<Batch>>,
    left_schema: Schema,
    right: Seq<Seq<Batch>>,
    right_schema: Schema,
    q: Path,
)
    ensures
        plan.feed_two(left, left_schema, right, right_schema).valid(q) == plan.valid(q),
        plan.valid(q) ==> {
            let before = plan.at(q);
            let after = plan.feed_two(left, left_schema, right, right_schema).at(q);
            &&& after.operator == before.operator
            &&& after.schema == before.schema
            &&& after.children.len() == before.children.len()
            &&& after.partitions == if before.is_leaf() {
                before.pick(left, left_schema, right, right_schema)
            } else {
                before.partitions
            }
        },
    decreases q.len(),
{
    if q.len() > 0 && 0 <= q[0] < plan.children.len() {
        lemma_feed_two(plan.children[q[0]], left, left_schema, right, right_schema, q.drop_first());
    }
}

/// A path of child indices as a mathematical value.
pub open spec fn path_view(path: Vec<usize>) -> Path {
    path@.map_values(|i: usize| i as int)
}

impl PhysicalPlan {
    /// The plan as a mathematical value.
    pub open spec fn view(&self) -> PlanView
        decreases self,
    {
        PlanView {
            operator: self.operator@,
            schema: *self.schema,
            partitions: groups_view(self.partitions),
            children: Seq::new(
                self.children.len() as nat,
                |i: int|
                    if 0 <= i < self.children.len() {
                        self.children[i].view()
                    } else {
                        arbitrary()
                    },
            ),
        }
    }

    /// A leaf with the given operator and schema, and no partitions yet.
    pub fn leaf(operator: String, schema: Arc<Schema>) -> (plan: PhysicalPlan)
        ensures
            plan@.operator == operator@,
            plan@.schema == *schema,
            plan@.partitions == Seq::<Seq<Batch>>::empty(),
            plan@.is_leaf(),
    {
        let plan = PhysicalPlan { operator, schema, partitions: Vec::new(), children: Vec::new() };
        assert(plan@.partitions =~= Seq::<Seq<Batch>>::empty());
        plan
    }

    /// Tells whether the node has no children.
    pub fn is_leaf(&self) -> (r: bool)
        ensures
            r == self@.is_leaf(),
    {
        self.children.len() == 0
    }

    /// The path to the leaf that a breadth-first walk from this node
    /// reaches first.
    pub fn first_leaf_path(&self) -> (path: Vec<usize>)
        ensures
            path_view(path) == self@.first_leaf(),
        decreases self,
    {
        let n: usize = self.children.len();
        if n == 0 {
            let path: Vec<usize> = Vec::new();
            assert(path_view(path) =~= self@.first_leaf());
            return path;
        }
        let mut best: Vec<usize> = self.children[0].first_leaf_path();
        let mut best_i: usize = 0;
        let mut k: usize = 1;
        while k < n
            invariant
                1 <= k <= n,
                n == self.children.len(),
                best_i < k,
                best_i == nearest_child(self@.children, k as nat),
                path_view(best) == self@.children[best_i as int].first_leaf(),
            decreases n - k,
        {
            let p = self.children[k].first_leaf_path();
            if p.len() < best.len() {
                best = p;
                best_i = k;
            }
            k = k + 1;
        }
        let ghost tail = path_view(best);
        best.insert(0, best_i);
        assert(path_view(best) =~= seq![best_i as int] + tail);
        best
    }

    /// Makes `data` the partitions of the leaf that `path` leads to from
    /// its position `from` on.
    pub fn replace_leaf_data(&mut self, path: &Vec<usize>, from: usize, data: Vec<Vec<Batch>>)
        requires
            from <= path.len(),
            old(self)@.leaf_at(path_view(*path).skip(from as int)),
        ensures
            final(self)@ == old(self)@.install(
                path_view(*path).skip(from as int),
                groups_view(data),
            ),
        decreases path.len() - from,
    {
        let ghost rest = path_view(*path).skip(from as int);
        if from == path.len() {
            self.partitions = data;
            assert(self@.children =~= old(self)@.children);
        } else {
            let i: usize = path[from];
            assert(rest[0] == i);
            assert(rest.drop_first() =~= path_view(*path).skip(from + 1));
            let ghost child = self.children[i as int]@;
            assert(child == old(self)@.children[i as int]);
            self.children[i].replace_leaf_data(path, from + 1, data);
            assert(self@.children =~= old(self)@.children.update(
                i as int,
                child.install(rest.drop_first(), groups_view(data)),
            ));
        }
    }

    /// Offers two inputs to every leaf below this node: a leaf takes the
    /// right input if its schema agrees with `right_schema`, else the left
    /// input if its schema agrees with `left_schema`, else it keeps what it
    /// holds.
    pub fn feed_two(
        &mut self,
        left: &Vec<Vec<Batch>>,
        left_schema: &Arc<Schema>,
        right: &Vec<Vec<Batch>>,
        right_schema: &Arc<Schema>,
    )
        ensures
            final(self)@ == old(self)@.feed_two(
                groups_view(*left),
                **left_schema,
                groups_view(*right),
                **right_schema,
            ),
        decreases *old(self),
    {
        let n: usize = self.children.len();
        if n == 0 {
            if schema_eq(&self.schema, left_schema) {
                self.partitions = clone_groups(left);
            }
            if schema_eq(&self.schema, right_schema) {
                self.partitions = clone_groups(right);
            }
            assert(self@.children =~= old(self)@.children);
        } else {
            let ghost before = old(self)@;
            let mut k: usize = 0;
            while k < n
                invariant
                    k <= n,
                    n == self.children.len(),
                    n == old(self).children.len(),
                    before == old(self)@,
                    self.operator == old(self).operator,
                    self.schema == old(self).schema,
                    self.partitions == old(self).partitions,
                    forall|j: int|
                        0 <= j < k ==> (#[trigger] self.children[j])@ == before.children[j].feed_two(
                            groups_view(*left),
                            **left_schema,
                            groups_view(*right),
                            **right_schema,
                        ),
                    forall|j: int|
                        k <= j < n ==> #[trigger] self.children[j] == old(self).children[j],
                decreases n - k,
            {
                self.children[k].feed_two(left, left_schema, right, right_schema);
                k = k + 1;
            }
            assert(self@.children =~= before.feed_two(
                groups_view(*left),
                **left_schema,
                groups_view(*right),
                **right_schema,
            ).children);
        }
    }

    /// Tells whether two plans are the same but for the partitions at
    /// their nodes.
    pub fn same_shape(&self, other: &PhysicalPlan) -> (r: bool)
        ensures
            r == self@.same_shape(other@),
        decreases self,
    {
        if !(self.operator == other.operator) || !schema_eq(&self.schema, &other.schema)
            || self.children.len() != other.children.len() {
            return false;
        }
        let n: usize = self.children.len();
        let mut k: usize = 0;
        while k < n
            invariant
                k <= n,
                n == self.children.len(),
                n == other.children.len(),
                forall|j: int|
                    0 <= j < k ==> (#[trigger] self@.children[j]).same_shape(other@.children[j]),
            decreases n - k,
        {
            if !self.children[k].same_shape(&other.children[k]) {
                assert(!self@.children[k as int].same_shape(other@.children[k as int]));
                return false;
            }
            k = k + 1;
        }
        true
    }
}

} // verus!
