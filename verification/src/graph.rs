//! Connectivity in a directed graph, read without direction.
//!
//! A graph of `n` nodes is a list of `n` lists: the targets of the edges that
//! leave each node. Two nodes are adjacent if an edge joins them in either
//! direction, and connected if a walk over adjacent nodes leads from one to the
//! other. Connectivity is computed by a breadth-first search, so that cycles
//! do no harm.

use vstd::prelude::*;

verus! {

/// The graph that lists of targets stand for.
pub open spec fn graph_of(lists: Seq<Vec<usize>>) -> Seq<Seq<int>> {
    Seq::new(lists.len(), |a: int| Seq::new(lists[a]@.len(), |k: int| lists[a]@[k] as int))
}

/// Whether an edge leads from `a` to `b`.
pub open spec fn edge(graph: Seq<Seq<int>>, a: int, b: int) -> bool {
    0 <= a < graph.len() && 0 <= b < graph.len() && graph[a].contains(b)
}

/// Whether an edge joins `a` and `b`, in either direction.
pub open spec fn adjacent(graph: Seq<Seq<int>>, a: int, b: int) -> bool {
    edge(graph, a, b) || edge(graph, b, a)
}

/// Whether an edge joins the node at `i` of `chain` and the next one.
pub open spec fn hop(graph: Seq<Seq<int>>, chain: Seq<int>, i: int) -> bool {
    adjacent(graph, chain[i], chain[i + 1])
}

/// Whether `chain` is a walk from `a` to `b`: it starts at `a`, ends at `b`,
/// and an edge joins each of its nodes and the next.
pub open spec fn walks(graph: Seq<Seq<int>>, chain: Seq<int>, a: int, b: int) -> bool {
    &&& chain.len() > 0
    &&& chain[0] == a
    &&& chain[chain.len() - 1] == b
    &&& forall|i: int| 0 <= i < chain.len() - 1 ==> #[trigger] hop(graph, chain, i)
}

/// Whether `a` and `b` are nodes of the graph and some walk leads from `a`
/// to `b`.
pub open spec fn connected(graph: Seq<Seq<int>>, a: int, b: int) -> bool {
    &&& 0 <= a < graph.len()
    &&& 0 <= b < graph.len()
    &&& exists|chain: Seq<int>| walks(graph, chain, a, b)
}

/// Whether some edge leads to `node` from another node.
pub open spec fn has_parent(graph: Seq<Seq<int>>, node: int) -> bool {
    exists|a: int| a != node && #[trigger] edge(graph, a, node)
}

/// Every node is connected to itself.
pub proof fn lemma_connected_reflexive(graph: Seq<Seq<int>>, a: int)
    requires
        0 <= a < graph.len(),
    ensures
        connected(graph, a, a),
{
    assert(walks(graph, seq![a], a, a));
}

/// If `a` is connected to `b`, then `b` is connected to `a`.
pub proof fn lemma_connected_symmetric(graph: Seq<Seq<int>>, a: int, b: int)
    requires
        connected(graph, a, b),
    ensures
        connected(graph, b, a),
{
    let chain = choose|chain: Seq<int>| walks(graph, chain, a, b);
    let back = Seq::new(chain.len(), |i: int| chain[chain.len() - 1 - i]);
    assert forall|i: int| 0 <= i < back.len() - 1 implies #[trigger] hop(graph, back, i) by {
        assert(hop(graph, chain, chain.len() - 2 - i));
    }
    assert(walks(graph, back, b, a));
}

/// If `a` is connected to `b` and `b` to `c`, then `a` is connected to `c`.
pub proof fn lemma_connected_transitive(graph: Seq<Seq<int>>, a: int, b: int, c: int)
    requires
        connected(graph, a, b),
        connected(graph, b, c),
    ensures
        connected(graph, a, c),
{
    let first = choose|chain: Seq<int>| walks(graph, chain, a, b);
    let second = choose|chain: Seq<int>| walks(graph, chain, b, c);
    let whole = first + second.subrange(1, second.len() as int);
    assert forall|i: int| 0 <= i < whole.len() - 1 implies #[trigger] hop(graph, whole, i) by {
        if i < first.len() - 1 {
            assert(hop(graph, first, i));
        } else {
            assert(hop(graph, second, i - (first.len() - 1)));
        }
    }
    assert(walks(graph, whole, a, c));
}

/// A node that is adjacent to a connected node is connected.
pub proof fn lemma_connected_step(graph: Seq<Seq<int>>, a: int, b: int, c: int)
    requires
        connected(graph, a, b),
        adjacent(graph, b, c),
    ensures
        connected(graph, a, c),
{
    let chain = choose|chain: Seq<int>| walks(graph, chain, a, b);
    let longer = chain.push(c);
    assert forall|i: int| 0 <= i < longer.len() - 1 implies #[trigger] hop(graph, longer, i) by {
        if i < chain.len() - 1 {
            assert(hop(graph, chain, i));
        }
    }
    assert(walks(graph, longer, a, c));
}

proof fn lemma_walk_stays(graph: Seq<Seq<int>>, chain: Seq<int>, a: int, i: int)
    requires
        forall|c: int| c != a ==> !#[trigger] adjacent(graph, a, c),
        chain.len() > 0,
        chain[0] == a,
        forall|k: int| 0 <= k < chain.len() - 1 ==> #[trigger] hop(graph, chain, k),
        0 <= i < chain.len(),
    ensures
        chain[i] == a,
    decreases i,
{
    if i > 0 {
        lemma_walk_stays(graph, chain, a, i - 1);
        assert(hop(graph, chain, i - 1));
    }
}

/// A node that no edge joins to another node is connected to itself alone.
pub proof fn lemma_unjoined_is_alone(graph: Seq<Seq<int>>, a: int, b: int)
    requires
        forall|c: int| c != a ==> !#[trigger] adjacent(graph, a, c),
        connected(graph, a, b),
    ensures
        a == b,
{
    let chain = choose|chain: Seq<int>| walks(graph, chain, a, b);
    lemma_walk_stays(graph, chain, a, chain.len() - 1);
}

/// Whether a set of nodes, given as one flag for each node, holds every node
/// that is adjacent to one of its members.
pub open spec fn saturated(graph: Seq<Seq<int>>, marks: Seq<bool>) -> bool {
    forall|a: int, b: int|
        0 <= a < marks.len() && marks[a] && #[trigger] adjacent(graph, a, b) ==> marks[b]
}

/// A saturated set holds every node of a walk that starts at a member.
pub proof fn lemma_saturated_holds_walk(
    graph: Seq<Seq<int>>,
    marks: Seq<bool>,
    chain: Seq<int>,
    upto: int,
)
    requires
        marks.len() == graph.len(),
        saturated(graph, marks),
        0 <= upto < chain.len(),
        0 <= chain[0] < graph.len(),
        marks[chain[0]],
        forall|i: int| 0 <= i < chain.len() - 1 ==> #[trigger] hop(graph, chain, i),
    ensures
        0 <= chain[upto] < graph.len(),
        marks[chain[upto]],
    decreases upto,
{
    if upto > 0 {
        lemma_saturated_holds_walk(graph, marks, chain, upto - 1);
        assert(hop(graph, chain, upto - 1));
    }
}

/// How many of the flags are set.
pub open spec fn count_set(marks: Seq<bool>) -> nat
    decreases marks.len(),
{
    if marks.len() == 0 {
        0
    } else {
        count_set(marks.drop_last()) + if marks.last() {
            1nat
        } else {
            0nat
        }
    }
}

proof fn lemma_count_bound(marks: Seq<bool>)
    ensures
        count_set(marks) <= marks.len(),
    decreases marks.len(),
{
    if marks.len() > 0 {
        lemma_count_bound(marks.drop_last());
    }
}

proof fn lemma_count_none(marks: Seq<bool>)
    requires
        forall|k: int| 0 <= k < marks.len() ==> !marks[k],
    ensures
        count_set(marks) == 0,
    decreases marks.len(),
{
    if marks.len() > 0 {
        lemma_count_none(marks.drop_last());
    }
}

proof fn lemma_count_update(marks: Seq<bool>, at: int)
    requires
        0 <= at < marks.len(),
        !marks[at],
    ensures
        count_set(marks.update(at, true)) == count_set(marks) + 1,
    decreases marks.len(),
{
    let after = marks.update(at, true);
    if at == marks.len() - 1 {
        assert(after.drop_last() =~= marks.drop_last());
    } else {
        lemma_count_update(marks.drop_last(), at);
        assert(after.drop_last() =~= marks.drop_last().update(at, true));
    }
}

/// Whether `list` holds `node`.
pub fn holds(list: &Vec<usize>, node: usize) -> (found: bool)
    ensures
        found == Seq::new(list@.len(), |k: int| list@[k] as int).contains(node as int),
{
    let ghost targets = Seq::new(list@.len(), |k: int| list@[k] as int);
    let mut k: usize = 0;
    while k < list.len()
        invariant
            0 <= k <= list@.len(),
            targets == Seq::new(list@.len(), |k: int| list@[k] as int),
            forall|j: int| 0 <= j < k ==> targets[j] != node,
        decreases list@.len() - k,
    {
        if list[k] == node {
            assert(targets[k as int] == node);
            return true;
        }
        k += 1;
    }
    false
}

/// Whether an edge joins `a` and `b`, in either direction.
pub fn joined(lists: &Vec<Vec<usize>>, a: usize, b: usize) -> (found: bool)
    requires
        a < lists@.len(),
        b < lists@.len(),
    ensures
        found == adjacent(graph_of(lists@), a as int, b as int),
{
    holds(&lists[a], b) || holds(&lists[b], a)
}

/// Whether some edge leads to `node` from another node.
pub fn fed(lists: &Vec<Vec<usize>>, node: usize) -> (found: bool)
    requires
        node < lists@.len(),
    ensures
        found == has_parent(graph_of(lists@), node as int),
{
    let ghost graph = graph_of(lists@);
    let mut a: usize = 0;
    while a < lists.len()
        invariant
            0 <= a <= lists@.len(),
            node < lists@.len(),
            graph == graph_of(lists@),
            forall|j: int| 0 <= j < a && j != node ==> !edge(graph, j, node as int),
        decreases lists@.len() - a,
    {
        if a != node && holds(&lists[a], node) {
            assert(edge(graph, a as int, node as int));
            return true;
        }
        a += 1;
    }
    false
}

/// The nodes below `count` that are connected to `start`, in increasing
/// order.
pub open spec fn members_upto(graph: Seq<Seq<int>>, start: int, count: int) -> Seq<usize>
    decreases count,
{
    if count <= 0 {
        Seq::empty()
    } else {
        let before = members_upto(graph, start, count - 1);
        if connected(graph, start, count - 1) {
            before.push((count - 1) as usize)
        } else {
            before
        }
    }
}

/// The nodes connected to `start`, in increasing order.
pub open spec fn members_of(graph: Seq<Seq<int>>, start: int) -> Seq<usize> {
    members_upto(graph, start, graph.len() as int)
}

/// The nodes below `count` that are connected to `start` are all among
/// `members_upto`.
pub proof fn lemma_members_upto_hold(graph: Seq<Seq<int>>, start: int, count: int, b: int)
    requires
        connected(graph, start, b),
        0 <= b < count <= usize::MAX,
    ensures
        members_upto(graph, start, count).contains(b as usize),
    decreases count,
{
    let before = members_upto(graph, start, count - 1);
    let all = members_upto(graph, start, count);
    if b == count - 1 {
        assert(all[before.len() as int] == b as usize);
    } else {
        lemma_members_upto_hold(graph, start, count - 1, b);
        let at = choose|at: int| 0 <= at < before.len() && before[at] == b as usize;
        assert(all[at] == b as usize);
    }
}

/// The nodes connected to `start`, in increasing order.
pub fn component(lists: &Vec<Vec<usize>>, start: usize) -> (members: Vec<usize>)
    requires
        start < lists@.len(),
    ensures
        forall|j: int, k: int| 0 <= j < k < members@.len() ==> members@[j] < members@[k],
        forall|k: int|
            0 <= k < members@.len() ==> connected(
                graph_of(lists@),
                start as int,
                #[trigger] members@[k] as int,
            ),
        forall|b: int|
            connected(graph_of(lists@), start as int, b) ==> exists|k: int|
                0 <= k < members@.len() && #[trigger] members@[k] == b,
        members@ == members_of(graph_of(lists@), start as int),
{
    let ghost graph = graph_of(lists@);
    let size = lists.len();
    let mut marks: Vec<bool> = Vec::new();
    let mut i: usize = 0;
    while i < size
        invariant
            0 <= i <= size,
            marks@.len() == i,
            forall|k: int| 0 <= k < i ==> !marks@[k],
        decreases size - i,
    {
        marks.push(false);
        i += 1;
    }
    proof {
        lemma_count_none(marks@);
        lemma_count_update(marks@, start as int);
        lemma_connected_reflexive(graph, start as int);
    }
    marks.set(start, true);
    let mut queue: Vec<usize> = Vec::new();
    queue.push(start);
    let mut head: usize = 0;
    assert forall|a: int| 0 <= a < size && marks@[a] implies exists|k: int|
        0 <= k < queue@.len() && #[trigger] queue@[k] == a by {
        assert(queue@[0] == start);
    }
    while head < queue.len()
        invariant
            size == lists@.len(),
            graph == graph_of(lists@),
            start < size,
            marks@.len() == size,
            0 <= head <= queue@.len(),
            queue@.len() == count_set(marks@),
            forall|k: int| 0 <= k < queue@.len() ==> #[trigger] queue@[k] < size,
            forall|k: int| 0 <= k < queue@.len() ==> marks@[#[trigger] queue@[k] as int],
            forall|a: int|
                0 <= a < size && marks@[a] ==> exists|k: int|
                    0 <= k < queue@.len() && #[trigger] queue@[k] == a,
            forall|k: int|
                0 <= k < queue@.len() ==> connected(graph, start as int, #[trigger] queue@[k] as int),
            forall|k: int, b: int|
                0 <= k < head && #[trigger] adjacent(graph, #[trigger] queue@[k] as int, b)
                    ==> marks@[b],
            marks@[start as int],
        decreases size - head,
    {
        proof {
            lemma_count_bound(marks@);
        }
        let node = queue[head];
        let mut other: usize = 0;
        while other < size
            invariant
                size == lists@.len(),
                graph == graph_of(lists@),
                start < size,
                marks@.len() == size,
                0 <= head < queue@.len(),
                node == queue@[head as int],
                node < size,
                0 <= other <= size,
                queue@.len() == count_set(marks@),
                forall|k: int| 0 <= k < queue@.len() ==> #[trigger] queue@[k] < size,
                forall|k: int| 0 <= k < queue@.len() ==> marks@[#[trigger] queue@[k] as int],
                forall|a: int|
                    0 <= a < size && marks@[a] ==> exists|k: int|
                        0 <= k < queue@.len() && #[trigger] queue@[k] == a,
                forall|k: int|
                    0 <= k < queue@.len() ==> connected(
                        graph,
                        start as int,
                        #[trigger] queue@[k] as int,
                    ),
                forall|k: int, b: int|
                    0 <= k < head && #[trigger] adjacent(graph, #[trigger] queue@[k] as int, b)
                        ==> marks@[b],
                forall|b: int| 0 <= b < other && adjacent(graph, node as int, b) ==> marks@[b],
                marks@[start as int],
            decreases size - other,
        {
            if !marks[other] && joined(lists, node, other) {
                let ghost old_marks = marks@;
                let ghost old_queue = queue@;
                proof {
                    lemma_count_update(marks@, other as int);
                    lemma_connected_step(graph, start as int, node as int, other as int);
                }
                marks.set(other, true);
                queue.push(other);
                assert forall|a: int| 0 <= a < size && marks@[a] implies exists|k: int|
                    0 <= k < queue@.len() && #[trigger] queue@[k] == a by {
                    if a == other {
                        assert(queue@[old_queue.len() as int] == a);
                    } else {
                        let k = choose|k: int| 0 <= k < old_queue.len() && old_queue[k] == a;
                        assert(queue@[k] == a);
                    }
                }
            }
            other += 1;
        }
        assert forall|k: int, b: int|
            0 <= k < head + 1 && #[trigger] adjacent(
                graph,
                #[trigger] queue@[k] as int,
                b,
            ) implies marks@[b] by {
            if k == head {
                assert(0 <= b < size);
            }
        }
        head += 1;
    }
    proof {
        assert forall|a: int, b: int|
            0 <= a < marks@.len() && marks@[a] && #[trigger] adjacent(graph, a, b) implies marks@[b] by {
            let k = choose|k: int| 0 <= k < queue@.len() && #[trigger] queue@[k] == a;
            assert(adjacent(graph, queue@[k] as int, b));
        }
        assert(saturated(graph, marks@));
    }
    proof {
        assert forall|a: int| 0 <= a < size implies (marks@[a] <==> connected(
            graph,
            start as int,
            a,
        )) by {
            if marks@[a] {
                let at = choose|at: int| 0 <= at < queue@.len() && #[trigger] queue@[at] == a;
            }
            if connected(graph, start as int, a) {
                let chain = choose|chain: Seq<int>| walks(graph, chain, start as int, a);
                lemma_saturated_holds_walk(graph, marks@, chain, chain.len() - 1);
            }
        }
    }
    let mut members: Vec<usize> = Vec::new();
    let mut node: usize = 0;
    while node < size
        invariant
            size == lists@.len(),
            graph == graph_of(lists@),
            marks@.len() == size,
            0 <= node <= size,
            forall|a: int| 0 <= a < size ==> (marks@[a] <==> connected(graph, start as int, a)),
            members@ == members_upto(graph, start as int, node as int),
            forall|k: int| 0 <= k < members@.len() ==> #[trigger] members@[k] < node,
            forall|j: int, k: int| 0 <= j < k < members@.len() ==> members@[j] < members@[k],
            forall|k: int| 0 <= k < members@.len() ==> marks@[#[trigger] members@[k] as int],
            forall|a: int|
                0 <= a < node && marks@[a] ==> exists|k: int|
                    0 <= k < members@.len() && #[trigger] members@[k] == a,
        decreases size - node,
    {
        if marks[node] {
            let ghost old_members = members@;
            members.push(node);
            assert forall|a: int| 0 <= a < node + 1 && marks@[a] implies exists|k: int|
                0 <= k < members@.len() && #[trigger] members@[k] == a by {
                if a == node {
                    assert(members@[old_members.len() as int] == a);
                } else {
                    let k = choose|k: int| 0 <= k < old_members.len() && old_members[k] == a;
                    assert(members@[k] == a);
                }
            }
        }
        node += 1;
    }
    proof {
        assert forall|b: int| connected(graph, start as int, b) implies exists|k: int|
            0 <= k < members@.len() && #[trigger] members@[k] == b by {
            assert(marks@[b]);
        }
    }
    members
}

/// The offsets at which nodes declare a document class, as plain values.
pub open spec fn classes_of(classes: Seq<Option<usize>>) -> Seq<Option<int>> {
    Seq::new(
        classes.len(),
        |a: int|
            match classes[a] {
                Some(offset) => Some(offset as int),
                None => None,
            },
    )
}

/// Whether `node` is the one node connected to `start` that no other node
/// points to.
pub open spec fn sole_orphan(graph: Seq<Seq<int>>, start: int, node: int) -> bool {
    &&& connected(graph, start, node)
    &&& !has_parent(graph, node)
    &&& forall|other: int|
        #[trigger] connected(graph, start, other) && !has_parent(graph, other) ==> other == node
}

/// Whether `a` declares a document class, and no later than `b` does: nearer
/// to the top of its text, or as near and with the lower index.
pub open spec fn declares_before(classes: Seq<Option<int>>, a: int, b: int) -> bool {
    &&& classes[a] is Some
    &&& classes[b] is Some ==> classes[a]->0 < classes[b]->0 || (classes[a]->0 == classes[b]->0 && a
        <= b)
}

/// Whether `node` is, of the nodes connected to `start`, the one that declares
/// a document class nearest to the top of its text.
pub open spec fn first_class(
    graph: Seq<Seq<int>>,
    classes: Seq<Option<int>>,
    start: int,
    node: int,
) -> bool {
    &&& connected(graph, start, node)
    &&& forall|other: int|
        #[trigger] connected(graph, start, other) ==> declares_before(classes, node, other)
}

/// Whether `node` is the root of the nodes connected to `start`: the only one
/// of them that no other node points to; failing that, the one that declares
/// a document class nearest to its top; failing that, `start` itself.
pub open spec fn is_root(
    graph: Seq<Seq<int>>,
    classes: Seq<Option<int>>,
    start: int,
    node: int,
) -> bool {
    if exists|any: int| sole_orphan(graph, start, any) {
        sole_orphan(graph, start, node)
    } else if exists|any: int| first_class(graph, classes, start, any) {
        first_class(graph, classes, start, node)
    } else {
        node == start
    }
}

/// A root is connected to the node it is the root for.
pub proof fn lemma_root_connected(
    graph: Seq<Seq<int>>,
    classes: Seq<Option<int>>,
    start: int,
    node: int,
)
    requires
        0 <= start < graph.len(),
        is_root(graph, classes, start, node),
    ensures
        connected(graph, start, node),
{
    lemma_connected_reflexive(graph, start);
}

/// There is at most one root.
pub proof fn lemma_root_unique(
    graph: Seq<Seq<int>>,
    classes: Seq<Option<int>>,
    start: int,
    a: int,
    b: int,
)
    requires
        is_root(graph, classes, start, a),
        is_root(graph, classes, start, b),
    ensures
        a == b,
{
    if exists|any: int| sole_orphan(graph, start, any) {
    } else if exists|any: int| first_class(graph, classes, start, any) {
        assert(declares_before(classes, a, b));
        assert(declares_before(classes, b, a));
    }
}

/// The root of the nodes connected to `start`.
pub fn root(lists: &Vec<Vec<usize>>, classes: &Vec<Option<usize>>, start: usize) -> (node: usize)
    requires
        start < lists@.len(),
        classes@.len() == lists@.len(),
    ensures
        node < lists@.len(),
        is_root(graph_of(lists@), classes_of(classes@), start as int, node as int),
        connected(graph_of(lists@), start as int, node as int),
{
    let ghost graph = graph_of(lists@);
    let ghost declared = classes_of(classes@);
    let members = component(lists, start);
    proof {
        lemma_connected_reflexive(graph, start as int);
    }
    let mut found: Option<usize> = None;
    let mut many: bool = false;
    let ghost mut one: int = 0;
    let ghost mut two: int = 0;
    let mut k: usize = 0;
    while k < members.len()
        invariant
            graph == graph_of(lists@),
            start < lists@.len(),
            0 <= k <= members@.len(),
            forall|j: int|
                0 <= j < members@.len() ==> connected(graph, start as int, #[trigger] members@[j] as int),
            many ==> one != two && connected(graph, start as int, one) && !has_parent(graph, one)
                && connected(graph, start as int, two) && !has_parent(graph, two),
            !many ==> match found {
                Some(m) => {
                    &&& connected(graph, start as int, m as int)
                    &&& !has_parent(graph, m as int)
                    &&& forall|j: int|
                        0 <= j < k && #[trigger] members@[j] != m ==> has_parent(graph, members@[j] as int)
                },
                None => forall|j: int|
                    0 <= j < k ==> has_parent(graph, #[trigger] members@[j] as int),
            },
        decreases members@.len() - k,
    {
        let member = members[k];
        assert(connected(graph, start as int, members@[k as int] as int));
        if !many {
            if !fed(lists, member) {
                match found {
                    None => {
                        found = Some(member);
                    },
                    Some(first) => {
                        if first != member {
                            many = true;
                            proof {
                                one = first as int;
                                two = member as int;
                            }
                        }
                    },
                }
            }
        }
        k += 1;
    }
    if !many {
        match found {
            Some(m) => {
                proof {
                    assert forall|other: int|
                        #[trigger] connected(graph, start as int, other) && !has_parent(
                            graph,
                            other,
                        ) implies other == m by {
                        let j = choose|j: int| 0 <= j < members@.len() && #[trigger] members@[j] == other;
                    }
                    assert(sole_orphan(graph, start as int, m as int));
                }
                return m;
            },
            None => {},
        }
    }
    proof {
        assert forall|any: int| !sole_orphan(graph, start as int, any) by {
            if sole_orphan(graph, start as int, any) {
                if many {
                    assert(connected(graph, start as int, one));
                    assert(connected(graph, start as int, two));
                } else {
                    let j = choose|j: int| 0 <= j < members@.len() && #[trigger] members@[j] == any;
                    assert(has_parent(graph, members@[j] as int));
                }
            }
        }
    }
    let mut best: Option<usize> = None;
    let mut i: usize = 0;
    while i < members.len()
        invariant
            graph == graph_of(lists@),
            declared == classes_of(classes@),
            start < lists@.len(),
            classes@.len() == lists@.len(),
            0 <= i <= members@.len(),
            forall|j: int|
                0 <= j < members@.len() ==> connected(graph, start as int, #[trigger] members@[j] as int),
            match best {
                Some(b) => {
                    &&& connected(graph, start as int, b as int)
                    &&& declared[b as int] is Some
                    &&& forall|j: int|
                        0 <= j < i ==> declares_before(declared, b as int, #[trigger] members@[j] as int)
                },
                None => forall|j: int| 0 <= j < i ==> declared[#[trigger] members@[j] as int] is None,
            },
            forall|j: int, l: int| 0 <= j < l < members@.len() ==> members@[j] < members@[l],
        decreases members@.len() - i,
    {
        let member = members[i];
        assert(connected(graph, start as int, members@[i as int] as int));
        assert(declared[member as int] == match classes@[member as int] {
            Some(offset) => Some(offset as int),
            None => None::<int>,
        });
        match classes[member] {
            Some(offset) => {
                match best {
                    None => {
                        best = Some(member);
                    },
                    Some(b) => {
                        assert(declared[b as int] == match classes@[b as int] {
                            Some(offset) => Some(offset as int),
                            None => None::<int>,
                        });
                        match classes[b] {
                            Some(held) => {
                                if offset < held || (offset == held && member < b) {
                                    best = Some(member);
                                }
                            },
                            None => {},
                        }
                    },
                }
            },
            None => {},
        }
        i += 1;
    }
    match best {
        Some(b) => {
            proof {
                assert forall|other: int| #[trigger]
                    connected(graph, start as int, other) implies declares_before(
                    declared,
                    b as int,
                    other,
                ) by {
                    let j = choose|j: int| 0 <= j < members@.len() && #[trigger] members@[j] == other;
                    assert(declares_before(declared, b as int, members@[j] as int));
                }
                assert(first_class(graph, declared, start as int, b as int));
            }
            b
        },
        None => {
            proof {
                assert forall|any: int| !first_class(graph, declared, start as int, any) by {
                    if first_class(graph, declared, start as int, any) {
                        let j = choose|j: int| 0 <= j < members@.len() && #[trigger] members@[j] == any;
                        assert(declared[members@[j] as int] is None);
                        assert(declares_before(declared, any, any));
                    }
                }
            }
            start
        },
    }
}

} // verus!
