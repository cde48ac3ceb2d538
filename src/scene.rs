use vstd::prelude::*;

use crate::color::{replace_color, resolved_color, ColorCode, CURRENT_COLOR};
use crate::model::{is_leaf_file, ref_target, Command, FileTable, SubFileRef};

verus! {

/// A node of the scene tree. The transform is the handle of the placement
/// matrix of the reference that created the node (`None` for the root, whose
/// transform is the identity); it is the node's own local placement, never
/// combined with its parent's.
pub struct LDrawNode {
    pub name: String,
    pub transform: Option<usize>,
    /// The name of the geometry built for this node, or `None` for a node
    /// that only groups its children.
    pub geometry_name: Option<String>,
    /// The color resolved for this node.
    pub current_color: ColorCode,
    pub children: Vec<LDrawNode>,
}

/// What geometry to build for one file: the file, the color baked into it
/// (the inherit sentinel defers the color to each instance), and whether the
/// build pulls in the geometry of referenced primitives.
#[derive(Clone, Copy, Debug, PartialEq, Eq, Structural)]
pub struct GeometryInitDescriptor {
    pub file: usize,
    pub current_color: ColorCode,
    pub recursive: bool,
}

/// The geometry work of one load, one slot per file of the table: each file
/// is built at most once, whatever colors it is used in.
pub struct GeometryDescriptors {
    pub slots: Vec<Option<GeometryInitDescriptor>>,
}

/// A resolved scene: its root node and the geometries that its leaves use.
pub struct LDrawScene {
    pub root_node: LDrawNode,
    pub geometry_descriptors: GeometryDescriptors,
}

/// The descriptor registered for a leaf file: shared by all colors, with the
/// referenced primitives pulled in. A file that draws faces of its own is a
/// leaf exactly as a part is, and takes this same descriptor: no leaf is
/// built in the color of the context that reached it first, so the geometry
/// of a file never depends on where the walk met it.
pub open spec fn leaf_descriptor(f: usize) -> GeometryInitDescriptor {
    GeometryInitDescriptor { file: f, current_color: CURRENT_COLOR, recursive: true }
}

/// The reference carried by a command (only meaningful for a reference).
pub open spec fn sub_ref(c: Command) -> SubFileRef {
    match c {
        Command::SubFileRef(r) => r,
        _ => SubFileRef { target: None, color: 0, matrix: 0 },
    }
}

pub open spec fn opt_name(o: Option<String>) -> Option<Seq<char>> {
    match o {
        Some(s) => Some(s@),
        None => None,
    }
}

/// `n` is the node that the walk builds for file `f`, placed by `transform`
/// and resolved to `color`, with `fuel` levels of references left to follow.
pub open spec fn node_matches(
    t: FileTable,
    f: int,
    transform: Option<usize>,
    color: ColorCode,
    fuel: nat,
    n: LDrawNode,
) -> bool
    decreases fuel, 0nat, 0nat,
{
    &&& n.name@ == t.file(f).name@
    &&& n.transform == transform
    &&& n.current_color == color
    &&& if is_leaf_file(t.file(f)) {
        opt_name(n.geometry_name) == Some(t.file(f).name@) && n.children@.len() == 0
    } else {
        &&& n.geometry_name is None
        &&& if fuel == 0 {
            n.children@.len() == 0
        } else {
            children_match(t, t.file(f).cmds@, color, (fuel - 1) as nat, n.children@)
        }
    }
}

/// `kids` are the nodes built, in order, for the references of `cmds` that
/// point to a loaded file, under a parent resolved to `color`.
pub open spec fn children_match(
    t: FileTable,
    cmds: Seq<Command>,
    color: ColorCode,
    fuel: nat,
    kids: Seq<LDrawNode>,
) -> bool
    decreases fuel, 1nat, cmds.len(),
{
    if cmds.len() == 0 {
        kids.len() == 0
    } else {
        let c = cmds.last();
        match ref_target(c) {
            Some(tg) => {
                &&& kids.len() > 0
                &&& children_match(t, cmds.drop_last(), color, fuel, kids.drop_last())
                &&& node_matches(
                    t,
                    tg as int,
                    Some(sub_ref(c).matrix),
                    resolved_color(sub_ref(c).color, color),
                    fuel,
                    kids.last(),
                )
            },
            None => children_match(t, cmds.drop_last(), color, fuel, kids),
        }
    }
}

/// The leaf files that the walk from file `f` reaches, in walk order.
pub open spec fn leaves(t: FileTable, f: int, fuel: nat) -> Seq<usize>
    decreases fuel, 0nat, 0nat,
{
    if is_leaf_file(t.file(f)) {
        seq![f as usize]
    } else if fuel == 0 {
        Seq::empty()
    } else {
        leaves_cmds(t, t.file(f).cmds@, (fuel - 1) as nat)
    }
}

/// The leaf files reached through the references of `cmds`, in walk order.
pub open spec fn leaves_cmds(t: FileTable, cmds: Seq<Command>, fuel: nat) -> Seq<usize>
    decreases fuel, 1nat, cmds.len(),
{
    if cmds.len() == 0 {
        Seq::empty()
    } else {
        match ref_target(cmds.last()) {
            Some(tg) => leaves_cmds(t, cmds.drop_last(), fuel) + leaves(t, tg as int, fuel),
            None => leaves_cmds(t, cmds.drop_last(), fuel),
        }
    }
}

/// The slots after registering the leaf files `files` in order: the first
/// registration of a file wins, later ones leave it as it is.
pub open spec fn register(
    slots: Seq<Option<GeometryInitDescriptor>>,
    files: Seq<usize>,
) -> Seq<Option<GeometryInitDescriptor>>
    decreases files.len(),
{
    if files.len() == 0 {
        slots
    } else {
        let s = register(slots, files.drop_last());
        let k = files.last();
        if k < s.len() && s[k as int] is None {
            s.update(k as int, Some(leaf_descriptor(k)))
        } else {
            s
        }
    }
}

pub proof fn lemma_register_len(slots: Seq<Option<GeometryInitDescriptor>>, files: Seq<usize>)
    ensures
        register(slots, files).len() == slots.len(),
    decreases files.len(),
{
    if files.len() > 0 {
        lemma_register_len(slots, files.drop_last());
    }
}

pub proof fn lemma_register_append(
    slots: Seq<Option<GeometryInitDescriptor>>,
    a: Seq<usize>,
    b: Seq<usize>,
)
    ensures
        register(slots, a + b) == register(register(slots, a), b),
    decreases b.len(),
{
    if b.len() == 0 {
        assert(a + b =~= a);
    } else {
        assert((a + b).drop_last() =~= a + b.drop_last());
        lemma_register_append(slots, a, b.drop_last());
    }
}

impl GeometryDescriptors {
    /// No geometry registered yet, for a table of `n` files.
    pub fn new(n: usize) -> (r: GeometryDescriptors)
        ensures
            r.slots@.len() == n,
            forall|k: int| 0 <= k < n ==> r.slots@[k] is None,
    {
        let mut slots: Vec<Option<GeometryInitDescriptor>> = Vec::new();
        let mut i: usize = 0;
        while i < n
            invariant
                i <= n,
                slots@.len() == i,
                forall|k: int| 0 <= k < i ==> slots@[k] is None,
            decreases n - i,
        {
            slots.push(None);
            i = i + 1;
        }
        GeometryDescriptors { slots }
    }

    /// Registers leaf file `f` unless it already has a descriptor.
    pub fn register_leaf(&mut self, f: usize)
        ensures
            final(self).slots@ == register(old(self).slots@, seq![f]),
    {
        let ghost s0 = self.slots@;
        assert(seq![f].drop_last() =~= Seq::<usize>::empty());
        assert(register(s0, seq![f].drop_last()) == s0);
        if f < self.slots.len() {
            if self.slots[f].is_none() {
                self.slots.set(f, Some(GeometryInitDescriptor {
                    file: f,
                    current_color: CURRENT_COLOR,
                    recursive: true,
                }));
            }
        }
    }
}

/// Builds the node for file `f`: a leaf registers its geometry and ends the
/// walk; any other file gets one child per reference to a loaded file, each
/// placed by the reference's own matrix and resolved by color inheritance.
pub fn load_node(
    t: &FileTable,
    f: usize,
    transform: Option<usize>,
    color: ColorCode,
    fuel: usize,
    descriptors: &mut GeometryDescriptors,
) -> (n: LDrawNode)
    requires
        t.wf(),
        f < t.len(),
    ensures
        node_matches(*t, f as int, transform, color, fuel as nat, n),
        final(descriptors).slots@ == register(old(descriptors).slots@, leaves(*t, f as int, fuel as nat)),
    decreases fuel,
{
    let file = &t.files[f];
    let name = file.name.clone();
    if t.is_geometry_leaf(f) {
        descriptors.register_leaf(f);
        return LDrawNode {
            name,
            transform,
            geometry_name: Some(file.name.clone()),
            current_color: color,
            children: Vec::new(),
        };
    }
    let mut children: Vec<LDrawNode> = Vec::new();
    if fuel > 0 {
        let ghost s0 = descriptors.slots@;
        let ghost cmds = file.cmds@;
        let mut i: usize = 0;
        assert(cmds.take(0) =~= Seq::<Command>::empty());
        while i < file.cmds.len()
            invariant
                t.wf(),
                f < t.len(),
                fuel > 0,
                file == t.file(f as int),
                cmds == file.cmds@,
                i <= cmds.len(),
                children_match(*t, cmds.take(i as int), color, (fuel - 1) as nat, children@),
                descriptors.slots@ == register(
                    s0,
                    leaves_cmds(*t, cmds.take(i as int), (fuel - 1) as nat),
                ),
            decreases cmds.len() - i,
        {
            let c = file.cmds[i];
            assert(cmds.take(i + 1).drop_last() =~= cmds.take(i as int));
            assert(cmds.take(i + 1).last() == c);
            if let Command::SubFileRef(r) = c {
                if let Some(tg) = r.target {
                    assert(tg < t.len());
                    let child_color = replace_color(r.color, color);
                    let child = load_node(t, tg, Some(r.matrix), child_color, fuel - 1, descriptors);
                    proof {
                        lemma_register_append(
                            s0,
                            leaves_cmds(*t, cmds.take(i as int), (fuel - 1) as nat),
                            leaves(*t, tg as int, (fuel - 1) as nat),
                        );
                    }
                    let ghost kids = children@;
                    children.push(child);
                    assert(children@.drop_last() =~= kids);
                }
            }
            i = i + 1;
        }
        assert(cmds.take(cmds.len() as int) =~= cmds);
    } else {
        assert(leaves(*t, f as int, fuel as nat) =~= Seq::<usize>::empty());
    }
    LDrawNode { name, transform, geometry_name: None, current_color: color, children }
}

} // verus!

verus! {

/// Walks the model from file `root` (resolved to the inherit sentinel, placed
/// at the identity) and collects the geometry that its leaves need.
pub fn load_scene(t: &FileTable, root: usize) -> (r: LDrawScene)
    requires
        t.wf(),
        root < t.len(),
    ensures
        node_matches(*t, root as int, None, CURRENT_COLOR, t.len(), r.root_node),
        r.geometry_descriptors.slots@ == register(
            Seq::new(t.len(), |k: int| None),
            leaves(*t, root as int, t.len()),
        ),
{
    let mut descriptors = GeometryDescriptors::new(t.files.len());
    assert(descriptors.slots@ =~= Seq::new(t.len(), |k: int| None::<GeometryInitDescriptor>));
    let root_node = load_node(t, root, None, CURRENT_COLOR, t.files.len(), &mut descriptors);
    LDrawScene { root_node, geometry_descriptors: descriptors }
}

} // verus!

verus! {

/// The number of commands of `cmds` that reference a loaded file: the
/// position, among a node's children, of the child of the next reference.
pub open spec fn ref_count(cmds: Seq<Command>) -> nat
    decreases cmds.len(),
{
    if cmds.len() == 0 {
        0
    } else if ref_target(cmds.last()) is Some {
        ref_count(cmds.drop_last()) + 1
    } else {
        ref_count(cmds.drop_last())
    }
}

proof fn lemma_child_of_ref(
    t: FileTable,
    cmds: Seq<Command>,
    color: ColorCode,
    fuel: nat,
    kids: Seq<LDrawNode>,
    i: int,
)
    requires
        children_match(t, cmds, color, fuel, kids),
        0 <= i < cmds.len(),
        ref_target(cmds[i]) is Some,
    ensures
        kids.len() == ref_count(cmds),
        ref_count(cmds.take(i)) < kids.len(),
        node_matches(
            t,
            ref_target(cmds[i])->Some_0 as int,
            Some(sub_ref(cmds[i]).matrix),
            resolved_color(sub_ref(cmds[i]).color, color),
            fuel,
            kids[ref_count(cmds.take(i)) as int],
        ),
    decreases cmds.len(),
{
    lemma_children_len(t, cmds, color, fuel, kids);
    if i == cmds.len() - 1 {
        assert(cmds.take(i) =~= cmds.drop_last());
    } else {
        assert(cmds.drop_last().take(i) =~= cmds.take(i));
        if ref_target(cmds.last()) is Some {
            lemma_child_of_ref(t, cmds.drop_last(), color, fuel, kids.drop_last(), i);
        } else {
            lemma_child_of_ref(t, cmds.drop_last(), color, fuel, kids, i);
        }
    }
}

proof fn lemma_children_len(
    t: FileTable,
    cmds: Seq<Command>,
    color: ColorCode,
    fuel: nat,
    kids: Seq<LDrawNode>,
)
    requires
        children_match(t, cmds, color, fuel, kids),
    ensures
        kids.len() == ref_count(cmds),
    decreases cmds.len(),
{
    if cmds.len() > 0 {
        if ref_target(cmds.last()) is Some {
            lemma_children_len(t, cmds.drop_last(), color, fuel, kids.drop_last());
        } else {
            lemma_children_len(t, cmds.drop_last(), color, fuel, kids);
        }
    }
}

/// Color inheritance and local placement in the scene tree. In a grouping
/// node resolved to `color`, the child built for the `i`-th command, a
/// reference to a loaded file, is resolved to `color` when the reference
/// states the inherit sentinel and to the stated color otherwise, whatever
/// `color` is; its transform is the reference's own matrix, not combined
/// with any ancestor's. Applied at each level, a stated color becomes the
/// color that every sentinel reference below it resolves to.
pub proof fn lemma_color_inheritance(
    t: FileTable,
    f: int,
    transform: Option<usize>,
    color: ColorCode,
    fuel: nat,
    n: LDrawNode,
    i: int,
)
    requires
        node_matches(t, f, transform, color, fuel, n),
        !is_leaf_file(t.file(f)),
        fuel > 0,
        0 <= i < t.file(f).cmds@.len(),
        ref_target(t.file(f).cmds@[i]) is Some,
    ensures
        ({
            let r = sub_ref(t.file(f).cmds@[i]);
            let child = n.children@[ref_count(t.file(f).cmds@.take(i)) as int];
            &&& ref_count(t.file(f).cmds@.take(i)) < n.children@.len()
            &&& r.color == CURRENT_COLOR ==> child.current_color == color
            &&& r.color != CURRENT_COLOR ==> child.current_color == r.color
            &&& child.transform == Some(r.matrix)
            &&& node_matches(
                t,
                r.target->Some_0 as int,
                Some(r.matrix),
                resolved_color(r.color, color),
                (fuel - 1) as nat,
                child,
            )
        }),
{
    lemma_child_of_ref(t, t.file(f).cmds@, color, (fuel - 1) as nat, n.children@, i);
}

/// Structural equality of two scene trees, down to `depth` levels.
pub open spec fn same_tree(a: LDrawNode, b: LDrawNode, depth: nat) -> bool
    decreases depth,
{
    &&& a.name@ == b.name@
    &&& a.transform == b.transform
    &&& opt_name(a.geometry_name) == opt_name(b.geometry_name)
    &&& a.current_color == b.current_color
    &&& a.children@.len() == b.children@.len()
    &&& depth > 0 ==> forall|j: int|
        0 <= j < a.children@.len() ==> same_tree(
            #[trigger] a.children@[j],
            b.children@[j],
            (depth - 1) as nat,
        )
}

/// Determinism of the scene tree: two nodes built for the same file,
/// placement, color and depth of walk are structurally identical.
pub proof fn lemma_tree_deterministic(
    t: FileTable,
    f: int,
    transform: Option<usize>,
    color: ColorCode,
    fuel: nat,
    a: LDrawNode,
    b: LDrawNode,
)
    requires
        node_matches(t, f, transform, color, fuel, a),
        node_matches(t, f, transform, color, fuel, b),
    ensures
        same_tree(a, b, fuel),
    decreases fuel, 0nat, 0nat,
{
    if !is_leaf_file(t.file(f)) && fuel > 0 {
        lemma_children_deterministic(
            t,
            t.file(f).cmds@,
            color,
            (fuel - 1) as nat,
            a.children@,
            b.children@,
        );
    }
}

proof fn lemma_children_deterministic(
    t: FileTable,
    cmds: Seq<Command>,
    color: ColorCode,
    fuel: nat,
    ka: Seq<LDrawNode>,
    kb: Seq<LDrawNode>,
)
    requires
        children_match(t, cmds, color, fuel, ka),
        children_match(t, cmds, color, fuel, kb),
    ensures
        ka.len() == kb.len(),
        forall|j: int| 0 <= j < ka.len() ==> same_tree(#[trigger] ka[j], kb[j], fuel),
    decreases fuel, 1nat, cmds.len(),
{
    if cmds.len() > 0 {
        let c = cmds.last();
        if let Some(tg) = ref_target(c) {
            lemma_children_deterministic(
                t,
                cmds.drop_last(),
                color,
                fuel,
                ka.drop_last(),
                kb.drop_last(),
            );
            lemma_tree_deterministic(
                t,
                tg as int,
                Some(sub_ref(c).matrix),
                resolved_color(sub_ref(c).color, color),
                fuel,
                ka.last(),
                kb.last(),
            );
            assert forall|j: int| 0 <= j < ka.len() implies same_tree(#[trigger] ka[j], kb[j], fuel) by {
                if j < ka.len() - 1 {
                    assert(ka[j] == ka.drop_last()[j]);
                    assert(kb[j] == kb.drop_last()[j]);
                }
            }
        } else {
            lemma_children_deterministic(t, cmds.drop_last(), color, fuel, ka, kb);
        }
    }
}

/// Geometry dedup: registering leaf files into empty slots leaves exactly
/// one descriptor for each file that occurs, however often it occurs and
/// under whatever colors, and none for any other file.
pub proof fn lemma_geometry_once_per_file(n: nat, files: Seq<usize>, k: usize)
    requires
        k < n,
    ensures
        register(Seq::new(n, |i: int| None), files)[k as int] == if files.contains(k) {
            Some(leaf_descriptor(k))
        } else {
            None
        },
    decreases files.len(),
{
    let empty = Seq::new(n, |i: int| None::<GeometryInitDescriptor>);
    if files.len() > 0 {
        lemma_geometry_once_per_file(n, files.drop_last(), k);
        lemma_register_len(empty, files.drop_last());
        if files.contains(k) && !files.drop_last().contains(k) {
            let j = choose|j: int| 0 <= j < files.len() && files[j] == k;
            if j < files.len() - 1 {
                assert(files.drop_last()[j] == k);
            }
        }
        if files.drop_last().contains(k) {
            let j = choose|j: int| 0 <= j < files.drop_last().len() && files.drop_last()[j] == k;
            assert(files[j] == k);
        }
        if files.contains(k) && files.last() != k {
            let j = choose|j: int| 0 <= j < files.len() && files[j] == k;
            assert(files.drop_last()[j] == k);
        }
    }
}

} // verus!

verus! {

/// A stated color is fixed for the subtree below it: when the `i`-th command
/// of a grouping node references a grouping file with a color other than the
/// sentinel, and the `j`-th command of that file references a loaded file
/// with the sentinel, the grandchild built for it takes the stated color,
/// whatever the node's own color is.
pub proof fn lemma_stated_color_propagates(
    t: FileTable,
    f: int,
    transform: Option<usize>,
    color: ColorCode,
    fuel: nat,
    n: LDrawNode,
    i: int,
    j: int,
)
    requires
        node_matches(t, f, transform, color, fuel, n),
        !is_leaf_file(t.file(f)),
        fuel > 1,
        0 <= i < t.file(f).cmds@.len(),
        ref_target(t.file(f).cmds@[i]) is Some,
        sub_ref(t.file(f).cmds@[i]).color != CURRENT_COLOR,
        !is_leaf_file(t.file(ref_target(t.file(f).cmds@[i])->Some_0 as int)),
        0 <= j < t.file(ref_target(t.file(f).cmds@[i])->Some_0 as int).cmds@.len(),
        ref_target(t.file(ref_target(t.file(f).cmds@[i])->Some_0 as int).cmds@[j]) is Some,
        sub_ref(t.file(ref_target(t.file(f).cmds@[i])->Some_0 as int).cmds@[j]).color
            == CURRENT_COLOR,
    ensures
        ({
            let r = sub_ref(t.file(f).cmds@[i]);
            let g = r.target->Some_0 as int;
            let child = n.children@[ref_count(t.file(f).cmds@.take(i)) as int];
            let grandchild = child.children@[ref_count(t.file(g).cmds@.take(j)) as int];
            &&& ref_count(t.file(f).cmds@.take(i)) < n.children@.len()
            &&& ref_count(t.file(g).cmds@.take(j)) < child.children@.len()
            &&& child.current_color == r.color
            &&& grandchild.current_color == r.color
        }),
{
    let r = sub_ref(t.file(f).cmds@[i]);
    let g = r.target->Some_0 as int;
    lemma_color_inheritance(t, f, transform, color, fuel, n, i);
    let child = n.children@[ref_count(t.file(f).cmds@.take(i)) as int];
    lemma_color_inheritance(
        t,
        g,
        Some(r.matrix),
        resolved_color(r.color, color),
        (fuel - 1) as nat,
        child,
        j,
    );
}

} // verus!
