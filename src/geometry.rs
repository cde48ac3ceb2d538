use vstd::prelude::*;

use crate::color::{replace_color, resolved_color, ColorCode};
use crate::model::{ref_target, Command, FileTable};
use crate::scene::{sub_ref, GeometryInitDescriptor};

verus! {

/// What a mesh element is: a face, or an edge marked sharp (an edge line)
/// or smooth (an optional line).
#[derive(Clone, Copy, Debug, PartialEq, Eq, Structural)]
pub enum ElementKind {
    Face,
    SharpEdge,
    SmoothEdge,
}

/// One face or edge of a built geometry. Its corners are positions among
/// the vertices of command `cmd` of file `file`, placed by the product of the
/// matrices whose handles `path` lists, outermost first.
pub struct MeshElement {
    pub kind: ElementKind,
    pub path: Vec<usize>,
    pub file: usize,
    pub cmd: usize,
    pub corners: Vec<usize>,
    pub color: ColorCode,
}

pub open spec fn element_view(e: MeshElement) -> (ElementKind, Seq<usize>, usize, usize, Seq<usize>, ColorCode) {
    (e.kind, e.path@, e.file, e.cmd, e.corners@, e.color)
}

pub open spec fn elements_view(v: Seq<MeshElement>) -> Seq<(ElementKind, Seq<usize>, usize, usize, Seq<usize>, ColorCode)> {
    v.map_values(|e: MeshElement| element_view(e))
}

/// The elements that drawing command `c` (command `i` of file `f`, placed by
/// `path`, in a context resolved to `color`) contributes. The inherit
/// sentinel takes the context's color. A quad is split along the diagonal
/// from its first corner when triangles are asked for.
pub open spec fn command_elements(
    c: Command,
    path: Seq<usize>,
    f: usize,
    i: usize,
    color: ColorCode,
    triangulate: bool,
) -> Seq<(ElementKind, Seq<usize>, usize, usize, Seq<usize>, ColorCode)> {
    match c {
        Command::Triangle(k) => seq![
            (ElementKind::Face, path, f, i, seq![0usize, 1, 2], resolved_color(k, color)),
        ],
        Command::Quad(k) => if triangulate {
            seq![
                (ElementKind::Face, path, f, i, seq![0usize, 1, 2], resolved_color(k, color)),
                (ElementKind::Face, path, f, i, seq![0usize, 2, 3], resolved_color(k, color)),
            ]
        } else {
            seq![(ElementKind::Face, path, f, i, seq![0usize, 1, 2, 3], resolved_color(k, color))]
        },
        Command::Line(k) => seq![
            (ElementKind::SharpEdge, path, f, i, seq![0usize, 1], resolved_color(k, color)),
        ],
        Command::OptionalLine(k) => seq![
            (ElementKind::SmoothEdge, path, f, i, seq![0usize, 1], resolved_color(k, color)),
        ],
        _ => Seq::empty(),
    }
}

/// The elements of the geometry of file `f`, placed by `path` and resolved
/// to `color`, in command order; with `recursive`, the elements of the files
/// that it references follow in place of each reference.
pub open spec fn file_elements(
    t: FileTable,
    f: int,
    path: Seq<usize>,
    color: ColorCode,
    recursive: bool,
    triangulate: bool,
    fuel: nat,
) -> Seq<(ElementKind, Seq<usize>, usize, usize, Seq<usize>, ColorCode)>
    decreases fuel, 2nat, 0nat,
{
    commands_elements(t, f, t.file(f).cmds@, path, color, recursive, triangulate, fuel)
}

/// The elements contributed by the first commands `cmds` of file `f`.
pub open spec fn commands_elements(
    t: FileTable,
    f: int,
    cmds: Seq<Command>,
    path: Seq<usize>,
    color: ColorCode,
    recursive: bool,
    triangulate: bool,
    fuel: nat,
) -> Seq<(ElementKind, Seq<usize>, usize, usize, Seq<usize>, ColorCode)>
    decreases fuel, 1nat, cmds.len(),
{
    if cmds.len() == 0 {
        Seq::empty()
    } else {
        let prev = commands_elements(t, f, cmds.drop_last(), path, color, recursive, triangulate, fuel);
        let c = cmds.last();
        match ref_target(c) {
            Some(tg) => if recursive && fuel > 0 {
                prev + file_elements(
                    t,
                    tg as int,
                    path.push(sub_ref(c).matrix),
                    resolved_color(sub_ref(c).color, color),
                    recursive,
                    triangulate,
                    (fuel - 1) as nat,
                )
            } else {
                prev
            },
            None => prev + command_elements(
                c,
                path,
                f as usize,
                (cmds.len() - 1) as usize,
                color,
                triangulate,
            ),
        }
    }
}

/// A copy of a list of indices.
pub(crate) fn copy_indices(v: &Vec<usize>) -> (r: Vec<usize>)
    ensures
        r@ == v@,
{
    let mut r: Vec<usize> = Vec::new();
    let mut i: usize = 0;
    while i < v.len()
        invariant
            i <= v@.len(),
            r@ == v@.take(i as int),
        decreases v@.len() - i,
    {
        r.push(v[i]);
        i = i + 1;
        assert(r@ =~= v@.take(i as int));
    }
    assert(v@.take(v@.len() as int) =~= v@);
    r
}

fn push_element(
    out: &mut Vec<MeshElement>,
    kind: ElementKind,
    path: &Vec<usize>,
    f: usize,
    i: usize,
    corners: Vec<usize>,
    color: ColorCode,
)
    ensures
        elements_view(final(out)@) == elements_view(old(out)@).push(
            (kind, path@, f, i, corners@, color),
        ),
{
    let p = copy_indices(path);
    out.push(MeshElement { kind, path: p, file: f, cmd: i, corners, color });
    assert(elements_view(out@) =~= elements_view(old(out)@).push((kind, path@, f, i, corners@, color)));
}

/// Appends the elements of one drawing command.
fn push_command_elements(
    c: Command,
    path: &Vec<usize>,
    f: usize,
    i: usize,
    color: ColorCode,
    triangulate: bool,
    out: &mut Vec<MeshElement>,
)
    ensures
        elements_view(final(out)@) == elements_view(old(out)@) + command_elements(
            c,
            path@,
            f,
            i,
            color,
            triangulate,
        ),
{
    let ghost o0 = elements_view(out@);
    match c {
        Command::Triangle(k) => {
            push_element(out, ElementKind::Face, path, f, i, vec![0, 1, 2], replace_color(k, color));
        },
        Command::Quad(k) => {
            let kc = replace_color(k, color);
            if triangulate {
                push_element(out, ElementKind::Face, path, f, i, vec![0, 1, 2], kc);
                push_element(out, ElementKind::Face, path, f, i, vec![0, 2, 3], kc);
            } else {
                push_element(out, ElementKind::Face, path, f, i, vec![0, 1, 2, 3], kc);
            }
        },
        Command::Line(k) => {
            push_element(out, ElementKind::SharpEdge, path, f, i, vec![0, 1], replace_color(k, color));
        },
        Command::OptionalLine(k) => {
            push_element(out, ElementKind::SmoothEdge, path, f, i, vec![0, 1], replace_color(k, color));
        },
        _ => {},
    }
    assert(elements_view(out@) =~= o0 + command_elements(c, path@, f, i, color, triangulate));
}

/// Appends the elements of file `f`, placed by `path` and resolved to
/// `color`, following references when `recursive`.
pub fn push_file_elements(
    t: &FileTable,
    f: usize,
    path: &Vec<usize>,
    color: ColorCode,
    recursive: bool,
    triangulate: bool,
    fuel: usize,
    out: &mut Vec<MeshElement>,
)
    requires
        t.wf(),
        f < t.len(),
    ensures
        elements_view(final(out)@) == elements_view(old(out)@) + file_elements(
            *t,
            f as int,
            path@,
            color,
            recursive,
            triangulate,
            fuel as nat,
        ),
    decreases fuel,
{
    let ghost o0 = elements_view(out@);
    let file = &t.files[f];
    let ghost cmds = file.cmds@;
    let mut i: usize = 0;
    assert(cmds.take(0) =~= Seq::<Command>::empty());
    assert(elements_view(out@) =~= o0 + commands_elements(
        *t,
        f as int,
        cmds.take(0),
        path@,
        color,
        recursive,
        triangulate,
        fuel as nat,
    ));
    while i < file.cmds.len()
        invariant
            t.wf(),
            f < t.len(),
            file == t.file(f as int),
            cmds == file.cmds@,
            i <= cmds.len(),
            elements_view(out@) == o0 + commands_elements(
                *t,
                f as int,
                cmds.take(i as int),
                path@,
                color,
                recursive,
                triangulate,
                fuel as nat,
            ),
        decreases cmds.len() - i,
    {
        let c = file.cmds[i];
        assert(cmds.take(i + 1).drop_last() =~= cmds.take(i as int));
        assert(cmds.take(i + 1).last() == c);
        match c {
            Command::SubFileRef(r) => {
                if let Some(tg) = r.target {
                    if recursive && fuel > 0 {
                        assert(tg < t.len());
                        let mut child_path = copy_indices(path);
                        child_path.push(r.matrix);
                        let child_color = replace_color(r.color, color);
                        push_file_elements(
                            t,
                            tg,
                            &child_path,
                            child_color,
                            recursive,
                            triangulate,
                            fuel - 1,
                            out,
                        );
                    }
                } else {
                    assert(command_elements(c, path@, f, i, color, triangulate) =~= Seq::empty());
                }
            },
            _ => {
                push_command_elements(c, path, f, i, color, triangulate, out);
            },
        }
        assert(elements_view(out@) =~= o0 + commands_elements(
            *t,
            f as int,
            cmds.take(i + 1),
            path@,
            color,
            recursive,
            triangulate,
            fuel as nat,
        ));
        i = i + 1;
    }
    assert(cmds.take(cmds.len() as int) =~= cmds);
}

/// The faces and edges of the geometry that a descriptor asks for: the
/// commands of its file, with the inherit sentinel replaced by the baked
/// color, and with the geometry of referenced files pulled in when the
/// descriptor is recursive. The result depends on the descriptor, the table
/// and the triangulation option alone.
pub fn build_geometry(t: &FileTable, d: &GeometryInitDescriptor, triangulate: bool) -> (r: Vec<
    MeshElement,
>)
    requires
        t.wf(),
        d.file < t.len(),
    ensures
        elements_view(r@) == file_elements(
            *t,
            d.file as int,
            Seq::empty(),
            d.current_color,
            d.recursive,
            triangulate,
            t.len(),
        ),
{
    let mut out: Vec<MeshElement> = Vec::new();
    let path: Vec<usize> = Vec::new();
    push_file_elements(t, d.file, &path, d.current_color, d.recursive, triangulate, t.files.len(), &mut out);
    assert(elements_view(Seq::<MeshElement>::empty()) =~= Seq::empty());
    out
}

} // verus!

verus! {

/// Determinism of geometry building: two builds of the same descriptor over
/// the same table with the same triangulation option hold the same faces and
/// edges, in the same order.
pub proof fn lemma_geometry_deterministic(
    t: FileTable,
    d: GeometryInitDescriptor,
    triangulate: bool,
    a: Seq<MeshElement>,
    b: Seq<MeshElement>,
)
    requires
        elements_view(a) == file_elements(t, d.file as int, Seq::empty(), d.current_color, d.recursive, triangulate, t.len()),
        elements_view(b) == file_elements(t, d.file as int, Seq::empty(), d.current_color, d.recursive, triangulate, t.len()),
    ensures
        a.len() == b.len(),
        forall|i: int| 0 <= i < a.len() ==> element_view(#[trigger] a[i]) == element_view(b[i]),
{
    assert(elements_view(a).len() == a.len());
    assert(elements_view(b).len() == b.len());
    assert forall|i: int| 0 <= i < a.len() implies element_view(#[trigger] a[i]) == element_view(b[i]) by {
        assert(elements_view(a)[i] == element_view(a[i]));
        assert(elements_view(b)[i] == element_view(b[i]));
    }
}

} // verus!

verus! {

/// The number of face corners among the elements `v`.
pub open spec fn face_corner_total(v: Seq<MeshElement>) -> nat
    decreases v.len(),
{
    if v.len() == 0 {
        0
    } else if v.last().kind == ElementKind::Face {
        face_corner_total(v.drop_last()) + v.last().corners@.len()
    } else {
        face_corner_total(v.drop_last())
    }
}

/// For each face among `v`, in order: the offset of its first corner in the
/// list of all face corners, and its number of corners.
pub open spec fn face_layout_of(v: Seq<MeshElement>) -> Seq<(usize, usize)>
    decreases v.len(),
{
    if v.len() == 0 {
        Seq::empty()
    } else if v.last().kind == ElementKind::Face {
        face_layout_of(v.drop_last()).push(
            (face_corner_total(v.drop_last()) as usize, v.last().corners@.len() as usize),
        )
    } else {
        face_layout_of(v.drop_last())
    }
}

proof fn lemma_total_prefix(v: Seq<MeshElement>, i: int)
    requires
        0 <= i <= v.len(),
    ensures
        face_corner_total(v.take(i)) <= face_corner_total(v),
    decreases v.len() - i,
{
    if i < v.len() {
        lemma_total_prefix(v, i + 1);
        assert(v.take(i + 1).drop_last() =~= v.take(i));
    } else {
        assert(v.take(i) =~= v);
    }
}

/// The start offset and size of every face, which address faces of mixed
/// sizes in the flat list of face corners.
pub fn face_layout(elements: &Vec<MeshElement>) -> (r: (Vec<usize>, Vec<usize>))
    requires
        face_corner_total(elements@) <= usize::MAX,
    ensures
        r.0@.len() == r.1@.len(),
        r.0@.len() == face_layout_of(elements@).len(),
        forall|k: int|
            0 <= k < r.0@.len() ==> (r.0@[k], r.1@[k]) == #[trigger] face_layout_of(elements@)[k],
{
    let mut starts: Vec<usize> = Vec::new();
    let mut sizes: Vec<usize> = Vec::new();
    let mut total: usize = 0;
    let mut i: usize = 0;
    let ghost v = elements@;
    assert(v.take(0) =~= Seq::<MeshElement>::empty());
    while i < elements.len()
        invariant
            v == elements@,
            i <= v.len(),
            face_corner_total(v) <= usize::MAX,
            total == face_corner_total(v.take(i as int)),
            starts@.len() == sizes@.len(),
            starts@.len() == face_layout_of(v.take(i as int)).len(),
            forall|k: int|
                0 <= k < starts@.len() ==> (starts@[k], sizes@[k]) == #[trigger] face_layout_of(
                    v.take(i as int),
                )[k],
        decreases v.len() - i,
    {
        let ghost prev = v.take(i as int);
        assert(v.take(i + 1).drop_last() =~= prev);
        assert(v.take(i + 1).last() == v[i as int]);
        proof {
            lemma_total_prefix(v, i + 1);
        }
        if elements[i].kind == ElementKind::Face {
            let n = elements[i].corners.len();
            starts.push(total);
            sizes.push(n);
            total = total + n;
        }
        i = i + 1;
    }
    assert(v.take(v.len() as int) =~= v);
    (starts, sizes)
}

} // verus!
