use vstd::prelude::*;

use crate::color::ColorCode;

verus! {

/// A reference from one file to another: the target file (`None` when the
/// name did not resolve to a loaded file), the stated color, and a handle of
/// the reference's placement matrix.
#[derive(Clone, Copy, Debug, PartialEq, Eq, Structural)]
pub struct SubFileRef {
    pub target: Option<usize>,
    pub color: ColorCode,
    pub matrix: usize,
}

/// The commands of a parsed file that resolution cares about.
#[derive(Clone, Copy, Debug, PartialEq, Eq, Structural)]
pub enum Command {
    SubFileRef(SubFileRef),
    /// An edge line, drawn in the given color.
    Line(ColorCode),
    /// A triangle, drawn in the given color.
    Triangle(ColorCode),
    /// A quad, drawn in the given color.
    Quad(ColorCode),
    /// An optional (smooth) edge line, drawn in the given color.
    OptionalLine(ColorCode),
    /// Anything else: comments and meta commands.
    Meta,
}

/// One parsed file: its name as it is referenced, and its commands.
pub struct SourceFile {
    pub name: String,
    pub cmds: Vec<Command>,
}

/// Every file that a load pulled in, addressed by index.
pub struct FileTable {
    pub files: Vec<SourceFile>,
}

/// The file name suffix of a discrete part.
pub open spec fn part_suffix() -> Seq<char> {
    seq!['.', 'd', 'a', 't']
}

/// Whether a file name names a discrete part.
pub open spec fn is_part_name(name: Seq<char>) -> bool {
    name.len() >= 4 && name.subrange(name.len() - 4, name.len() as int) == part_suffix()
}

/// Whether a command draws a face.
pub open spec fn is_face(c: Command) -> bool {
    c is Triangle || c is Quad
}

/// Whether a command list holds a face of its own.
pub open spec fn draws_faces(cmds: Seq<Command>) -> bool {
    exists|i: int| 0 <= i < cmds.len() && is_face(#[trigger] cmds[i])
}

/// A file whose geometry is built as a whole: a part, or a file that draws
/// faces itself. The walk of a model stops at such a file.
pub open spec fn is_leaf_file(f: SourceFile) -> bool {
    is_part_name(f.name@) || draws_faces(f.cmds@)
}

/// The target of a command that references a loaded file.
pub open spec fn ref_target(c: Command) -> Option<usize> {
    match c {
        Command::SubFileRef(r) => r.target,
        _ => None,
    }
}

impl FileTable {
    /// Every reference points into the table.
    pub open spec fn wf(&self) -> bool {
        forall|f: int, i: int|
            0 <= f < self.files@.len() && 0 <= i < self.files@[f].cmds@.len()
                ==> match #[trigger] self.files@[f].cmds@[i] {
                Command::SubFileRef(r) => r.target matches Some(t) ==> t < self.files@.len(),
                _ => true,
            }
    }

    pub open spec fn len(&self) -> nat {
        self.files@.len()
    }

    pub open spec fn file(&self, f: int) -> SourceFile {
        self.files@[f]
    }

    /// Whether the file at index `f` is a leaf of the walk.
    pub fn is_geometry_leaf(&self, f: usize) -> (r: bool)
        requires
            f < self.files@.len(),
        ensures
            r == is_leaf_file(self.files@[f as int]),
    {
        let file = &self.files[f];
        is_part(&file.name) || has_geometry(&file.cmds)
    }
}

/// Relies on `str::ends_with`: whether the string ends with the given
/// pattern.
#[verifier::external_body]
fn ends_with(s: &str, suffix: &str) -> (r: bool)
    ensures
        r == (suffix@.len() <= s@.len() && s@.subrange(s@.len() - suffix@.len(), s@.len() as int)
            == suffix@),
{
    s.ends_with(suffix)
}

/// Whether a file name names a discrete part, by its extension.
pub fn is_part(name: &String) -> (r: bool)
    ensures
        r == is_part_name(name@),
{
    proof {
        reveal_strlit(".dat");
        assert(".dat"@ =~= part_suffix());
    }
    ends_with(name.as_str(), ".dat")
}

/// Whether a command list draws a triangle or a quad of its own.
pub fn has_geometry(cmds: &Vec<Command>) -> (r: bool)
    ensures
        r == draws_faces(cmds@),
{
    let mut i: usize = 0;
    while i < cmds.len()
        invariant
            i <= cmds@.len(),
            forall|j: int| 0 <= j < i ==> !is_face(#[trigger] cmds@[j]),
        decreases cmds@.len() - i,
    {
        match cmds[i] {
            Command::Triangle(_) | Command::Quad(_) => {
                return true;
            },
            _ => {},
        }
        i = i + 1;
    }
    false
}

} // verus!
