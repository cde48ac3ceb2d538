use vstd::prelude::*;

verus! {

/// How studs are drawn, and so which pair of stud files a load must hold.
#[derive(Clone, Copy, Debug, PartialEq, Eq, Structural)]
pub enum StudType {
    /// Plain studs without a logo.
    Disabled,
    /// Studs with the standard logo.
    Normal,
    /// Studs with a bevelled logo.
    Logo4,
    /// High-contrast studs with dark sides.
    HighContrast,
}

/// The level of detail of primitives.
#[derive(Clone, Copy, Debug, PartialEq, Eq, Structural)]
pub enum PrimitiveResolution {
    /// Low-poly primitives, searched first in `p/8`.
    Low,
    /// The standard primitives.
    Normal,
    /// High-quality primitives, searched first in `p/48`.
    High,
}

impl Default for StudType {
    fn default() -> (r: StudType)
        ensures
            r == StudType::Normal,
    {
        StudType::Normal
    }
}

impl Default for PrimitiveResolution {
    fn default() -> (r: PrimitiveResolution)
        ensures
            r == PrimitiveResolution::Normal,
    {
        PrimitiveResolution::Normal
    }
}

/// The options of a load that decide how the model is resolved and built.
/// The scene scale, a real number, is carried beside these by the caller.
pub struct GeometrySettings {
    pub import_resolution: String,
    pub import_stud_type: String,
    pub triangulate: bool,
    pub add_gap_between_parts: bool,
    pub ground_object: bool,
    pub stud_type: StudType,
    pub weld_vertices: bool,
    pub primitive_resolution: PrimitiveResolution,
    pub unofficial_parts: bool,
}

impl Default for GeometrySettings {
    fn default() -> (r: GeometrySettings)
        ensures
            r.import_resolution@.len() == 0,
            r.import_stud_type@.len() == 0,
            !r.triangulate,
            !r.add_gap_between_parts,
            !r.ground_object,
            r.stud_type == StudType::Normal,
            !r.weld_vertices,
            r.primitive_resolution == PrimitiveResolution::Normal,
            !r.unofficial_parts,
    {
        GeometrySettings {
            import_resolution: String::new(),
            import_stud_type: String::new(),
            triangulate: false,
            add_gap_between_parts: false,
            ground_object: false,
            stud_type: StudType::default(),
            weld_vertices: false,
            primitive_resolution: PrimitiveResolution::default(),
            unofficial_parts: false,
        }
    }
}

/// A directory of the search path, relative to the library root, or the
/// caller's extra directory at the given position.
#[derive(Clone, Copy, Debug, PartialEq, Eq, Structural)]
pub enum SearchDir {
    /// `p/8`
    LowPrimitives,
    /// `p/48`
    HighPrimitives,
    /// `p`
    Primitives,
    /// `parts`
    Parts,
    /// `parts/s`
    SubParts,
    /// `UnOfficial/p`
    UnofficialPrimitives,
    /// `UnOfficial/parts`
    UnofficialParts,
    /// `UnOfficial/parts/s`
    UnofficialSubParts,
    Extra(usize),
}

/// The order in which directories are searched for a file: the primitive
/// directory of the chosen resolution, the standard directories, the
/// unofficial ones if enabled, then the caller's extra directories in order.
pub open spec fn search_order(
    resolution: PrimitiveResolution,
    unofficial_parts: bool,
    extra: nat,
) -> Seq<SearchDir> {
    let first = match resolution {
        PrimitiveResolution::Low => seq![SearchDir::LowPrimitives],
        PrimitiveResolution::Normal => Seq::empty(),
        PrimitiveResolution::High => seq![SearchDir::HighPrimitives],
    };
    let standard = seq![SearchDir::Primitives, SearchDir::Parts, SearchDir::SubParts];
    let unofficial = if unofficial_parts {
        seq![
            SearchDir::UnofficialPrimitives,
            SearchDir::UnofficialParts,
            SearchDir::UnofficialSubParts,
        ]
    } else {
        Seq::empty()
    };
    first + standard + unofficial + Seq::new(extra, |i: int| SearchDir::Extra(i as usize))
}

/// The directories to search, in priority order, for a library with
/// `extra` caller-supplied directories.
pub fn search_dirs(resolution: PrimitiveResolution, unofficial_parts: bool, extra: usize) -> (r: Vec<
    SearchDir,
>)
    ensures
        r@ == search_order(resolution, unofficial_parts, extra as nat),
{
    let mut r: Vec<SearchDir> = Vec::new();
    match resolution {
        PrimitiveResolution::Low => r.push(SearchDir::LowPrimitives),
        PrimitiveResolution::Normal => {},
        PrimitiveResolution::High => r.push(SearchDir::HighPrimitives),
    }
    r.push(SearchDir::Primitives);
    r.push(SearchDir::Parts);
    r.push(SearchDir::SubParts);
    if unofficial_parts {
        r.push(SearchDir::UnofficialPrimitives);
        r.push(SearchDir::UnofficialParts);
        r.push(SearchDir::UnofficialSubParts);
    }
    let ghost base = r@;
    let mut i: usize = 0;
    while i < extra
        invariant
            i <= extra,
            r@ == base + Seq::new(i as nat, |k: int| SearchDir::Extra(k as usize)),
        decreases extra - i,
    {
        r.push(SearchDir::Extra(i));
        i = i + 1;
        assert(r@ =~= base + Seq::new(i as nat, |k: int| SearchDir::Extra(k as usize)));
    }
    assert(r@ =~= search_order(resolution, unofficial_parts, extra as nat));
    r
}

/// The pair of stud files that a load with the given stud style must hold.
pub open spec fn stud_file_names(stud_type: StudType) -> (Seq<char>, Seq<char>) {
    match stud_type {
        StudType::Logo4 => ("stud-logo4.dat"@, "stud2-logo4.dat"@),
        StudType::Normal => ("stud-logo3.dat"@, "stud2-logo3.dat"@),
        StudType::HighContrast => ("stud-high-contrast.dat"@, "stud2-high-contrast.dat"@),
        StudType::Disabled => ("stud-logo.dat"@, "stud2-logo.dat"@),
    }
}

/// The stud files to load up front for the given stud style: stud geometry
/// is put into parts by the geometry build, so the files may be referenced
/// by nothing that the model itself pulls in.
pub fn stud_files(stud_type: StudType) -> (r: (&'static str, &'static str))
    ensures
        (r.0@, r.1@) == stud_file_names(stud_type),
{
    match stud_type {
        StudType::Logo4 => ("stud-logo4.dat", "stud2-logo4.dat"),
        StudType::Normal => ("stud-logo3.dat", "stud2-logo3.dat"),
        StudType::HighContrast => ("stud-high-contrast.dat", "stud2-high-contrast.dat"),
        StudType::Disabled => ("stud-logo.dat", "stud2-logo.dat"),
    }
}

} // verus!
