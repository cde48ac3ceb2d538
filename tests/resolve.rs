use ldr_tools::{
    build_geometry, group_instances, has_geometry, is_part, load_instances, load_scene,
    replace_color, search_dirs, stud_files, Command, ElementKind, FileTable, GeometryInitDescriptor,
    GeometrySettings, LDrawNode, PrimitiveResolution, SearchDir, SourceFile, StudType, SubFileRef,
    CURRENT_COLOR,
};

fn file(name: &str, cmds: Vec<Command>) -> SourceFile {
    SourceFile { name: name.to_string(), cmds }
}

fn sub(target: usize, color: u32, matrix: usize) -> Command {
    Command::SubFileRef(SubFileRef { target: Some(target), color, matrix })
}

/// main.ldr -> sub.ldr (color 7) -> part.dat twice (color 4, sentinel).
fn two_color_model() -> FileTable {
    FileTable {
        files: vec![
            file("main.ldr", vec![sub(1, 7, 10)]),
            file("sub.ldr", vec![sub(2, 4, 11), Command::Meta, sub(2, CURRENT_COLOR, 12)]),
            file("part.dat", vec![Command::Triangle(CURRENT_COLOR), Command::Line(24)]),
        ],
    }
}

#[test]
fn replace_color_sentinel_and_explicit() {
    assert_eq!(replace_color(CURRENT_COLOR, 7), 7);
    assert_eq!(replace_color(4, 7), 4);
    assert_eq!(replace_color(CURRENT_COLOR, CURRENT_COLOR), CURRENT_COLOR);
    assert_eq!(replace_color(0, 16), 0);
}

#[test]
fn part_names_by_extension() {
    assert!(is_part(&"3001.dat".to_string()));
    assert!(is_part(&".dat".to_string()));
    assert!(!is_part(&"model.ldr".to_string()));
    assert!(!is_part(&"dat".to_string()));
    assert!(!is_part(&"".to_string()));
    assert!(!is_part(&"3001.dat.mpd".to_string()));
}

#[test]
fn drawable_commands() {
    assert!(has_geometry(&vec![Command::Meta, Command::Quad(1)]));
    assert!(has_geometry(&vec![Command::Triangle(1)]));
    assert!(!has_geometry(&vec![Command::Line(1), Command::OptionalLine(2), sub(0, 1, 0)]));
    assert!(!has_geometry(&vec![]));
}

#[test]
fn search_dirs_default_order() {
    assert_eq!(
        search_dirs(PrimitiveResolution::Normal, false, 0),
        vec![SearchDir::Primitives, SearchDir::Parts, SearchDir::SubParts]
    );
}

#[test]
fn search_dirs_resolution_unofficial_and_extra() {
    assert_eq!(
        search_dirs(PrimitiveResolution::High, true, 2),
        vec![
            SearchDir::HighPrimitives,
            SearchDir::Primitives,
            SearchDir::Parts,
            SearchDir::SubParts,
            SearchDir::UnofficialPrimitives,
            SearchDir::UnofficialParts,
            SearchDir::UnofficialSubParts,
            SearchDir::Extra(0),
            SearchDir::Extra(1),
        ]
    );
    assert_eq!(search_dirs(PrimitiveResolution::Low, false, 0)[0], SearchDir::LowPrimitives);
}

#[test]
fn stud_file_pairs() {
    assert_eq!(stud_files(StudType::Normal), ("stud-logo3.dat", "stud2-logo3.dat"));
    assert_eq!(stud_files(StudType::Logo4), ("stud-logo4.dat", "stud2-logo4.dat"));
    assert_eq!(
        stud_files(StudType::HighContrast),
        ("stud-high-contrast.dat", "stud2-high-contrast.dat")
    );
    assert_eq!(stud_files(StudType::Disabled), ("stud-logo.dat", "stud2-logo.dat"));
}

#[test]
fn default_settings() {
    let s = GeometrySettings::default();
    assert_eq!(s.stud_type, StudType::Normal);
    assert_eq!(s.primitive_resolution, PrimitiveResolution::Normal);
    assert!(!s.triangulate && !s.weld_vertices && !s.unofficial_parts);
    assert!(!s.add_gap_between_parts && !s.ground_object);
}

#[test]
fn color_inheritance_in_tree() {
    // root -> a.ldr (explicit 2) -> b.ldr (sentinel) -> part.dat (sentinel)
    //      -> part.dat (sentinel)
    let t = FileTable {
        files: vec![
            file("root.ldr", vec![sub(1, 2, 0), sub(3, CURRENT_COLOR, 1)]),
            file("a.ldr", vec![sub(2, CURRENT_COLOR, 2)]),
            file("b.ldr", vec![sub(3, CURRENT_COLOR, 3)]),
            file("part.dat", vec![Command::Quad(CURRENT_COLOR)]),
        ],
    };
    let scene = load_scene(&t, 0);
    let root = &scene.root_node;
    assert_eq!(root.current_color, CURRENT_COLOR);
    assert_eq!(root.children.len(), 2);
    let a = &root.children[0];
    assert_eq!(a.current_color, 2);
    assert_eq!(a.children[0].current_color, 2);
    assert_eq!(a.children[0].children[0].current_color, 2);
    assert_eq!(root.children[1].current_color, CURRENT_COLOR);
}

#[test]
fn tree_keeps_local_transforms() {
    // Three levels, each placed by its own reference matrix.
    let t = FileTable {
        files: vec![
            file("l0.ldr", vec![sub(1, 1, 100)]),
            file("l1.ldr", vec![sub(2, 1, 101)]),
            file("l2.ldr", vec![sub(3, 1, 102)]),
            file("brick.dat", vec![]),
        ],
    };
    let scene = load_scene(&t, 0);
    let n0 = &scene.root_node;
    assert_eq!(n0.transform, None);
    let n1 = &n0.children[0];
    assert_eq!(n1.transform, Some(100));
    let n2 = &n1.children[0];
    assert_eq!(n2.transform, Some(101));
    let n3 = &n2.children[0];
    assert_eq!(n3.transform, Some(102));
    assert_eq!(n3.geometry_name.as_deref(), Some("brick.dat"));
    assert!(n3.children.is_empty());
}

#[test]
fn tree_geometry_dedup() {
    let t = two_color_model();
    let scene = load_scene(&t, 0);
    let sub_node = &scene.root_node.children[0];
    assert_eq!(sub_node.children.len(), 2);
    assert_eq!(sub_node.children[0].current_color, 4);
    assert_eq!(sub_node.children[1].current_color, 7);
    for c in &sub_node.children {
        assert_eq!(c.geometry_name.as_deref(), Some("part.dat"));
    }
    let slots = &scene.geometry_descriptors.slots;
    assert_eq!(slots.len(), 3);
    assert_eq!(slots.iter().filter(|s| s.is_some()).count(), 1);
    assert_eq!(
        slots[2],
        Some(GeometryInitDescriptor { file: 2, current_color: CURRENT_COLOR, recursive: true })
    );
}

#[test]
fn drawing_file_is_a_leaf_even_with_references() {
    let t = FileTable {
        files: vec![
            file("inline.ldr", vec![Command::Triangle(1), sub(1, 2, 0)]),
            file("x.ldr", vec![Command::Line(1)]),
        ],
    };
    let scene = load_scene(&t, 0);
    assert_eq!(scene.root_node.geometry_name.as_deref(), Some("inline.ldr"));
    assert!(scene.root_node.children.is_empty());
    let inst = load_instances(&t, 0);
    assert_eq!(inst.instances.len(), 1);
    assert_eq!(inst.instances[0].file, 0);
}

#[test]
fn dangling_reference_is_skipped() {
    let t = FileTable {
        files: vec![
            file(
                "m.ldr",
                vec![
                    Command::SubFileRef(SubFileRef { target: None, color: 1, matrix: 0 }),
                    sub(1, 3, 1),
                ],
            ),
            file("p.dat", vec![]),
        ],
    };
    let scene = load_scene(&t, 0);
    assert_eq!(scene.root_node.children.len(), 1);
    assert_eq!(scene.root_node.children[0].transform, Some(1));
}

#[test]
fn cyclic_references_terminate() {
    let t = FileTable { files: vec![file("a.ldr", vec![sub(1, 1, 0)]), file("b.ldr", vec![sub(0, 1, 1)])] };
    let scene = load_scene(&t, 0);
    assert_eq!(scene.root_node.children.len(), 1);
    let inst = load_instances(&t, 0);
    assert!(inst.instances.is_empty());
}

#[test]
fn instanced_two_colors_one_geometry() {
    let t = two_color_model();
    let scene = load_instances(&t, 0);
    assert_eq!(scene.main_model_name, "main.ldr");
    assert_eq!(scene.instances.len(), 2);
    assert_eq!(scene.groups.len(), 2);
    let g4 = scene.groups.iter().find(|g| g.file == 2 && g.color == 4).unwrap();
    let g7 = scene.groups.iter().find(|g| g.file == 2 && g.color == 7).unwrap();
    assert_eq!(g4.members, vec![0]);
    assert_eq!(g7.members, vec![1]);
    assert_eq!(scene.instances[g4.members[0]].path, vec![10, 11]);
    assert_eq!(scene.instances[g7.members[0]].path, vec![10, 12]);
    let slots = &scene.geometry_descriptors.slots;
    assert_eq!(slots.iter().filter(|s| s.is_some()).count(), 1);
    assert!(slots[2].is_some());
}

#[test]
fn grouping_collects_repeats() {
    let t = FileTable {
        files: vec![
            file("m.ldr", vec![sub(1, 1, 0), sub(2, 1, 1), sub(1, 1, 2), sub(1, 5, 3)]),
            file("a.dat", vec![]),
            file("b.dat", vec![]),
        ],
    };
    let scene = load_instances(&t, 0);
    let groups = group_instances(&scene.instances);
    assert_eq!(groups.len(), 3);
    let a1 = groups.iter().find(|g| g.file == 1 && g.color == 1).unwrap();
    assert_eq!(a1.members, vec![0, 2]);
    let b1 = groups.iter().find(|g| g.file == 2 && g.color == 1).unwrap();
    assert_eq!(b1.members, vec![1]);
    let a5 = groups.iter().find(|g| g.file == 1 && g.color == 5).unwrap();
    assert_eq!(a5.members, vec![3]);
}

fn same_tree(a: &LDrawNode, b: &LDrawNode) -> bool {
    a.name == b.name
        && a.transform == b.transform
        && a.geometry_name == b.geometry_name
        && a.current_color == b.current_color
        && a.children.len() == b.children.len()
        && a.children.iter().zip(b.children.iter()).all(|(x, y)| same_tree(x, y))
}

#[test]
fn loading_twice_is_identical() {
    let t = two_color_model();
    let a = load_scene(&t, 0);
    let b = load_scene(&t, 0);
    assert!(same_tree(&a.root_node, &b.root_node));
    assert_eq!(a.geometry_descriptors.slots, b.geometry_descriptors.slots);
    let x = load_instances(&t, 0);
    let y = load_instances(&t, 0);
    let key = |s: &ldr_tools::LDrawSceneInstanced| {
        let mut v: Vec<(usize, u32, Vec<Vec<usize>>)> = s
            .groups
            .iter()
            .map(|g| (g.file, g.color, g.members.iter().map(|&m| s.instances[m].path.clone()).collect()))
            .collect();
        v.sort();
        v
    };
    assert_eq!(key(&x), key(&y));
}

#[test]
fn geometry_resolves_colors_and_edges() {
    let t = two_color_model();
    let d = GeometryInitDescriptor { file: 2, current_color: 7, recursive: true };
    let g = build_geometry(&t, &d, false);
    assert_eq!(g.len(), 2);
    assert_eq!(g[0].kind, ElementKind::Face);
    assert_eq!(g[0].color, 7);
    assert_eq!(g[0].corners, vec![0, 1, 2]);
    assert_eq!(g[0].cmd, 0);
    assert_eq!(g[1].kind, ElementKind::SharpEdge);
    assert_eq!(g[1].color, 24);
    assert_eq!(g[1].corners, vec![0, 1]);
}

#[test]
fn geometry_triangulates_quads_deterministically() {
    let t = FileTable {
        files: vec![file("q.dat", vec![Command::Quad(3), Command::OptionalLine(CURRENT_COLOR)])],
    };
    let d = GeometryInitDescriptor { file: 0, current_color: CURRENT_COLOR, recursive: true };
    let quads = build_geometry(&t, &d, false);
    assert_eq!(quads.len(), 2);
    assert_eq!(quads[0].corners, vec![0, 1, 2, 3]);
    assert_eq!(quads[1].kind, ElementKind::SmoothEdge);
    assert_eq!(quads[1].color, CURRENT_COLOR);
    let tris = build_geometry(&t, &d, true);
    assert_eq!(tris.len(), 3);
    assert_eq!(tris[0].corners, vec![0, 1, 2]);
    assert_eq!(tris[1].corners, vec![0, 2, 3]);
    assert_eq!(tris[0].color, 3);
}

#[test]
fn geometry_recursion_into_primitives() {
    let t = FileTable {
        files: vec![
            file("p.dat", vec![Command::Triangle(CURRENT_COLOR), sub(1, 5, 9), sub(1, CURRENT_COLOR, 8)]),
            file("stud.dat", vec![Command::Quad(CURRENT_COLOR)]),
        ],
    };
    let rec = build_geometry(&t, &GeometryInitDescriptor { file: 0, current_color: 2, recursive: true }, false);
    assert_eq!(rec.len(), 3);
    assert_eq!(rec[1].file, 1);
    assert_eq!(rec[1].path, vec![9]);
    assert_eq!(rec[1].color, 5);
    assert_eq!(rec[2].path, vec![8]);
    assert_eq!(rec[2].color, 2);
    let flat = build_geometry(&t, &GeometryInitDescriptor { file: 0, current_color: 2, recursive: false }, false);
    assert_eq!(flat.len(), 1);
    assert_eq!(flat[0].color, 2);
}

#[test]
fn face_layout_of_mixed_faces() {
    let t = FileTable {
        files: vec![file(
            "mix.dat",
            vec![Command::Quad(1), Command::Line(2), Command::Triangle(3), Command::Quad(4)],
        )],
    };
    let d = GeometryInitDescriptor { file: 0, current_color: CURRENT_COLOR, recursive: false };
    let g = build_geometry(&t, &d, false);
    let (starts, sizes) = ldr_tools::face_layout(&g);
    assert_eq!(starts, vec![0, 4, 7]);
    assert_eq!(sizes, vec![4, 3, 4]);
    let tri = build_geometry(&t, &d, true);
    let (starts, sizes) = ldr_tools::face_layout(&tri);
    assert_eq!(starts, vec![0, 3, 6, 9, 12]);
    assert_eq!(sizes, vec![3, 3, 3, 3, 3]);
    let (starts, sizes) = ldr_tools::face_layout(&Vec::new());
    assert!(starts.is_empty() && sizes.is_empty());
}
