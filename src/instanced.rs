use vstd::prelude::*;

use crate::color::{replace_color, resolved_color, ColorCode, CURRENT_COLOR};
use crate::geometry::copy_indices;
use crate::model::{is_leaf_file, ref_target, Command, FileTable};
use crate::scene::{
    leaves, lemma_register_append, register, sub_ref, GeometryDescriptors, GeometryInitDescriptor,
};

verus! {

/// One placement of a leaf geometry: the leaf file, the color it resolved
/// to, and the handles of the placement matrices from the root down, whose
/// product is the placement's world transform.
pub struct GeometryInstance {
    pub file: usize,
    pub color: ColorCode,
    pub path: Vec<usize>,
}

/// The placements of one (file, color) pair, as indices into the list of
/// placements in walk order.
pub struct InstanceGroup {
    pub file: usize,
    pub color: ColorCode,
    pub members: Vec<usize>,
}

/// A model resolved for instanced rendering.
pub struct LDrawSceneInstanced {
    pub main_model_name: String,
    pub instances: Vec<GeometryInstance>,
    pub groups: Vec<InstanceGroup>,
    pub geometry_descriptors: GeometryDescriptors,
}

pub open spec fn instance_view(g: GeometryInstance) -> (usize, ColorCode, Seq<usize>) {
    (g.file, g.color, g.path@)
}

pub open spec fn instances_view(v: Seq<GeometryInstance>) -> Seq<(usize, ColorCode, Seq<usize>)> {
    v.map_values(|g: GeometryInstance| instance_view(g))
}

/// The placements of leaves that the walk from file `f` reaches, in walk
/// order, when `f` is placed by `path` and resolved to `color`.
pub open spec fn occurrences(
    t: FileTable,
    f: int,
    path: Seq<usize>,
    color: ColorCode,
    fuel: nat,
) -> Seq<(usize, ColorCode, Seq<usize>)>
    decreases fuel, 0nat, 0nat,
{
    if is_leaf_file(t.file(f)) {
        seq![(f as usize, color, path)]
    } else if fuel == 0 {
        Seq::empty()
    } else {
        occurrences_cmds(t, t.file(f).cmds@, path, color, (fuel - 1) as nat)
    }
}

/// The placements reached through the references of `cmds` of a file placed
/// by `path` and resolved to `color`.
pub open spec fn occurrences_cmds(
    t: FileTable,
    cmds: Seq<Command>,
    path: Seq<usize>,
    color: ColorCode,
    fuel: nat,
) -> Seq<(usize, ColorCode, Seq<usize>)>
    decreases fuel, 1nat, cmds.len(),
{
    if cmds.len() == 0 {
        Seq::empty()
    } else {
        let c = cmds.last();
        match ref_target(c) {
            Some(tg) => occurrences_cmds(t, cmds.drop_last(), path, color, fuel) + occurrences(
                t,
                tg as int,
                path.push(sub_ref(c).matrix),
                resolved_color(sub_ref(c).color, color),
                fuel,
            ),
            None => occurrences_cmds(t, cmds.drop_last(), path, color, fuel),
        }
    }
}

/// Walks from file `f`, placed by `path` and resolved to `color`, appending
/// one placement per leaf reached and registering the leaves' geometry. The
/// walk does not go below a leaf.
pub fn load_node_instanced(
    t: &FileTable,
    f: usize,
    path: &Vec<usize>,
    color: ColorCode,
    fuel: usize,
    descriptors: &mut GeometryDescriptors,
    out: &mut Vec<GeometryInstance>,
)
    requires
        t.wf(),
        f < t.len(),
    ensures
        instances_view(final(out)@) == instances_view(old(out)@) + occurrences(
            *t,
            f as int,
            path@,
            color,
            fuel as nat,
        ),
        final(descriptors).slots@ == register(old(descriptors).slots@, leaves(*t, f as int, fuel as nat)),
    decreases fuel,
{
    let ghost o0 = instances_view(out@);
    if t.is_geometry_leaf(f) {
        descriptors.register_leaf(f);
        let p = copy_indices(path);
        out.push(GeometryInstance { file: f, color, path: p });
        assert(instances_view(out@) =~= o0 + occurrences(*t, f as int, path@, color, fuel as nat));
        return;
    }
    if fuel == 0 {
        assert(leaves(*t, f as int, fuel as nat) =~= Seq::<usize>::empty());
        assert(instances_view(out@) =~= o0 + occurrences(*t, f as int, path@, color, fuel as nat));
        return;
    }
    let file = &t.files[f];
    let ghost s0 = descriptors.slots@;
    let ghost cmds = file.cmds@;
    let mut i: usize = 0;
    assert(cmds.take(0) =~= Seq::<Command>::empty());
    assert(instances_view(out@) =~= o0 + occurrences_cmds(
        *t,
        cmds.take(0),
        path@,
        color,
        (fuel - 1) as nat,
    ));
    while i < file.cmds.len()
        invariant
            t.wf(),
            f < t.len(),
            fuel > 0,
            file == t.file(f as int),
            cmds == file.cmds@,
            i <= cmds.len(),
            instances_view(out@) == o0 + occurrences_cmds(
                *t,
                cmds.take(i as int),
                path@,
                color,
                (fuel - 1) as nat,
            ),
            descriptors.slots@ == register(
                s0,
                crate::scene::leaves_cmds(*t, cmds.take(i as int), (fuel - 1) as nat),
            ),
        decreases cmds.len() - i,
    {
        let c = file.cmds[i];
        assert(cmds.take(i + 1).drop_last() =~= cmds.take(i as int));
        assert(cmds.take(i + 1).last() == c);
        if let Command::SubFileRef(r) = c {
            if let Some(tg) = r.target {
                assert(tg < t.len());
                let child_color = replace_color(r.color, color);
                let mut child_path = copy_indices(path);
                child_path.push(r.matrix);
                load_node_instanced(t, tg, &child_path, child_color, fuel - 1, descriptors, out);
                proof {
                    lemma_register_append(
                        s0,
                        crate::scene::leaves_cmds(*t, cmds.take(i as int), (fuel - 1) as nat),
                        leaves(*t, tg as int, (fuel - 1) as nat),
                    );
                    assert(instances_view(out@) =~= o0 + occurrences_cmds(
                        *t,
                        cmds.take(i + 1),
                        path@,
                        color,
                        (fuel - 1) as nat,
                    ));
                }
            }
        }
        i = i + 1;
    }
    assert(cmds.take(cmds.len() as int) =~= cmds);
}

} // verus!

verus! {

pub open spec fn instance_key(g: GeometryInstance) -> (usize, ColorCode) {
    (g.file, g.color)
}

pub open spec fn group_key(g: InstanceGroup) -> (usize, ColorCode) {
    (g.file, g.color)
}

/// The (file, color) key of each placement, in order.
pub open spec fn keys_of(v: Seq<GeometryInstance>) -> Seq<(usize, ColorCode)> {
    v.map_values(|g: GeometryInstance| instance_key(g))
}

/// The positions in `keys` that hold `key`, in increasing order.
pub open spec fn members_of(keys: Seq<(usize, ColorCode)>, key: (usize, ColorCode)) -> Seq<usize>
    decreases keys.len(),
{
    if keys.len() == 0 {
        Seq::empty()
    } else if keys.last() == key {
        members_of(keys.drop_last(), key).push((keys.len() - 1) as usize)
    } else {
        members_of(keys.drop_last(), key)
    }
}

/// `groups` holds one group per distinct (file, color) key of `keys`, each
/// listing exactly the positions of that key, in order.
pub open spec fn groups_match(keys: Seq<(usize, ColorCode)>, groups: Seq<InstanceGroup>) -> bool {
    &&& forall|a: int, b: int|
        0 <= a < groups.len() && 0 <= b < groups.len() && a != b ==> group_key(#[trigger] groups[a])
            != group_key(#[trigger] groups[b])
    &&& forall|g: int|
        0 <= g < groups.len() ==> (#[trigger] groups[g]).members@ == members_of(
            keys,
            group_key(groups[g]),
        ) && groups[g].members@.len() > 0
    &&& forall|i: int|
        0 <= i < keys.len() ==> exists|g: int|
            0 <= g < groups.len() && group_key(#[trigger] groups[g]) == #[trigger] keys[i]
}

proof fn lemma_members_len(keys: Seq<(usize, ColorCode)>, key: (usize, ColorCode))
    ensures
        members_of(keys, key).len() <= keys.len(),
        members_of(keys, key).len() > 0 ==> exists|i: int| 0 <= i < keys.len() && keys[i] == key,
    decreases keys.len(),
{
    if keys.len() > 0 {
        lemma_members_len(keys.drop_last(), key);
        if members_of(keys.drop_last(), key).len() > 0 {
            let i = choose|i: int| 0 <= i < keys.drop_last().len() && keys.drop_last()[i] == key;
            assert(keys[i] == key);
        }
    }
}

/// Groups the placements by (file, color): one group per distinct key, each
/// with the positions of its placements in walk order.
pub fn group_instances(instances: &Vec<GeometryInstance>) -> (groups: Vec<InstanceGroup>)
    ensures
        groups_match(keys_of(instances@), groups@),
{
    let ghost keys = keys_of(instances@);
    let mut groups: Vec<InstanceGroup> = Vec::new();
    let mut i: usize = 0;
    assert(keys.take(0) =~= Seq::<(usize, ColorCode)>::empty());
    while i < instances.len()
        invariant
            i <= instances@.len(),
            keys == keys_of(instances@),
            groups_match(keys.take(i as int), groups@),
        decreases instances@.len() - i,
    {
        let file = instances[i].file;
        let color = instances[i].color;
        let ghost prev = keys.take(i as int);
        let ghost next = keys.take(i + 1);
        assert(next.drop_last() =~= prev);
        assert(next.last() == (file, color));
        assert forall|k: (usize, ColorCode)| k != (file, color) implies members_of(next, k)
            == members_of(prev, k) by {}
        assert(members_of(next, (file, color)) == members_of(prev, (file, color)).push(i));
        let mut g: usize = 0;
        while g < groups.len() && !(groups[g].file == file && groups[g].color == color)
            invariant
                g <= groups@.len(),
                forall|h: int| 0 <= h < g ==> group_key(#[trigger] groups@[h]) != (file, color),
            decreases groups@.len() - g,
        {
            g = g + 1;
        }
        let ghost old_groups = groups@;
        if g < groups.len() {
            groups[g].members.push(i);
            assert forall|h: int| 0 <= h < groups@.len() && h != g implies groups@[h] == old_groups[h] by {}
            assert(group_key(groups@[g as int]) == (file, color));
            assert forall|h: int| 0 <= h < groups@.len() implies (#[trigger] groups@[h]).members@
                == members_of(next, group_key(groups@[h])) && groups@[h].members@.len() > 0 by {
                if h != g {
                    assert(group_key(old_groups[h]) != (file, color));
                }
            }
            assert forall|j: int| 0 <= j < next.len() implies exists|h: int|
                0 <= h < groups@.len() && group_key(#[trigger] groups@[h]) == #[trigger] next[j] by {
                if j < prev.len() {
                    assert(next[j] == prev[j]);
                    let h = choose|h: int| 0 <= h < old_groups.len() && group_key(old_groups[h]) == prev[j];
                    assert(group_key(groups@[h]) == next[j]);
                } else {
                    assert(group_key(groups@[g as int]) == next[j]);
                }
            }
        } else {
            proof {
                lemma_members_len(prev, (file, color));
                if members_of(prev, (file, color)).len() > 0 {
                    let j = choose|j: int| 0 <= j < prev.len() && prev[j] == (file, color);
                    let h = choose|h: int| 0 <= h < groups@.len() && group_key(groups@[h]) == prev[j];
                    assert(group_key(groups@[h]) == (file, color));
                }
                assert(members_of(prev, (file, color)) =~= Seq::<usize>::empty());
            }
            let mut members: Vec<usize> = Vec::new();
            members.push(i);
            groups.push(InstanceGroup { file, color, members });
            assert(groups@[old_groups.len() as int].members@ =~= members_of(next, (file, color)));
            assert forall|j: int| 0 <= j < next.len() implies exists|h: int|
                0 <= h < groups@.len() && group_key(#[trigger] groups@[h]) == #[trigger] next[j] by {
                if j < prev.len() {
                    assert(next[j] == prev[j]);
                    let h = choose|h: int| 0 <= h < old_groups.len() && group_key(old_groups[h]) == prev[j];
                    assert(group_key(groups@[h]) == next[j]);
                } else {
                    assert(group_key(groups@[old_groups.len() as int]) == next[j]);
                }
            }
        }
        i = i + 1;
    }
    assert(keys.take(instances@.len() as int) =~= keys);
    groups
}

/// Walks the model from file `root` (resolved to the inherit sentinel, placed
/// at the identity), lists every leaf placement, groups the placements by
/// (file, color), and collects the geometry that the leaves need.
pub fn load_instances(t: &FileTable, root: usize) -> (r: LDrawSceneInstanced)
    requires
        t.wf(),
        root < t.len(),
    ensures
        instanced_scene_of(*t, root as int, r),
{
    let mut descriptors = GeometryDescriptors::new(t.files.len());
    assert(descriptors.slots@ =~= Seq::new(t.len(), |k: int| None::<GeometryInitDescriptor>));
    let mut instances: Vec<GeometryInstance> = Vec::new();
    let path: Vec<usize> = Vec::new();
    load_node_instanced(t, root, &path, CURRENT_COLOR, t.files.len(), &mut descriptors, &mut instances);
    assert(instances_view(Seq::<GeometryInstance>::empty()) =~= Seq::empty());
    let groups = group_instances(&instances);
    LDrawSceneInstanced {
        main_model_name: t.files[root].name.clone(),
        instances,
        groups,
        geometry_descriptors: descriptors,
    }
}

} // verus!

verus! {

proof fn lemma_member_listed(keys: Seq<(usize, ColorCode)>, i: int)
    requires
        0 <= i < keys.len(),
        keys.len() <= usize::MAX + 1,
    ensures
        members_of(keys, keys[i]).contains(i as usize),
    decreases keys.len(),
{
    if i == keys.len() - 1 {
        let m = members_of(keys, keys[i]);
        assert(m[m.len() - 1] == i as usize);
    } else {
        lemma_member_listed(keys.drop_last(), i);
        let m0 = members_of(keys.drop_last(), keys[i]);
        let j = choose|j: int| 0 <= j < m0.len() && m0[j] == i as usize;
        if keys.last() == keys[i] {
            assert(members_of(keys, keys[i])[j] == i as usize);
        } else {
            assert(members_of(keys, keys[i])[j] == i as usize);
        }
    }
}

/// Instances per color: two placements of the same file resolved to
/// different colors fall into two different groups, each of which lists its
/// own placement.
pub proof fn lemma_colors_grouped_apart(
    keys: Seq<(usize, ColorCode)>,
    groups: Seq<InstanceGroup>,
    i: int,
    j: int,
)
    requires
        groups_match(keys, groups),
        keys.len() <= usize::MAX + 1,
        0 <= i < keys.len(),
        0 <= j < keys.len(),
        keys[i].0 == keys[j].0,
        keys[i].1 != keys[j].1,
    ensures
        exists|a: int, b: int|
            0 <= a < groups.len() && 0 <= b < groups.len() && a != b && group_key(groups[a])
                == keys[i] && group_key(groups[b]) == keys[j] && groups[a].members@.contains(
                i as usize,
            ) && groups[b].members@.contains(j as usize),
{
    let a = choose|a: int| 0 <= a < groups.len() && group_key(#[trigger] groups[a]) == keys[i];
    let b = choose|b: int| 0 <= b < groups.len() && group_key(#[trigger] groups[b]) == keys[j];
    lemma_member_listed(keys, i);
    lemma_member_listed(keys, j);
    assert(group_key(groups[a]) == keys[i]);
    assert(group_key(groups[b]) == keys[j]);
}

/// Determinism of the grouping, up to the order of groups: any two groupings
/// of the same placements hold, for each group of one, a group of the other
/// with the same key and the same placements.
pub proof fn lemma_grouping_deterministic(
    keys: Seq<(usize, ColorCode)>,
    ga: Seq<InstanceGroup>,
    gb: Seq<InstanceGroup>,
    g: int,
)
    requires
        groups_match(keys, ga),
        groups_match(keys, gb),
        0 <= g < ga.len(),
    ensures
        exists|h: int|
            0 <= h < gb.len() && group_key(#[trigger] gb[h]) == group_key(ga[g]) && gb[h].members@
                == ga[g].members@,
{
    let key = group_key(ga[g]);
    assert(ga[g].members@ == members_of(keys, key));
    lemma_members_len(keys, key);
    let i = choose|i: int| 0 <= i < keys.len() && keys[i] == key;
    let h = choose|h: int| 0 <= h < gb.len() && group_key(#[trigger] gb[h]) == keys[i];
    assert(gb[h].members@ == members_of(keys, key));
}

} // verus!

verus! {

pub open spec fn occurrence_files(s: Seq<(usize, ColorCode, Seq<usize>)>) -> Seq<usize> {
    s.map_values(|o: (usize, ColorCode, Seq<usize>)| o.0)
}

/// The placements and the geometry table agree: the files of the leaf
/// placements, in walk order, are exactly the leaves whose geometry the walk
/// registers, whatever colors and placements they are reached with.
pub proof fn lemma_instances_have_geometry(
    t: FileTable,
    f: int,
    path: Seq<usize>,
    color: ColorCode,
    fuel: nat,
)
    ensures
        occurrence_files(occurrences(t, f, path, color, fuel)) == leaves(t, f, fuel),
    decreases fuel, 0nat, 0nat,
{
    if is_leaf_file(t.file(f)) {
        assert(occurrence_files(occurrences(t, f, path, color, fuel)) =~= leaves(t, f, fuel));
    } else if fuel == 0 {
        assert(occurrence_files(occurrences(t, f, path, color, fuel)) =~= leaves(t, f, fuel));
    } else {
        lemma_cmds_have_geometry(t, t.file(f).cmds@, path, color, (fuel - 1) as nat);
    }
}

proof fn lemma_cmds_have_geometry(
    t: FileTable,
    cmds: Seq<Command>,
    path: Seq<usize>,
    color: ColorCode,
    fuel: nat,
)
    ensures
        occurrence_files(occurrences_cmds(t, cmds, path, color, fuel)) == crate::scene::leaves_cmds(
            t,
            cmds,
            fuel,
        ),
    decreases fuel, 1nat, cmds.len(),
{
    if cmds.len() == 0 {
        assert(occurrence_files(occurrences_cmds(t, cmds, path, color, fuel)) =~= Seq::empty());
    } else {
        let c = cmds.last();
        lemma_cmds_have_geometry(t, cmds.drop_last(), path, color, fuel);
        if let Some(tg) = ref_target(c) {
            let child_path = path.push(sub_ref(c).matrix);
            let child_color = resolved_color(sub_ref(c).color, color);
            lemma_instances_have_geometry(t, tg as int, child_path, child_color, fuel);
            let a = occurrences_cmds(t, cmds.drop_last(), path, color, fuel);
            let b = occurrences(t, tg as int, child_path, child_color, fuel);
            assert(occurrence_files(a + b) =~= occurrence_files(a) + occurrence_files(b));
        }
    }
}

} // verus!

verus! {

/// What `load_instances` promises of its result for file `root` of `t`.
pub open spec fn instanced_scene_of(t: FileTable, root: int, r: LDrawSceneInstanced) -> bool {
    &&& r.main_model_name@ == t.file(root).name@
    &&& instances_view(r.instances@) == occurrences(t, root, Seq::empty(), CURRENT_COLOR, t.len())
    &&& groups_match(keys_of(r.instances@), r.groups@)
    &&& r.geometry_descriptors.slots@ == register(
        Seq::new(t.len(), |k: int| None),
        leaves(t, root, t.len()),
    )
}

/// Determinism of instanced loading: two instanced scenes loaded from the
/// same table and root hold the same placements in the same order and the
/// same geometry descriptors; their groups then correspond key for key, as
/// `lemma_grouping_deterministic` shows.
pub proof fn lemma_instanced_deterministic(
    t: FileTable,
    root: int,
    a: LDrawSceneInstanced,
    b: LDrawSceneInstanced,
)
    requires
        instanced_scene_of(t, root, a),
        instanced_scene_of(t, root, b),
    ensures
        a.main_model_name@ == b.main_model_name@,
        instances_view(a.instances@) == instances_view(b.instances@),
        keys_of(a.instances@) == keys_of(b.instances@),
        a.geometry_descriptors.slots@ == b.geometry_descriptors.slots@,
        groups_match(keys_of(a.instances@), b.groups@),
{
    let va = instances_view(a.instances@);
    let vb = instances_view(b.instances@);
    assert(va.len() == a.instances@.len() && vb.len() == b.instances@.len());
    assert(keys_of(a.instances@) =~= keys_of(b.instances@)) by {
        assert forall|i: int| 0 <= i < a.instances@.len() implies keys_of(a.instances@)[i]
            == keys_of(b.instances@)[i] by {
            assert(va[i] == instance_view(a.instances@[i]));
            assert(vb[i] == instance_view(b.instances@[i]));
        }
    }
}

} // verus!
