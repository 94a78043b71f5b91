//! The triangle mesh container and its topology operations.

use crate::mesh::topology::{
    append_shifted, build_edge_map, edge_from_key, lemma_replaced_never_grows, key_edge, lemma_edge_map_bounds, edge_map_sound, edge_map_upto, first_tri_with_edge,
    first_with_edge, flatten, flatten_triangles, flipped, group_indices, group_triangles,
    indices_in_range, is_degenerate, keep_marked, lemma_keep_marked, lemma_remap_keeps_distinct,
    lemma_remap_monotonic, remapped_tri, remove_unused_vertices,
    replaced, replaced_tri, shifted_tri, swap_triangle_indices, used_vertices, vertex_used,
    without_degenerate, tri_has_edge, Edge, EdgeOperations, Triangle,
};
use crate::vector::{copied, extend_copied, is_midpoint, midpoint, shrink_buffer};
use glam::{Vec2, Vec3, Vec4};
use std::collections::HashMap;
use vstd::prelude::*;

verus! {

/// An edge with a face (index 0) and the face that runs along the reversed edge (index 1),
/// where 0 stands for no such face.
pub type EdgeTriangles = (usize, usize);

/// Merging by distance, once the last `choices.len()` vertices have been handled (taken from
/// the back): the vertices as merged so far and the pairs `(vertex, earlier vertex)` noted.
/// `choices[k]` is, for the vertex handled at step `k`, the earlier vertex it merged into
/// with the value that earlier vertex took (the midpoint of the two), if it merged.
pub open spec fn merge_state(positions: Seq<Vec3>, choices: Seq<Option<(usize, Vec3)>>) -> (
    Seq<Vec3>,
    Seq<(usize, usize)>,
)
    decreases choices.len(),
{
    if choices.len() == 0 {
        (positions, Seq::empty())
    } else {
        let prev = merge_state(positions, choices.drop_last());
        let i = positions.len() - choices.len();
        match choices.last() {
            Some((j, m)) => (prev.0.update(j as int, m), prev.1.push((i as usize, j))),
            None => prev,
        }
    }
}

/// The triangles with their corners renumbered by the pairs of a merging run.
pub open spec fn merged_tris(
    tris: Seq<Triangle>,
    positions: Seq<Vec3>,
    choices: Seq<Option<(usize, Vec3)>>,
) -> Seq<Triangle> {
    tris.map_values(|t: Triangle| replaced_tri(t, merge_state(positions, choices).1))
}

/// The triangles, positions and normals once the vertices no triangle uses (and the normals
/// of the same index) are dropped and the triangles renumbered.
pub open spec fn unused_dropped<N>(tris: Seq<Triangle>, positions: Seq<Vec3>, normals: Seq<N>) -> (
    Seq<Triangle>,
    Seq<Vec3>,
    Seq<N>,
) {
    let marks = used_vertices(tris, positions.len());
    (
        tris.map_values(|t: Triangle| remapped_tri(t, marks)),
        keep_marked(positions, marks),
        keep_marked(normals, marks),
    )
}

/// The mesh once degenerate triangles are removed and then unused vertices dropped.
pub open spec fn cleaned<N>(tris: Seq<Triangle>, positions: Seq<Vec3>, normals: Seq<N>) -> (
    Seq<Triangle>,
    Seq<Vec3>,
    Seq<N>,
) {
    unused_dropped(tris.filter(|t: Triangle| !is_degenerate(t)), positions, normals)
}

/// The mesh once the edge `e` is collapsed into a new vertex at `c`, pushed after the others:
/// every corner at either end of `e` moves to the new vertex.
pub open spec fn collapsed(tris: Seq<Triangle>, positions: Seq<Vec3>, e: Edge, c: Vec3) -> (
    Seq<Triangle>,
    Seq<Vec3>,
) {
    let n = positions.len() as usize;
    (tris.map_values(|t: Triangle| replaced_tri(t, seq![(e[0], n), (e[1], n)])), positions.push(c))
}

/// Collapsing an edge leaves every triangle that runs along it (in either direction)
/// degenerate, so the cleanup that ends each pass of planar decimation removes it.
pub proof fn law_collapse_degenerates_faces(
    tris: Seq<Triangle>,
    positions: Seq<Vec3>,
    e: Edge,
    c: Vec3,
    f: int,
)
    requires
        0 <= f < tris.len(),
        e[0] < positions.len(),
        e[1] < positions.len(),
        tri_has_edge(tris[f], e) || tri_has_edge(tris[f], flipped(e)),
    ensures
        is_degenerate(collapsed(tris, positions, e, c).0[f]),
{
    let n = positions.len() as usize;
    let pairs = seq![(e[0], n), (e[1], n)];
    reveal_with_fuel(replaced, 3);
    assert(pairs.drop_last().drop_last() =~= Seq::<(usize, usize)>::empty());
    assert(pairs.drop_last().last() == (e[0], n));
    assert(replaced(e[0], pairs) == n);
    assert(replaced(e[1], pairs) == n);
}

/// The mesh once the collapses of one pass of planar decimation are made in turn: each step
/// either collapses an edge into a new vertex or leaves the mesh as it is.
pub open spec fn pass_result(
    tris: Seq<Triangle>,
    positions: Seq<Vec3>,
    steps: Seq<Option<(Edge, Vec3)>>,
) -> (Seq<Triangle>, Seq<Vec3>)
    decreases steps.len(),
{
    if steps.len() == 0 {
        (tris, positions)
    } else {
        let prev = pass_result(tris, positions, steps.drop_last());
        match steps.last() {
            Some((e, c)) => collapsed(prev.0, prev.1, e, c),
            None => prev,
        }
    }
}

/// The number of steps that collapsed an edge.
pub open spec fn collapse_count(steps: Seq<Option<(Edge, Vec3)>>) -> nat
    decreases steps.len(),
{
    if steps.len() == 0 {
        0
    } else {
        collapse_count(steps.drop_last()) + if steps.last() is Some {
            1nat
        } else {
            0nat
        }
    }
}

/// The step taken for the visited edge `entry` (its key, its left and right face) on the
/// mesh `(tris, positions)` is what `is_planar` answered for its two faces: a collapse of
/// that edge when it accepted them, none when it refused them. Where `skip_unpaired` holds,
/// an edge whose right face is 0 (none) is not tested and not collapsed.
pub open spec fn planar_step_holds<F: Fn(&Vec<Vec3>, &Triangle, &Triangle) -> bool>(
    is_planar: F,
    tris: Seq<Triangle>,
    positions: Seq<Vec3>,
    entry: (u128, (usize, usize)),
    skip_unpaired: bool,
    step: Option<(Edge, Vec3)>,
) -> bool {
    let (l, r) = entry.1;
    if skip_unpaired && r == 0 {
        step is None
    } else {
        &&& step matches Some((e, c)) ==> e == key_edge(entry.0) && is_midpoint(
            positions[e[0] as int],
            positions[e[1] as int],
            c,
        )
        &&& exists|v: Vec<Vec3>|
            v@ == positions && #[trigger] is_planar.ensures(
                (&v, &tris[l as int], &tris[r as int]),
                step is Some,
            )
    }
}

/// Every step of a pass over the edges of `order` is what `is_planar` answered on the mesh
/// as the steps before it left it.
pub open spec fn pass_answers<F: Fn(&Vec<Vec3>, &Triangle, &Triangle) -> bool>(
    is_planar: F,
    tris: Seq<Triangle>,
    positions: Seq<Vec3>,
    order: Seq<(u128, (usize, usize))>,
    steps: Seq<Option<(Edge, Vec3)>>,
    skip_unpaired: bool,
) -> bool {
    &&& steps.len() == order.len()
    &&& forall|k: int|
        0 <= k < order.len() ==> #[trigger] planar_step_holds(
            is_planar,
            pass_result(tris, positions, steps.take(k)).0,
            pass_result(tris, positions, steps.take(k)).1,
            order[k],
            skip_unpaired,
            steps[k],
        )
}

/// `order` goes over the entries of the map of edges `m`, each once.
pub open spec fn visits_each(order: Seq<(u128, (usize, usize))>, m: Map<u128, (usize, usize)>) -> bool {
    &&& order.len() == m.dom().len()
    &&& forall|i: int|
        0 <= i < order.len() ==> #[trigger] m.contains_key(order[i].0) && m[order[i].0]
            == order[i].1
    &&& forall|i: int, j: int| 0 <= i < j < order.len() ==> #[trigger] order[i].0 != #[trigger] order[j].0
}

/// The mesh after the passes of a planar decimation run, each pass followed by the removal of
/// the degenerate triangles. A pass is the order in which it visited the edges and its steps.
pub open spec fn decimated(
    tris: Seq<Triangle>,
    positions: Seq<Vec3>,
    passes: Seq<(Seq<(u128, (usize, usize))>, Seq<Option<(Edge, Vec3)>>)>,
) -> (Seq<Triangle>, Seq<Vec3>)
    decreases passes.len(),
{
    if passes.len() == 0 {
        (tris, positions)
    } else {
        let prev = decimated(tris, positions, passes.drop_last());
        let after = pass_result(prev.0, prev.1, passes.last().1);
        (after.0.filter(|t: Triangle| !is_degenerate(t)), after.1)
    }
}

/// The pass visits every edge of the map of edges of `mesh`, once each, and every step is
/// what `is_planar` answered.
pub open spec fn pass_fits<F: Fn(&Vec<Vec3>, &Triangle, &Triangle) -> bool>(
    is_planar: F,
    mesh: (Seq<Triangle>, Seq<Vec3>),
    pass: (Seq<(u128, (usize, usize))>, Seq<Option<(Edge, Vec3)>>),
    skip_unpaired: bool,
) -> bool {
    &&& visits_each(pass.0, edge_map_upto(mesh.0, mesh.0.len()))
    &&& pass_answers(is_planar, mesh.0, mesh.1, pass.0, pass.1, skip_unpaired)
}

/// `passes` is a run of planar decimation from the mesh `(tris, positions)`: each pass goes
/// over the map of edges of the mesh as the passes before left it; every pass but the last
/// collapsed more than `dropout` edges; and the run stops after `iterations` passes or after
/// the first pass that collapsed no more than `dropout` edges.
pub open spec fn decimation_run<F: Fn(&Vec<Vec3>, &Triangle, &Triangle) -> bool>(
    is_planar: F,
    tris: Seq<Triangle>,
    positions: Seq<Vec3>,
    passes: Seq<(Seq<(u128, (usize, usize))>, Seq<Option<(Edge, Vec3)>>)>,
    iterations: nat,
    dropout: nat,
    skip_unpaired: bool,
) -> bool {
    &&& 1 <= passes.len() <= iterations
    &&& forall|p: int|
        0 <= p < passes.len() ==> #[trigger] pass_fits(
            is_planar,
            decimated(tris, positions, passes.take(p)),
            passes[p],
            skip_unpaired,
        )
    &&& forall|p: int| 0 <= p < passes.len() - 1 ==> collapse_count(#[trigger] passes[p].1) > dropout
    &&& passes.len() < iterations ==> collapse_count(passes.last().1) <= dropout
}

/// In a run of planar decimation, every collapse appends one vertex, a midpoint of the two
/// ends of the collapsed edge as the mesh stood just before that step, moves every corner at
/// either end onto it, and collapses the edge of the map entry that the step visited.
pub proof fn law_decimation_collapses_into_midpoints<F: Fn(&Vec<Vec3>, &Triangle, &Triangle) -> bool>(
    is_planar: F,
    tris: Seq<Triangle>,
    positions: Seq<Vec3>,
    passes: Seq<(Seq<(u128, (usize, usize))>, Seq<Option<(Edge, Vec3)>>)>,
    iterations: nat,
    dropout: nat,
    skip_unpaired: bool,
    p: int,
    k: int,
)
    requires
        decimation_run(is_planar, tris, positions, passes, iterations, dropout, skip_unpaired),
        0 <= p < passes.len(),
        0 <= k < passes[p].1.len(),
    ensures
        ({
            let mesh = decimated(tris, positions, passes.take(p));
            let before = pass_result(mesh.0, mesh.1, passes[p].1.take(k));
            let after = pass_result(mesh.0, mesh.1, passes[p].1.take(k + 1));
            passes[p].1[k] matches Some((e, c)) ==> {
                &&& e == key_edge(passes[p].0[k].0)
                &&& is_midpoint(before.1[e[0] as int], before.1[e[1] as int], c)
                &&& after.1 == before.1.push(c)
                &&& after.0 == before.0.map_values(
                    |t: Triangle|
                        replaced_tri(
                            t,
                            seq![(e[0], before.1.len() as usize), (e[1], before.1.len() as usize)],
                        ),
                )
            }
        }),
{
    let mesh = decimated(tris, positions, passes.take(p));
    let steps = passes[p].1;
    assert(pass_fits(is_planar, mesh, passes[p], skip_unpaired));
    assert(planar_step_holds(
        is_planar,
        pass_result(mesh.0, mesh.1, steps.take(k)).0,
        pass_result(mesh.0, mesh.1, steps.take(k)).1,
        passes[p].0[k],
        skip_unpaired,
        steps[k],
    ));
    assert(steps.take(k + 1).drop_last() =~= steps.take(k));
}

/// In a run of merging by distance, when the vertex handled at step `k` merges into an
/// earlier vertex `j`, it is one that `is_close` found close to it, and `j` moves to a
/// midpoint of the merged vertex and `j`'s value so far; no other vertex moves.
pub proof fn law_merge_moves_to_midpoint<F: Fn(&Vec3, &Vec3) -> bool>(
    is_close: F,
    positions: Seq<Vec3>,
    choices: Seq<Option<(usize, Vec3)>>,
    k: int,
)
    requires
        merge_answers(is_close, positions, choices),
        0 <= k < choices.len(),
    ensures
        ({
            let i = positions.len() - 1 - k;
            let merged = merge_state(positions, choices.take(k)).0;
            let next = merge_state(positions, choices.take(k + 1)).0;
            &&& choices[k] matches Some((j, m)) ==> {
                &&& j < i
                &&& is_close.ensures((&positions[i], &merged[j as int]), true)
                &&& is_midpoint(positions[i], merged[j as int], m)
                &&& next == merged.update(j as int, m)
            }
            &&& choices[k] is None ==> next == merged
        }),
{
    assert(merge_answer_holds(
        is_close,
        positions,
        merge_state(positions, choices.take(k)).0,
        positions.len() - 1 - k,
        choices[k],
    ));
    assert(choices.take(k + 1).drop_last() =~= choices.take(k));
}

/// `is_close` answered no for `v` and each of the first `j` vertices of `verts`.
pub open spec fn none_close_before<F: Fn(&Vec3, &Vec3) -> bool>(
    is_close: F,
    v: Vec3,
    verts: Seq<Vec3>,
    j: int,
) -> bool {
    forall|l: int| 0 <= l < j ==> #[trigger] is_close.ensures((&v, &verts[l]), false)
}

/// The choice made for vertex `i` against the vertices as merged so far is what `is_close`
/// answered: the first earlier vertex, from the front, that it found close, or none when it
/// found none close.
pub open spec fn merge_answer_holds<F: Fn(&Vec3, &Vec3) -> bool>(
    is_close: F,
    positions: Seq<Vec3>,
    merged: Seq<Vec3>,
    i: int,
    choice: Option<(usize, Vec3)>,
) -> bool {
    match choice {
        Some((j, m)) => j < i && is_close.ensures((&positions[i], &merged[j as int]), true)
            && is_midpoint(positions[i], merged[j as int], m)
            && none_close_before(is_close, positions[i], merged, j as int),
        None => none_close_before(is_close, positions[i], merged, i),
    }
}

/// Every choice of a run of merging by distance over `positions` is what `is_close` answered.
pub open spec fn merge_answers<F: Fn(&Vec3, &Vec3) -> bool>(
    is_close: F,
    positions: Seq<Vec3>,
    choices: Seq<Option<(usize, Vec3)>>,
) -> bool {
    &&& choices.len() <= positions.len()
    &&& forall|k: int|
        0 <= k < choices.len() ==> #[trigger] merge_answer_holds(
            is_close,
            positions,
            merge_state(positions, choices.take(k)).0,
            positions.len() - 1 - k,
            choices[k],
        )
}

/// Container for triangle mesh data.
#[derive(Clone, PartialEq, Default)]
pub struct TriangleMesh {
    /// Primary mesh buffer, listing the index of corresponding vertex positions and normals, in counter-clockwise face winding.
    pub triangles: Vec<Triangle>,
    /// Individual vertices of the mesh.
    pub positions: Vec<Vec3>,
    /// Normals of the mesh, assigned to vertices of the corresponding index.
    pub normals: Vec<Vec3>,
    /// Optional color data, assigned to vertices of the corresponding index.
    pub colors: Vec<Vec4>,
    /// Optional first UV channel.
    pub uv1: Option<Vec<Vec2>>,
    /// Optional second UV channel.
    pub uv2: Option<Vec<Vec2>>,
}

/// The vertex data of an optional buffer, empty when absent.
pub open spec fn buffer_or_empty<T>(b: Option<Vec<T>>) -> Seq<T> {
    match b {
        Some(v) => v@,
        None => Seq::empty(),
    }
}

impl TriangleMesh {
    /// True if every triangle refers only to existing vertex positions.
    pub open spec fn indices_valid(&self) -> bool {
        indices_in_range(self.triangles@, self.positions@.len())
    }

    /// For each vertex position, whether some triangle refers to it.
    pub open spec fn used_marks(&self) -> Seq<bool> {
        used_vertices(self.triangles@, self.positions@.len())
    }

    /// Creates a new TriangleMesh from the given mesh data.
    pub fn new(
        triangles: Vec<Triangle>,
        positions: Vec<Vec3>,
        normals: Option<Vec<Vec3>>,
        colors: Option<Vec<Vec4>>,
    ) -> (r: Self)
        ensures
            r.triangles@ == triangles@,
            r.positions@ == positions@,
            r.normals@ == buffer_or_empty(normals),
            r.colors@ == buffer_or_empty(colors),
            r.uv1 is None,
            r.uv2 is None,
    {
        Self {
            triangles,
            positions,
            // Default normals to an empty vector if not included
            normals: match normals {
                Some(n) => n,
                None => Vec::new(),
            },
            colors: match colors {
                Some(c) => c,
                None => Vec::new(),
            },
            uv1: None,
            uv2: None,
        }
    }

    /// Creates a new TriangleMesh from a list of indices.
    /// Every three indices are expected to represent a triangle, with counter-clockwise face winding.
    /// Each index has a corresponding vertex position and normal.
    /// A list of normals is optional.
    pub fn from_indices(indices: Vec<usize>, positions: Vec<Vec3>, normals: Option<Vec<Vec3>>) -> (r:
        Self)
        ensures
            r.triangles@ == group_triangles(indices@),
            r.positions@ == positions@,
            r.normals@ == buffer_or_empty(normals),
            r.colors@ == Seq::<Vec4>::empty(),
            r.uv1 is None,
            r.uv2 is None,
    {
        Self {
            triangles: group_indices(&indices),
            positions,
            // Default normals to an empty vector if not included
            normals: match normals {
                Some(n) => n,
                None => Vec::new(),
            },
            colors: Vec::new(),
            uv1: None,
            uv2: None,
        }
    }

    /// Joins the given mesh with this one, in place.
    /// Does not merge points or optimize the mesh in any way.
    pub fn join(&mut self, mesh: &Self)
        requires
            forall|t: int, k: int|
                0 <= t < mesh.triangles@.len() && 0 <= k < 3 ==> old(self).positions@.len()
                    + #[trigger] mesh.triangles@[t][k] <= usize::MAX,
        ensures
            final(self).positions@ == old(self).positions@ + mesh.positions@,
            final(self).normals@ == old(self).normals@ + mesh.normals@,
            final(self).triangles@ == old(self).triangles@ + mesh.triangles@.map_values(
                |t: Triangle| shifted_tri(t, old(self).positions@.len() as int),
            ),
            final(self).colors == old(self).colors,
            final(self).uv1 == old(self).uv1,
            final(self).uv2 == old(self).uv2,
            // each joined triangle still refers to the positions it referred to
            forall|t: int, k: int|
                0 <= t < mesh.triangles@.len() && 0 <= k < 3 && mesh.triangles@[t][k]
                    < mesh.positions@.len() ==> final(self).positions@[#[trigger] final(self).triangles@[old(self).triangles@.len() + t][k] as int]
                    == mesh.positions@[mesh.triangles@[t][k] as int],
    {
        let idx_count = self.positions.len();

        // Glomp in the other mesh's positions and normals
        extend_copied(&mut self.positions, &mesh.positions);
        extend_copied(&mut self.normals, &mesh.normals);

        // Shift each triangle index based on our current number of points
        append_shifted(&mut self.triangles, &mesh.triangles, idx_count);
        proof {
            let shifted = mesh.triangles@.map_values(
                |t: Triangle| shifted_tri(t, idx_count as int),
            );
            assert forall|t: int, k: int|
                0 <= t < mesh.triangles@.len() && 0 <= k < 3 && mesh.triangles@[t][k]
                    < mesh.positions@.len() implies self.positions@[#[trigger] self.triangles@[old(self).triangles@.len() + t][k] as int]
                    == mesh.positions@[mesh.triangles@[t][k] as int] by {
                assert(self.triangles@[old(self).triangles@.len() + t] == shifted[t]);
                assert(shifted[t][k] == mesh.triangles@[t][k] + idx_count);
            }
        }
    }

    /// Returns the first left and right faces of an edge, if they exist.
    /// Note: very slow, prefer using `edge_map` instead if handling many edges.
    pub fn tris_for_edge(&self, edge: &Edge) -> (r: (Option<Triangle>, Option<Triangle>))
        ensures
            first_with_edge(self.triangles@, flipped(*edge), r.0),
            first_with_edge(self.triangles@, *edge, r.1),
    {
        let flip = edge.flip();
        let right = first_tri_with_edge(&self.triangles, edge);
        let left = first_tri_with_edge(&self.triangles, &flip);
        (left, right)
    }

    /// Returns the number of vertex positions in the mesh.
    pub fn count_vertices(&self) -> (r: usize)
        ensures
            r == self.positions@.len(),
    {
        self.positions.len()
    }

    /// Unwraps the triangles in the mesh and returns them as an ordered list of indices.
    pub fn indices(&self) -> (r: Vec<usize>)
        ensures
            r@ == flatten(self.triangles@),
    {
        flatten_triangles(&self.triangles)
    }

    /// Returns a hash map of edges, keyed by `edge_key` of the edge.
    /// For each edge, the left and right face index is returned, in order.
    /// This method assumes that each edge has a maximum of two faces,
    /// but it does not expect the mesh to be watertight.
    /// The first face must not be degenerate: a face index on a reverse edge is never zero.
    pub fn edge_map(&self) -> (r: HashMap<u128, EdgeTriangles>)
        requires
            self.triangles@.len() > 0 ==> !is_degenerate(self.triangles@[0]),
        ensures
            r@ == edge_map_upto(self.triangles@, self.triangles@.len()),
            edge_map_sound(r@, self.triangles@, self.triangles@.len()),
    {
        build_edge_map(&self.triangles)
    }

    /// Removes an edge from the mesh by merging both vertices into a centerpoint.
    /// Does not remove degenerate geometry.
    pub fn edge_collapse(&mut self, edge: &Edge)
        requires
            edge[0] < old(self).positions@.len(),
            edge[1] < old(self).positions@.len(),
        ensures
            // the new vertex, the centerpoint of the edge, goes at the end of the positions
            final(self).positions@ == old(self).positions@.push(final(self).positions@.last()),
            is_midpoint(
                old(self).positions@[edge[0] as int],
                old(self).positions@[edge[1] as int],
                final(self).positions@.last(),
            ),
            final(self).triangles@ == old(self).triangles@.map_values(
                |t: Triangle|
                    replaced_tri(
                        t,
                        seq![
                            (edge[0], old(self).positions@.len() as usize),
                            (edge[1], old(self).positions@.len() as usize),
                        ],
                    ),
            ),
            final(self).normals == old(self).normals,
            final(self).colors == old(self).colors,
            final(self).uv1 == old(self).uv1,
            final(self).uv2 == old(self).uv2,
            // neither end of the collapsed edge is referred to any more
            forall|t: int, k: int|
                0 <= t < final(self).triangles@.len() && 0 <= k < 3
                    ==> #[trigger] final(self).triangles@[t][k] != edge[0]
                    && final(self).triangles@[t][k] != edge[1],
            // every other corner keeps its vertex; the collapsed ones take the new vertex
            forall|t: int, k: int|
                0 <= t < final(self).triangles@.len() && 0 <= k < 3 ==> {
                    let was = old(self).triangles@[t][k];
                    let now = #[trigger] final(self).triangles@[t][k];
                    ||| now == was && was != edge[0] && was != edge[1]
                    ||| now == old(self).positions@.len() && (was == edge[0] || was == edge[1])
                },
            old(self).indices_valid() ==> final(self).indices_valid(),
    {
        // Create a new vertex at the center of the edge
        let center = midpoint(self.positions[edge[0]], self.positions[edge[1]]);

        // Append vertex to end of positions list
        let new_idx = self.positions.len();
        self.positions.push(center);

        // Swap out old vertex indices for new one
        let mut replace: Vec<(usize, usize)> = Vec::new();
        replace.push((edge[0], new_idx));
        replace.push((edge[1], new_idx));
        let ghost pairs = seq![(edge[0], new_idx), (edge[1], new_idx)];
        proof {
            assert(replace@ =~= pairs);
        }
        self.swap_indices(replace);
        proof {
            assert forall|t: int, k: int|
                0 <= t < self.triangles@.len() && 0 <= k < 3 implies #[trigger] self.triangles@[t][k]
                != edge[0] && self.triangles@[t][k] != edge[1] && {
                let was = old(self).triangles@[t][k];
                let now = self.triangles@[t][k];
                ||| now == was && was != edge[0] && was != edge[1]
                ||| now == new_idx && (was == edge[0] || was == edge[1])
            } by {
                let v = old(self).triangles@[t][k];
                reveal_with_fuel(replaced, 3);
                assert(pairs.drop_last().drop_last() =~= Seq::<(usize, usize)>::empty());
                assert(pairs.drop_last().last() == (edge[0], new_idx));
                assert(self.triangles@[t][k] == replaced(v, pairs));
            }
        }
    }

    /// Decimates the mesh by collapsing every edge whose two faces `is_planar` accepts.
    /// The toolkit accepts two faces when the angle between them is below a threshold.
    /// Each pass collapses the accepted edges of the map of edges, in the map's order, then
    /// removes degenerate triangles; when a pass collapses no more than `minimum_dropout`
    /// edges, the algorithm stops decimating triangles. Unused vertices are removed at the end.
    #[verifier::spinoff_prover]
    pub fn decimate_planar<F>(&mut self, is_planar: F, iterations: u32, minimum_dropout: u32)
        where
            F: Fn(&Vec<Vec3>, &Triangle, &Triangle) -> bool,
        requires
            old(self).indices_valid(),
            old(self).normals@.len() <= old(self).positions@.len(),
            old(self).triangles@.len() > 0 ==> !is_degenerate(old(self).triangles@[0]),
            forall|p: &Vec<Vec3>, a: &Triangle, b: &Triangle| #[trigger] is_planar.requires((p, a, b)),
        ensures
            iterations == 0 ==> *final(self) == *old(self),
            // the result is a run of passes of collapses that `is_planar` accepted, each pass
            // cleaned of degenerate triangles, and then the unused vertices dropped
            iterations > 0 ==> exists|passes: Seq<(Seq<(u128, (usize, usize))>, Seq<Option<(Edge, Vec3)>>)>|
                {
                    &&& #[trigger] decimation_run(
                        is_planar,
                        old(self).triangles@,
                        old(self).positions@,
                        passes,
                        iterations as nat,
                        minimum_dropout as nat,
                        true,
                    )
                    &&& (final(self).triangles@, final(self).positions@, final(self).normals@)
                        == unused_dropped(
                        decimated(old(self).triangles@, old(self).positions@, passes).0,
                        decimated(old(self).triangles@, old(self).positions@, passes).1,
                        old(self).normals@,
                    )
                },
            iterations > 0 ==> {
                &&& final(self).indices_valid()
                &&& forall|t: int|
                    0 <= t < final(self).triangles@.len() ==> !is_degenerate(
                        #[trigger] final(self).triangles@[t],
                    )
                &&& forall|v: int|
                    0 <= v < final(self).positions@.len() ==> #[trigger] vertex_used(
                        final(self).triangles@,
                        v,
                    )
                &&& final(self).triangles@.len() <= old(self).triangles@.len()
                &&& final(self).normals@.len() <= final(self).positions@.len()
            },
            final(self).colors == old(self).colors,
            final(self).uv1 == old(self).uv1,
            final(self).uv2 == old(self).uv2,
    {
        // Do nothing if invalid.
        if iterations == 0 {
            return;
        }

        let ghost tri_count = self.triangles@.len();
        let ghost tris0 = self.triangles@;
        let ghost pos0 = self.positions@;
        let ghost mut passes: Seq<(Seq<(u128, (usize, usize))>, Seq<Option<(Edge, Vec3)>>)> =
            Seq::empty();
        let mut pass: u32 = 0;
        while pass < iterations
            invariant_except_break
                forall|p: int|
                    0 <= p < passes.len() ==> collapse_count(#[trigger] passes[p].1)
                        > minimum_dropout,
            invariant
                iterations > 0,
                self.indices_valid(),
                self.normals@.len() <= self.positions@.len(),
                self.triangles@.len() <= tri_count,
                self.normals == old(self).normals,
                self.colors == old(self).colors,
                self.uv1 == old(self).uv1,
                self.uv2 == old(self).uv2,
                forall|p: &Vec<Vec3>, a: &Triangle, b: &Triangle| #[trigger] is_planar.requires(
                    (p, a, b),
                ),
                pass > 0 ==> forall|t: int|
                    0 <= t < self.triangles@.len() ==> !is_degenerate(#[trigger] self.triangles@[t]),
                self.triangles@.len() > 0 ==> !is_degenerate(self.triangles@[0]),
                pass <= iterations,
                passes.len() == pass,
                (self.triangles@, self.positions@) == decimated(tris0, pos0, passes),
                forall|p: int|
                    0 <= p < passes.len() ==> #[trigger] pass_fits(
                        is_planar,
                        decimated(tris0, pos0, passes.take(p)),
                        passes[p],
                        true,
                    ),
            ensures
                self.indices_valid(),
                self.normals@.len() <= self.positions@.len(),
                self.triangles@.len() <= tri_count,
                self.normals == old(self).normals,
                self.colors == old(self).colors,
                self.uv1 == old(self).uv1,
                self.uv2 == old(self).uv2,
                forall|t: int|
                    0 <= t < self.triangles@.len() ==> !is_degenerate(#[trigger] self.triangles@[t]),
                (self.triangles@, self.positions@) == decimated(tris0, pos0, passes),
                decimation_run(
                    is_planar,
                    tris0,
                    pos0,
                    passes,
                    iterations as nat,
                    minimum_dropout as nat,
                    true,
                ),
            decreases iterations - pass,
        {
            // Get a list of all edges in the trimesh
            let edges = self.edge_map();
            let ghost m = edges@;
            let ghost tris_p = self.triangles@;
            let ghost pos_p = self.positions@;
            let ghost vertex_count = self.positions@.len();
            let ghost face_count = self.triangles@.len();
            proof {
                lemma_edge_map_bounds(m, self.triangles@, vertex_count);
            }
            let edge_total = edges.len();

            // Collapse all edges below the threshold
            let mut count: usize = 0;
            let ghost mut visited: Seq<(u128, (usize, usize))> = Seq::empty();
            let ghost mut steps: Seq<Option<(Edge, Vec3)>> = Seq::empty();
            for (key, faces) in it: edges.iter()
                invariant
                    edges@ == m,
                    m == edge_map_upto(tris_p, tris_p.len()),
                    edge_total == m.len(),
                    forall|k: u128|
                        #[trigger] m.contains_key(k) ==> key_edge(k)[0] < vertex_count && key_edge(
                            k,
                        )[1] < vertex_count && m[k].0 < face_count && m[k].1 < face_count,
                    vertex_count == pos_p.len(),
                    tris_p.len() == face_count,
                    vertex_count <= self.positions@.len(),
                    self.triangles@.len() == face_count,
                    face_count <= tri_count,
                    self.indices_valid(),
                    self.normals@.len() <= self.positions@.len(),
                    self.normals == old(self).normals,
                    self.colors == old(self).colors,
                    self.uv1 == old(self).uv1,
                    self.uv2 == old(self).uv2,
                    forall|p: &Vec<Vec3>, a: &Triangle, b: &Triangle| #[trigger] is_planar.requires(
                        (p, a, b),
                    ),
                    count <= it.index(),
                    it.index() <= m.len(),
                    it.seq().len() == m.dom().len(),
                    forall|i: int|
                        0 <= i < it.seq().len() ==> #[trigger] m.contains_key(*it.seq()[i].0)
                            && m[*it.seq()[i].0] == *it.seq()[i].1,
                    it.seq().no_duplicates(),
                    visited == it.seq().unref().take(it.index()),
                    count == collapse_count(steps),
                    (self.triangles@, self.positions@) == pass_result(tris_p, pos_p, steps),
                    pass_answers(is_planar, tris_p, pos_p, visited, steps, true),
            {
                proof {
                    assert(m.contains_key(*key));
                }
                let ghost before = steps;
                let edge = edge_from_key(*key);
                let (left_idx, right_idx) = *faces;
                let mut step_taken = false;
                if right_idx != 0 {
                    let left = self.triangles[left_idx];
                    let right = self.triangles[right_idx];
                    let accepted = is_planar(&self.positions, &left, &right);
                    proof {
                        assert(is_planar.ensures(
                            (&self.positions, &self.triangles@[left_idx as int], &self.triangles@[right_idx as int]),
                            accepted,
                        ));
                    }
                    if accepted {
                        let ghost prev_tris = self.triangles@;
                        let ghost prev_pos = self.positions@;
                        self.edge_collapse(&edge);
                        count += 1;
                        step_taken = true;
                        proof {
                            let c = self.positions@.last();
                            steps = steps.push(Some((edge, c)));
                            assert(steps.drop_last() =~= before);
                            assert(self.triangles@ =~= collapsed(prev_tris, prev_pos, edge, c).0);
                        }
                    }
                }
                proof {
                    if !step_taken {
                        steps = steps.push(None);
                        assert(steps.drop_last() =~= before);
                    }
                    let entry = (*key, *faces);
                    visited = visited.push(entry);
                    assert(visited =~= it.seq().unref().take(it.index() + 1));
                    assert forall|k: int| 0 <= k < visited.len() implies #[trigger] planar_step_holds(
                        is_planar,
                        pass_result(tris_p, pos_p, steps.take(k)).0,
                        pass_result(tris_p, pos_p, steps.take(k)).1,
                        visited[k],
                        true,
                        steps[k],
                    ) by {
                        if k < before.len() {
                            assert(steps.take(k) =~= before.take(k));
                        } else {
                            assert(steps.take(k) =~= before);
                        }
                    }
                }
            }

            proof {
                assert(visited.len() == m.dom().len());
                assert forall|i: int, j: int| 0 <= i < j < visited.len() implies #[trigger] visited[i].0
                    != #[trigger] visited[j].0 by {
                    if visited[i].0 == visited[j].0 {
                        assert(m[visited[i].0] == visited[i].1);
                        assert(m[visited[j].0] == visited[j].1);
                        assert(visited[i] == visited[j]);
                    }
                }
                assert(visits_each(visited, m));
                assert(pass_fits(is_planar, (tris_p, pos_p), (visited, steps), true));
            }

            // Clean up mesh after decimation
            self.remove_degenerate();
            pass += 1;
            proof {
                let np = (visited, steps);
                let old_passes = passes;
                passes = passes.push(np);
                assert(passes.drop_last() =~= old_passes);
                assert(passes.take(old_passes.len() as int) =~= old_passes);
                assert forall|p: int| 0 <= p < passes.len() implies #[trigger] pass_fits(
                    is_planar,
                    decimated(tris0, pos0, passes.take(p)),
                    passes[p],
                    true,
                ) by {
                    if p < old_passes.len() {
                        assert(passes.take(p) =~= old_passes.take(p));
                    } else {
                        assert(passes.take(p) =~= old_passes);
                        assert(decimated(tris0, pos0, old_passes) == (tris_p, pos_p));
                    }
                }
            }

            // End decimation if nothing changed
            if count <= minimum_dropout as usize {
                break;
            }
        }

        self.remove_unused();
        proof {
            assert(decimation_run(
                is_planar,
                tris0,
                pos0,
                passes,
                iterations as nat,
                minimum_dropout as nat,
                true,
            ));
        }
    }

    /// Merges every vertex that `is_close` finds near an earlier one into it, merging later
    /// vertices into earlier ones. The toolkit finds two vertices close when their distance
    /// is within a threshold.
    /// Vertices are taken from the back; each is compared, from the front, with the earlier
    /// vertices as merged so far (a merged vertex moves to the midpoint of the two), and the
    /// first close one takes over its triangle corners.
    /// This operation occurs in place; vertex positions themselves are left as they are.
    ///
    /// **Does not remove degenerate triangles or unused vertices.**
    /// Call `remove_degenerate` and `remove_unused` to clean up the mesh when you are done editing it.
    /// Or, to do everything at once, call `optimize`.
    pub fn merge_by_distance<F>(&mut self, is_close: F)
        where
            F: Fn(&Vec3, &Vec3) -> bool,
        requires
            forall|a: &Vec3, b: &Vec3| #[trigger] is_close.requires((a, b)),
        ensures
            // the corners are renumbered by the pairs that the answers of `is_close` give
            exists|choices: Seq<Option<(usize, Vec3)>>|
                {
                    &&& choices.len() == old(self).positions@.len()
                    &&& #[trigger] merge_answers(is_close, old(self).positions@, choices)
                    &&& final(self).triangles@ == old(self).triangles@.map_values(
                        |t: Triangle| replaced_tri(t, merge_state(old(self).positions@, choices).1),
                    )
                },
            // every corner either keeps its vertex or moves to an earlier one
            final(self).triangles@.len() == old(self).triangles@.len(),
            forall|t: int, k: int|
                0 <= t < old(self).triangles@.len() && 0 <= k < 3
                    ==> #[trigger] final(self).triangles@[t][k] <= old(self).triangles@[t][k],
            old(self).indices_valid() ==> final(self).indices_valid(),
            final(self).positions == old(self).positions,
            final(self).normals == old(self).normals,
            final(self).colors == old(self).colors,
            final(self).uv1 == old(self).uv1,
            final(self).uv2 == old(self).uv2,
    {
        let ghost p = self.positions@;
        let ghost n = p.len();
        // Array of new, merged vertices
        let mut new_verts: Vec<Vec3> = copied(&self.positions);
        // List of vertex indices: (replace, new)
        let mut replace: Vec<(usize, usize)> = Vec::new();
        // The answers of `is_close` so far, one per vertex handled
        let ghost mut choices: Seq<Option<(usize, Vec3)>> = Seq::empty();

        // Start from the back of the array
        let mut i: usize = self.positions.len();
        while i > 0
            invariant
                i <= n,
                n == p.len(),
                p == self.positions@,
                new_verts@.len() >= i,
                self.positions == old(self).positions,
                forall|a: &Vec3, b: &Vec3| #[trigger] is_close.requires((a, b)),
                forall|q: int| 0 <= q < replace@.len() ==> #[trigger] replace@[q].1 < replace@[q].0,
                choices.len() == n - i,
                merge_answers(is_close, p, choices),
                merge_state(p, choices).0.len() == n,
                replace@ == merge_state(p, choices).1,
                forall|k: int| 0 <= k < i ==> #[trigger] new_verts@[k] == merge_state(p, choices).0[k],
            decreases i,
        {
            i -= 1;
            let vert = self.positions[i];
            let ghost merged = merge_state(p, choices).0;
            let ghost verts_before = new_verts@;
            let ghost mut merged_value: Vec3 = vert;
            let ghost replace_before = replace@;
            let mut found = false;
            // ...read forward until we hit our current index
            let mut j: usize = 0;
            while j < i
                invariant_except_break
                    !found,
                    new_verts@ == verts_before,
                    replace@ == replace_before,
                invariant
                    j <= i,
                    i < n,
                    n == p.len(),
                    vert == p[i as int],
                    verts_before.len() >= i + 1,
                    merged.len() == n,
                    forall|k: int| 0 <= k < i ==> #[trigger] verts_before[k] == merged[k],
                    forall|a: &Vec3, b: &Vec3| #[trigger] is_close.requires((a, b)),
                    forall|q: int| 0 <= q < replace_before.len() ==> #[trigger] replace_before[q].1
                        < replace_before[q].0,
                    none_close_before(is_close, p[i as int], merged, j as int),
                ensures
                    found ==> {
                        &&& j < i
                        &&& is_close.ensures((&p[i as int], &merged[j as int]), true)
                        &&& is_midpoint(p[i as int], merged[j as int], merged_value)
                        &&& new_verts@ == verts_before.remove(i as int).update(
                            j as int,
                            merged_value,
                        )
                        &&& replace@ == replace_before.push((i, j))
                    },
                    !found ==> j == i && new_verts@ == verts_before && replace@ == replace_before,
                decreases i - j,
            {
                let close = is_close(&vert, &new_verts[j]);
                if close {
                    // Remove vertices at the back of the new list
                    new_verts.remove(i);
                    // ...and modify the vertices at the front to be the midpoint
                    proof {
                        assert(new_verts@[j as int] == merged[j as int]);
                    }
                    let merged_vert = midpoint(vert, new_verts[j]);
                    new_verts.set(j, merged_vert);
                    proof {
                        merged_value = merged_vert;
                    }

                    // ...and note what vertices to replace
                    replace.push((i, j));

                    found = true;
                    break;
                }
                proof {
                    assert(verts_before[j as int] == merged[j as int]);
                    assert forall|l: int| 0 <= l < j + 1 implies #[trigger] is_close.ensures(
                        (&p[i as int], &merged[l]),
                        false,
                    ) by {
                        if l < j {
                            assert(none_close_before(is_close, p[i as int], merged, j as int));
                        }
                    }
                }
                j += 1;
            }
            proof {
                let before = choices;
                let choice = if found {
                    Some((j, merged_value))
                } else {
                    None
                };
                choices = before.push(choice);
                assert(choices.drop_last() =~= before);
                assert(choices.take(before.len() as int) =~= before);
                assert(merge_answer_holds(is_close, p, merged, i as int, choice));
                assert forall|k: int| 0 <= k < choices.len() implies #[trigger] merge_answer_holds(
                    is_close,
                    p,
                    merge_state(p, choices.take(k)).0,
                    p.len() - 1 - k,
                    choices[k],
                ) by {
                    if k < before.len() {
                        assert(choices.take(k) =~= before.take(k));
                        assert(choices[k] == before[k]);
                    }
                }
                let next = merge_state(p, choices);
                assert(next.1 == replace@);
                assert forall|k: int| 0 <= k < i implies #[trigger] new_verts@[k] == next.0[k] by {
                    assert(verts_before[k] == merged[k]);
                }
            }
        }

        // Finally, update triangle indices
        let ghost pairs = replace@;
        self.swap_indices(replace);
        proof {
            assert(choices.len() == old(self).positions@.len());
            assert(merge_answers(is_close, old(self).positions@, choices));
            assert forall|t: int, k: int|
                0 <= t < old(self).triangles@.len() && 0 <= k < 3 implies #[trigger] self.triangles@[t][k]
                <= old(self).triangles@[t][k] by {
                lemma_replaced_never_grows(old(self).triangles@[t][k], pairs);
                assert(self.triangles@[t] == replaced_tri(old(self).triangles@[t], pairs));
            }
        }
    }

    /// Iterates over all triangles, replacing each vertex index value using the given tuple: (old, new).
    /// Does not remove degenerate triangles.
    pub fn swap_indices(&mut self, replace: Vec<(usize, usize)>)
        ensures
            final(self).triangles@ == old(self).triangles@.map_values(
                |t: Triangle| replaced_tri(t, replace@),
            ),
            final(self).positions == old(self).positions,
            final(self).normals == old(self).normals,
            final(self).colors == old(self).colors,
            final(self).uv1 == old(self).uv1,
            final(self).uv2 == old(self).uv2,
    {
        swap_triangle_indices(&mut self.triangles, &replace);
    }

    /// Removes degenerate triangles from the mesh.
    pub fn remove_degenerate(&mut self)
        ensures
            final(self).triangles@ == old(self).triangles@.filter(|t: Triangle| !is_degenerate(t)),
            forall|t: int|
                0 <= t < final(self).triangles@.len() ==> !is_degenerate(
                    #[trigger] final(self).triangles@[t],
                ),
            final(self).triangles@.len() <= old(self).triangles@.len(),
            old(self).indices_valid() ==> final(self).indices_valid(),
            final(self).positions == old(self).positions,
            final(self).normals == old(self).normals,
            final(self).colors == old(self).colors,
            final(self).uv1 == old(self).uv1,
            final(self).uv2 == old(self).uv2,
    {
        self.triangles = without_degenerate(&self.triangles);
    }

    /// Removes all unused vertex positions in the mesh, along with the normals of the same
    /// index, and moves each triangle index to the new place of its vertex.
    pub fn remove_unused(&mut self)
        requires
            old(self).indices_valid(),
            old(self).normals@.len() <= old(self).positions@.len(),
        ensures
            final(self).positions@ == keep_marked(old(self).positions@, old(self).used_marks()),
            final(self).normals@ == keep_marked(old(self).normals@, old(self).used_marks()),
            final(self).triangles@ == old(self).triangles@.map_values(
                |t: Triangle| remapped_tri(t, old(self).used_marks()),
            ),
            final(self).colors == old(self).colors,
            final(self).uv1 == old(self).uv1,
            final(self).uv2 == old(self).uv2,
            // no unused vertex is left
            forall|v: int| 0 <= v < final(self).positions@.len() ==> #[trigger] vertex_used(
                final(self).triangles@,
                v,
            ),
            // renumbering never merges two vertices of a triangle
            forall|t: int|
                0 <= t < final(self).triangles@.len() && !is_degenerate(old(self).triangles@[t])
                    ==> !is_degenerate(#[trigger] final(self).triangles@[t]),
            final(self).normals@.len() <= final(self).positions@.len(),
            // the mesh keeps its shape: every corner refers to the position it referred to
            final(self).indices_valid(),
            forall|t: int, k: int|
                0 <= t < old(self).triangles@.len() && 0 <= k < 3 ==> final(self).positions@[
                #[trigger] final(self).triangles@[t][k] as int]
                    == old(self).positions@[old(self).triangles@[t][k] as int],
    {
        let ghost marks = self.used_marks();
        remove_unused_vertices(&mut self.triangles, &mut self.positions, &mut self.normals);
        proof {
            lemma_remap_keeps_distinct(old(self).triangles@, old(self).positions@.len());
            lemma_keep_marked(old(self).positions@, marks);
            lemma_keep_marked(old(self).normals@, marks);
            lemma_remap_monotonic(
                marks,
                old(self).normals@.len() as int,
                old(self).positions@.len() as int,
            );
        }
    }

    /// Performs all existing optimization steps on the triangle mesh: merges the vertices
    /// that `is_close` finds near earlier ones, removes degenerate triangles and unused
    /// vertices, and shrinks the buffers.
    pub fn optimize<F>(&mut self, is_close: F)
        where
            F: Fn(&Vec3, &Vec3) -> bool,
        requires
            old(self).indices_valid(),
            old(self).normals@.len() <= old(self).positions@.len(),
            forall|a: &Vec3, b: &Vec3| #[trigger] is_close.requires((a, b)),
        ensures
            // the result is merging, then degenerate-triangle removal, then unused-vertex removal
            exists|choices: Seq<Option<(usize, Vec3)>>|
                {
                    &&& choices.len() == old(self).positions@.len()
                    &&& #[trigger] merge_answers(is_close, old(self).positions@, choices)
                    &&& (final(self).triangles@, final(self).positions@, final(self).normals@)
                        == cleaned(
                        merged_tris(old(self).triangles@, old(self).positions@, choices),
                        old(self).positions@,
                        old(self).normals@,
                    )
                },
            final(self).indices_valid(),
            forall|t: int|
                0 <= t < final(self).triangles@.len() ==> !is_degenerate(
                    #[trigger] final(self).triangles@[t],
                ),
            forall|v: int| 0 <= v < final(self).positions@.len() ==> #[trigger] vertex_used(
                final(self).triangles@,
                v,
            ),
            final(self).triangles@.len() <= old(self).triangles@.len(),
            final(self).normals@.len() <= final(self).positions@.len(),
            final(self).colors@ == old(self).colors@,
            buffer_or_empty(final(self).uv1) == buffer_or_empty(old(self).uv1),
            buffer_or_empty(final(self).uv2) == buffer_or_empty(old(self).uv2),
    {
        self.merge_by_distance(is_close);
        let ghost choices = choose|choices: Seq<Option<(usize, Vec3)>>|
            {
                &&& choices.len() == old(self).positions@.len()
                &&& #[trigger] merge_answers(is_close, old(self).positions@, choices)
                &&& self.triangles@ == old(self).triangles@.map_values(
                    |t: Triangle| replaced_tri(t, merge_state(old(self).positions@, choices).1),
                )
            };
        self.remove_degenerate();
        self.remove_unused();
        self.shrink_to_fit();
        proof {
            assert(merge_answers(is_close, old(self).positions@, choices));
        }
    }

    /// Shrinks mesh buffers to only use the necessary amount of memory.
    /// The contents of every buffer stay as they are.
    pub fn shrink_to_fit(&mut self)
        ensures
            final(self).triangles@ == old(self).triangles@,
            final(self).positions@ == old(self).positions@,
            final(self).normals@ == old(self).normals@,
            final(self).colors@ == old(self).colors@,
            buffer_or_empty(final(self).uv1) == buffer_or_empty(old(self).uv1),
            buffer_or_empty(final(self).uv2) == buffer_or_empty(old(self).uv2),
            final(self).uv1 is Some <==> old(self).uv1 is Some,
            final(self).uv2 is Some <==> old(self).uv2 is Some,
    {
        shrink_buffer(&mut self.triangles);
        shrink_buffer(&mut self.positions);
        shrink_buffer(&mut self.normals);
        shrink_buffer(&mut self.colors);
        if let Some(mut uv1) = self.uv1.take() {
            shrink_buffer(&mut uv1);
            self.uv1 = Some(uv1);
        }
        if let Some(mut uv2) = self.uv2.take() {
            shrink_buffer(&mut uv2);
            self.uv2 = Some(uv2);
        }
    }
}


} // verus!
