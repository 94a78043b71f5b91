//! The triangle mesh of the Godot extension: triangles, positions and normals.

use crate::mesh::topology::{
    edge_from_key, key_edge, lemma_edge_map_bounds, lemma_replaced_never_grows, append_shifted, build_edge_map_arrays, edge_map_sound, edge_map_upto, faces_as_arrays,
    first_tri_with_edge, first_with_edge, flatten, flatten_triangles, flipped, group_indices,
    group_triangles, indices_in_range, is_degenerate, keep_marked, lemma_keep_marked,
    lemma_remap_keeps_distinct, lemma_remap_monotonic, remapped_tri,
    remove_unused_vertices, replaced, replaced_tri, shifted_tri, swap_triangle_indices,
    used_vertices, vertex_used, without_degenerate, Edge, EdgeOperations, Triangle,
};
use crate::mesh::trimesh::{
    cleaned, collapse_count, collapsed, decimated, decimation_run, merge_answer_holds, visits_each,
    merge_answers, merge_state, merged_tris, none_close_before, pass_answers, pass_fits,
    pass_result, planar_step_holds, unused_dropped,
};
use crate::vector::{copied, extend_copied, is_midpoint, midpoint};
use glam::Vec3;
use std::collections::HashMap;
use vstd::prelude::*;

verus! {

/// Container for triangle mesh data.
#[derive(Clone)]
pub struct TriangleMesh {
    /// Primary mesh buffer, listing the index of corresponding vertex positions and normals, in counter-clockwise face winding.
    pub triangles: Vec<Triangle>,
    /// Individual vertices of the mesh.
    pub positions: Vec<Vec3>,
    /// Normals of the mesh, assigned to vertices of corresponding index.
    pub normals: Vec<Vec3>,
}

impl TriangleMesh {
    /// True if every triangle refers only to existing vertex positions.
    pub open spec fn indices_valid(&self) -> bool {
        indices_in_range(self.triangles@, self.positions@.len())
    }

    /// For each vertex position, whether some triangle refers to it.
    pub open spec fn used_marks(&self) -> Seq<bool> {
        used_vertices(self.triangles@, self.positions@.len())
    }

    /// Creates a new TriangleMesh from the given mesh data.
    pub fn new(triangles: Vec<Triangle>, positions: Vec<Vec3>, normals: Option<Vec<Vec3>>) -> (r:
        Self)
        ensures
            r.triangles@ == triangles@,
            r.positions@ == positions@,
            r.normals@ == match normals {
                Some(n) => n@,
                None => Seq::empty(),
            },
    {
        Self {
            triangles,
            positions,
            // Default normals to an empty vector if not included
            normals: match normals {
                Some(n) => n,
                None => Vec::new(),
            },
        }
    }

    /// Creates a new TriangleMesh from a list of indices.
    /// Every three indices are expected to represent a triangle, with counter-clockwise face winding.
    /// Each index has a corresponding vertex position and normal.
    /// List of normals is optional.
    pub fn from_indices(indices: Vec<usize>, positions: Vec<Vec3>, normals: Option<Vec<Vec3>>) -> (r:
        Self)
        ensures
            r.triangles@ == group_triangles(indices@),
            r.positions@ == positions@,
            r.normals@ == match normals {
                Some(n) => n@,
                None => Seq::empty(),
            },
    {
        Self {
            triangles: group_indices(&indices),
            positions,
            // Default normals to an empty vector if not included
            normals: match normals {
                Some(n) => n,
                None => Vec::new(),
            },
        }
    }

    /// Joins the given mesh with this one, in place.
    /// Does not merge points or optimize the mesh in any way.
    pub fn join(&mut self, mesh: &Self)
        requires
            forall|t: int, k: int|
                0 <= t < mesh.triangles@.len() && 0 <= k < 3 ==> old(self).positions@.len()
                    + #[trigger] mesh.triangles@[t][k] <= usize::MAX,
        ensures
            final(self).positions@ == old(self).positions@ + mesh.positions@,
            final(self).normals@ == old(self).normals@ + mesh.normals@,
            final(self).triangles@ == old(self).triangles@ + mesh.triangles@.map_values(
                |t: Triangle| shifted_tri(t, old(self).positions@.len() as int),
            ),
            // each joined triangle still refers to the positions it referred to
            forall|t: int, k: int|
                0 <= t < mesh.triangles@.len() && 0 <= k < 3 && mesh.triangles@[t][k]
                    < mesh.positions@.len() ==> final(self).positions@[#[trigger] final(self).triangles@[old(self).triangles@.len() + t][k] as int]
                    == mesh.positions@[mesh.triangles@[t][k] as int],
    {
        let idx_count = self.positions.len();

        // Glomp in other mesh's positions and normals
        extend_copied(&mut self.positions, &mesh.positions);
        extend_copied(&mut self.normals, &mesh.normals);

        // Shift each triangle index based on our current number of points
        append_shifted(&mut self.triangles, &mesh.triangles, idx_count);
        proof {
            let shifted = mesh.triangles@.map_values(
                |t: Triangle| shifted_tri(t, idx_count as int),
            );
            assert forall|t: int, k: int|
                0 <= t < mesh.triangles@.len() && 0 <= k < 3 && mesh.triangles@[t][k]
                    < mesh.positions@.len() implies self.positions@[#[trigger] self.triangles@[old(self).triangles@.len() + t][k] as int]
                    == mesh.positions@[mesh.triangles@[t][k] as int] by {
                assert(self.triangles@[old(self).triangles@.len() + t] == shifted[t]);
                assert(shifted[t][k] == mesh.triangles@[t][k] + idx_count);
            }
        }
    }

    /// Returns the first left and right faces of an edge, if they exist.
    /// Note: very slow, prefer using `edge_map` instead if handling many edges.
    pub fn tris_for_edge(&self, edge: &Edge) -> (r: (Option<Triangle>, Option<Triangle>))
        ensures
            first_with_edge(self.triangles@, flipped(*edge), r.0),
            first_with_edge(self.triangles@, *edge, r.1),
    {
        let flip = edge.flip();
        let right = first_tri_with_edge(&self.triangles, edge);
        let left = first_tri_with_edge(&self.triangles, &flip);
        (left, right)
    }

    /// Returns the number of vertex positions in the mesh.
    pub fn count_vertices(&self) -> (r: usize)
        ensures
            r == self.positions@.len(),
    {
        self.positions.len()
    }

    /// Unwraps the triangles in the mesh and returns them as an ordered list of indices.
    pub fn indices(&self) -> (r: Vec<usize>)
        ensures
            r@ == flatten(self.triangles@),
    {
        flatten_triangles(&self.triangles)
    }

    /// Returns a hash map of edges, keyed by `edge_key` of the edge.
    /// For each edge, the left and right face index is returned, in order
    /// (0 for the right face when no face runs along the reversed edge).
    /// The mesh is assumed to be manifold (each edge has exactly two faces).
    pub fn edge_map(&self) -> (r: HashMap<u128, [usize; 2]>)
        ensures
            r@ == faces_as_arrays(edge_map_upto(self.triangles@, self.triangles@.len())),
            edge_map_sound(
                edge_map_upto(self.triangles@, self.triangles@.len()),
                self.triangles@,
                self.triangles@.len(),
            ),
    {
        build_edge_map_arrays(&self.triangles)
    }

    /// Removes an edge from the mesh by merging both vertices into a centerpoint.
    /// Does not remove degenerate geometry.
    pub fn edge_collapse(&mut self, edge: &Edge)
        requires
            edge[0] < old(self).positions@.len(),
            edge[1] < old(self).positions@.len(),
        ensures
            // the new vertex, the centerpoint of the edge, goes at the end of the positions
            final(self).positions@ == old(self).positions@.push(final(self).positions@.last()),
            is_midpoint(
                old(self).positions@[edge[0] as int],
                old(self).positions@[edge[1] as int],
                final(self).positions@.last(),
            ),
            final(self).triangles@ == old(self).triangles@.map_values(
                |t: Triangle|
                    replaced_tri(
                        t,
                        seq![
                            (edge[0], old(self).positions@.len() as usize),
                            (edge[1], old(self).positions@.len() as usize),
                        ],
                    ),
            ),
            final(self).normals == old(self).normals,
            // neither end of the collapsed edge is referred to any more
            forall|t: int, k: int|
                0 <= t < final(self).triangles@.len() && 0 <= k < 3
                    ==> #[trigger] final(self).triangles@[t][k] != edge[0]
                    && final(self).triangles@[t][k] != edge[1],
            // every other corner keeps its vertex; the collapsed ones take the new vertex
            forall|t: int, k: int|
                0 <= t < final(self).triangles@.len() && 0 <= k < 3 ==> {
                    let was = old(self).triangles@[t][k];
                    let now = #[trigger] final(self).triangles@[t][k];
                    ||| now == was && was != edge[0] && was != edge[1]
                    ||| now == old(self).positions@.len() && (was == edge[0] || was == edge[1])
                },
            old(self).indices_valid() ==> final(self).indices_valid(),
    {
        // Create a new vertex at the center of the edge
        let center = midpoint(self.positions[edge[0]], self.positions[edge[1]]);

        // Append vertex to end of positions list
        let new_idx = self.positions.len();
        self.positions.push(center);

        // Swap out old vertex indices for new one
        let mut replace: Vec<(usize, usize)> = Vec::new();
        replace.push((edge[0], new_idx));
        replace.push((edge[1], new_idx));
        let ghost pairs = seq![(edge[0], new_idx), (edge[1], new_idx)];
        proof {
            assert(replace@ =~= pairs);
        }
        self.swap_indices(replace);
        proof {
            assert forall|t: int, k: int|
                0 <= t < self.triangles@.len() && 0 <= k < 3 implies #[trigger] self.triangles@[t][k]
                != edge[0] && self.triangles@[t][k] != edge[1] && {
                let was = old(self).triangles@[t][k];
                let now = self.triangles@[t][k];
                ||| now == was && was != edge[0] && was != edge[1]
                ||| now == new_idx && (was == edge[0] || was == edge[1])
            } by {
                let v = old(self).triangles@[t][k];
                reveal_with_fuel(replaced, 3);
                assert(pairs.drop_last().drop_last() =~= Seq::<(usize, usize)>::empty());
                assert(pairs.drop_last().last() == (edge[0], new_idx));
                assert(self.triangles@[t][k] == replaced(v, pairs));
            }
        }
    }

    /// Decimates the mesh by collapsing every edge whose two faces `is_planar` accepts.
    /// The toolkit accepts two faces when the angle between them is below a threshold.
    /// Each pass collapses the accepted edges of the map of edges, in the map's order (an
    /// edge without a right face is tested against face 0), then removes degenerate
    /// triangles; when a pass collapses no more than `minimum_dropout` edges, the algorithm
    /// stops decimating triangles. Unused vertices are removed at the end.
    #[verifier::spinoff_prover]
    pub fn decimate_planar<F>(&mut self, is_planar: F, iterations: i32, minimum_dropout: u32)
        where
            F: Fn(&Vec<Vec3>, &Triangle, &Triangle) -> bool,
        requires
            old(self).indices_valid(),
            old(self).normals@.len() <= old(self).positions@.len(),
            forall|p: &Vec<Vec3>, a: &Triangle, b: &Triangle| #[trigger] is_planar.requires((p, a, b)),
        ensures
            iterations <= 0 ==> *final(self) == *old(self),
            // the result is a run of passes of collapses that `is_planar` accepted, each pass
            // cleaned of degenerate triangles, and then the unused vertices dropped
            iterations > 0 ==> exists|passes: Seq<(Seq<(u128, (usize, usize))>, Seq<Option<(Edge, Vec3)>>)>|
                {
                    &&& #[trigger] decimation_run(
                        is_planar,
                        old(self).triangles@,
                        old(self).positions@,
                        passes,
                        iterations as nat,
                        minimum_dropout as nat,
                        false,
                    )
                    &&& (final(self).triangles@, final(self).positions@, final(self).normals@)
                        == unused_dropped(
                        decimated(old(self).triangles@, old(self).positions@, passes).0,
                        decimated(old(self).triangles@, old(self).positions@, passes).1,
                        old(self).normals@,
                    )
                },
            iterations > 0 ==> {
                &&& final(self).indices_valid()
                &&& forall|t: int|
                    0 <= t < final(self).triangles@.len() ==> !is_degenerate(
                        #[trigger] final(self).triangles@[t],
                    )
                &&& forall|v: int|
                    0 <= v < final(self).positions@.len() ==> #[trigger] vertex_used(
                        final(self).triangles@,
                        v,
                    )
                &&& final(self).triangles@.len() <= old(self).triangles@.len()
                &&& final(self).normals@.len() <= final(self).positions@.len()
            },
    {
        // Do nothing if invalid.
        if iterations <= 0 {
            return;
        }

        let ghost tri_count = self.triangles@.len();
        let ghost tris0 = self.triangles@;
        let ghost pos0 = self.positions@;
        let ghost mut passes: Seq<(Seq<(u128, (usize, usize))>, Seq<Option<(Edge, Vec3)>>)> =
            Seq::empty();
        let mut pass: i32 = 0;
        while pass < iterations
            invariant_except_break
                forall|p: int|
                    0 <= p < passes.len() ==> collapse_count(#[trigger] passes[p].1)
                        > minimum_dropout,
            invariant
                iterations > 0,
                0 <= pass <= iterations,
                self.indices_valid(),
                self.normals@.len() <= self.positions@.len(),
                self.triangles@.len() <= tri_count,
                self.normals == old(self).normals,
                forall|p: &Vec<Vec3>, a: &Triangle, b: &Triangle| #[trigger] is_planar.requires(
                    (p, a, b),
                ),
                pass > 0 ==> forall|t: int|
                    0 <= t < self.triangles@.len() ==> !is_degenerate(#[trigger] self.triangles@[t]),
                passes.len() == pass,
                (self.triangles@, self.positions@) == decimated(tris0, pos0, passes),
                forall|p: int|
                    0 <= p < passes.len() ==> #[trigger] pass_fits(
                        is_planar,
                        decimated(tris0, pos0, passes.take(p)),
                        passes[p],
                        false,
                    ),
            ensures
                self.indices_valid(),
                self.normals@.len() <= self.positions@.len(),
                self.triangles@.len() <= tri_count,
                self.normals == old(self).normals,
                forall|t: int|
                    0 <= t < self.triangles@.len() ==> !is_degenerate(#[trigger] self.triangles@[t]),
                (self.triangles@, self.positions@) == decimated(tris0, pos0, passes),
                decimation_run(
                    is_planar,
                    tris0,
                    pos0,
                    passes,
                    iterations as nat,
                    minimum_dropout as nat,
                    false,
                ),
            decreases iterations - pass,
        {
            // Get a list of all edges in the trimesh
            let edges = self.edge_map();
            let ghost tris_p = self.triangles@;
            let ghost pos_p = self.positions@;
            let ghost faces_map = edge_map_upto(self.triangles@, self.triangles@.len());
            let ghost m = edges@;
            let ghost vertex_count = self.positions@.len();
            let ghost face_count = self.triangles@.len();
            proof {
                lemma_edge_map_bounds(faces_map, self.triangles@, vertex_count);
                assert(m.dom() =~= faces_map.dom());
            }
            let edge_total = edges.len();

            // Collapse all edges below the threshold
            let mut count: usize = 0;
            let ghost mut visited: Seq<(u128, (usize, usize))> = Seq::empty();
            let ghost mut steps: Seq<Option<(Edge, Vec3)>> = Seq::empty();
            for (key, faces) in it: edges.iter()
                invariant
                    edges@ == m,
                    m == faces_as_arrays(faces_map),
                    m.dom() == faces_map.dom(),
                    faces_map == edge_map_upto(tris_p, tris_p.len()),
                    edge_total == m.len(),
                    forall|k: u128|
                        #[trigger] faces_map.contains_key(k) ==> key_edge(k)[0] < vertex_count
                            && key_edge(k)[1] < vertex_count && faces_map[k].0 < face_count
                            && faces_map[k].1 < face_count,
                    vertex_count == pos_p.len(),
                    tris_p.len() == face_count,
                    vertex_count <= self.positions@.len(),
                    self.triangles@.len() == face_count,
                    face_count <= tri_count,
                    self.indices_valid(),
                    self.normals@.len() <= self.positions@.len(),
                    self.normals == old(self).normals,
                    forall|p: &Vec<Vec3>, a: &Triangle, b: &Triangle| #[trigger] is_planar.requires(
                        (p, a, b),
                    ),
                    count <= it.index(),
                    it.index() <= m.len(),
                    it.seq().len() == m.dom().len(),
                    forall|i: int|
                        0 <= i < it.seq().len() ==> #[trigger] m.contains_key(*it.seq()[i].0)
                            && m[*it.seq()[i].0] == *it.seq()[i].1,
                    it.seq().no_duplicates(),
                    visited.len() == it.index(),
                    forall|i: int|
                        0 <= i < visited.len() ==> #[trigger] faces_map.contains_key(visited[i].0)
                            && faces_map[visited[i].0] == visited[i].1
                            && visited[i].0 == *it.seq()[i].0,
                    forall|i: int, j: int|
                        0 <= i < j < visited.len() ==> #[trigger] visited[i].0 != #[trigger] visited[j].0,
                    count == collapse_count(steps),
                    (self.triangles@, self.positions@) == pass_result(tris_p, pos_p, steps),
                    pass_answers(is_planar, tris_p, pos_p, visited, steps, false),
            {
                proof {
                    assert(m.contains_key(*key));
                    assert(faces_map.contains_key(*key));
                }
                let ghost before = steps;
                let ghost seen = visited;
                let edge = edge_from_key(*key);
                let left_idx = faces[0];
                let right_idx = faces[1];
                let left = self.triangles[left_idx];
                let right = self.triangles[right_idx];
                let ghost tested = self.positions;
                let accepted = is_planar(&self.positions, &left, &right);
                proof {
                    assert(is_planar.ensures(
                        (&tested, &self.triangles@[left_idx as int], &self.triangles@[right_idx as int]),
                        accepted,
                    ));
                }
                if accepted {
                    let ghost prev_tris = self.triangles@;
                    let ghost prev_pos = self.positions@;
                    self.edge_collapse(&edge);
                    count += 1;
                    proof {
                        let c = self.positions@.last();
                        steps = steps.push(Some((edge, c)));
                        assert(steps.drop_last() =~= before);
                        assert(self.triangles@ =~= collapsed(prev_tris, prev_pos, edge, c).0);
                    }
                } else {
                    proof {
                        steps = steps.push(None);
                        assert(steps.drop_last() =~= before);
                    }
                }
                proof {
                    let entry = (*key, (faces[0], faces[1]));
                    visited = visited.push(entry);
                    assert forall|i: int, j: int|
                        0 <= i < j < visited.len() implies #[trigger] visited[i].0 != #[trigger] visited[j].0 by {
                        if j == seen.len() && visited[i].0 == visited[j].0 {
                            assert(it.seq()[i] == it.seq()[j]);
                        }
                    }
                    assert forall|k: int| 0 <= k < visited.len() implies #[trigger] planar_step_holds(
                        is_planar,
                        pass_result(tris_p, pos_p, steps.take(k)).0,
                        pass_result(tris_p, pos_p, steps.take(k)).1,
                        visited[k],
                        false,
                        steps[k],
                    ) by {
                        if k < before.len() {
                            assert(steps.take(k) =~= before.take(k));
                            assert(visited[k] == seen[k]);
                            assert(steps[k] == before[k]);
                        } else {
                            assert(steps.take(k) =~= before);
                            assert(visited[k] == entry);
                            assert(entry.1 == (left_idx, right_idx));
                            assert(tested@ == pass_result(tris_p, pos_p, before).1);
                            assert(is_planar.ensures(
                                (&tested, &pass_result(tris_p, pos_p, before).0[left_idx as int], &pass_result(tris_p, pos_p, before).0[right_idx as int]),
                                steps[k] is Some,
                            ));
                        }
                    }
                }
            }

            proof {
                assert(visited.len() == faces_map.dom().len());
                assert(visits_each(visited, faces_map));
                assert(pass_fits(is_planar, (tris_p, pos_p), (visited, steps), false));
            }

            // Clean up mesh after decimation
            self.remove_degenerate();
            pass += 1;
            proof {
                let np = (visited, steps);
                let old_passes = passes;
                passes = passes.push(np);
                assert(passes.drop_last() =~= old_passes);
                assert(passes.take(old_passes.len() as int) =~= old_passes);
                assert forall|p: int| 0 <= p < passes.len() implies #[trigger] pass_fits(
                    is_planar,
                    decimated(tris0, pos0, passes.take(p)),
                    passes[p],
                    false,
                ) by {
                    if p < old_passes.len() {
                        assert(passes.take(p) =~= old_passes.take(p));
                    } else {
                        assert(passes.take(p) =~= old_passes);
                        assert(decimated(tris0, pos0, old_passes) == (tris_p, pos_p));
                    }
                }
            }

            // End decimation if nothing changed
            if count <= minimum_dropout as usize {
                break;
            }
        }

        self.remove_unused();
        proof {
            assert(decimation_run(
                is_planar,
                tris0,
                pos0,
                passes,
                iterations as nat,
                minimum_dropout as nat,
                false,
            ));
        }
    }

    /// Merges every vertex that `is_close` finds near an earlier one into it, merging later
    /// vertices into earlier ones. The toolkit finds two vertices close when their distance
    /// is within a threshold.
    /// Vertices are taken from the back; each is compared, from the front, with the earlier
    /// vertices as merged so far (a merged vertex moves to the midpoint of the two), and the
    /// first close one takes over its triangle corners.
    /// This operation occurs in place; vertex positions themselves are left as they are.
    /// Does not remove degenerate triangles.
    pub fn merge_by_distance<F>(&mut self, is_close: F)
        where
            F: Fn(&Vec3, &Vec3) -> bool,
        requires
            forall|a: &Vec3, b: &Vec3| #[trigger] is_close.requires((a, b)),
        ensures
            // the corners are renumbered by the pairs that the answers of `is_close` give
            exists|choices: Seq<Option<(usize, Vec3)>>|
                {
                    &&& choices.len() == old(self).positions@.len()
                    &&& #[trigger] merge_answers(is_close, old(self).positions@, choices)
                    &&& final(self).triangles@ == old(self).triangles@.map_values(
                        |t: Triangle| replaced_tri(t, merge_state(old(self).positions@, choices).1),
                    )
                },
            // every corner either keeps its vertex or moves to an earlier one
            final(self).triangles@.len() == old(self).triangles@.len(),
            forall|t: int, k: int|
                0 <= t < old(self).triangles@.len() && 0 <= k < 3
                    ==> #[trigger] final(self).triangles@[t][k] <= old(self).triangles@[t][k],
            old(self).indices_valid() ==> final(self).indices_valid(),
            final(self).positions == old(self).positions,
            final(self).normals == old(self).normals,
    {
        let ghost p = self.positions@;
        let ghost n = p.len();
        // Array of new, merged vertices
        let mut new_verts: Vec<Vec3> = copied(&self.positions);
        // List of vertex indices: (replace, new)
        let mut replace: Vec<(usize, usize)> = Vec::new();
        // The answers of `is_close` so far, one per vertex handled
        let ghost mut choices: Seq<Option<(usize, Vec3)>> = Seq::empty();

        // Start from the back of the array
        let mut i: usize = self.positions.len();
        while i > 0
            invariant
                i <= n,
                n == p.len(),
                p == self.positions@,
                new_verts@.len() >= i,
                self.positions == old(self).positions,
                forall|a: &Vec3, b: &Vec3| #[trigger] is_close.requires((a, b)),
                forall|q: int| 0 <= q < replace@.len() ==> #[trigger] replace@[q].1 < replace@[q].0,
                choices.len() == n - i,
                merge_answers(is_close, p, choices),
                merge_state(p, choices).0.len() == n,
                replace@ == merge_state(p, choices).1,
                forall|k: int| 0 <= k < i ==> #[trigger] new_verts@[k] == merge_state(p, choices).0[k],
            decreases i,
        {
            i -= 1;
            let vert = self.positions[i];
            let ghost merged = merge_state(p, choices).0;
            let ghost verts_before = new_verts@;
            let ghost mut merged_value: Vec3 = vert;
            let ghost replace_before = replace@;
            let mut found = false;
            // ...read forward until we hit our current index
            let mut j: usize = 0;
            while j < i
                invariant_except_break
                    !found,
                    new_verts@ == verts_before,
                    replace@ == replace_before,
                invariant
                    j <= i,
                    i < n,
                    n == p.len(),
                    vert == p[i as int],
                    verts_before.len() >= i + 1,
                    merged.len() == n,
                    forall|k: int| 0 <= k < i ==> #[trigger] verts_before[k] == merged[k],
                    forall|a: &Vec3, b: &Vec3| #[trigger] is_close.requires((a, b)),
                    forall|q: int| 0 <= q < replace_before.len() ==> #[trigger] replace_before[q].1
                        < replace_before[q].0,
                    none_close_before(is_close, p[i as int], merged, j as int),
                ensures
                    found ==> {
                        &&& j < i
                        &&& is_close.ensures((&p[i as int], &merged[j as int]), true)
                        &&& is_midpoint(p[i as int], merged[j as int], merged_value)
                        &&& new_verts@ == verts_before.remove(i as int).update(
                            j as int,
                            merged_value,
                        )
                        &&& replace@ == replace_before.push((i, j))
                    },
                    !found ==> j == i && new_verts@ == verts_before && replace@ == replace_before,
                decreases i - j,
            {
                let close = is_close(&vert, &new_verts[j]);
                if close {
                    // Remove vertices at the back of the new list
                    new_verts.remove(i);
                    // ...and modify the vertices at the front to be the midpoint
                    proof {
                        assert(new_verts@[j as int] == merged[j as int]);
                    }
                    let merged_vert = midpoint(vert, new_verts[j]);
                    new_verts.set(j, merged_vert);
                    proof {
                        merged_value = merged_vert;
                    }

                    // ...and note what vertices to replace
                    replace.push((i, j));

                    found = true;
                    break;
                }
                proof {
                    assert(verts_before[j as int] == merged[j as int]);
                    assert forall|l: int| 0 <= l < j + 1 implies #[trigger] is_close.ensures(
                        (&p[i as int], &merged[l]),
                        false,
                    ) by {
                        if l < j {
                            assert(none_close_before(is_close, p[i as int], merged, j as int));
                        }
                    }
                }
                j += 1;
            }
            proof {
                let before = choices;
                let choice = if found {
                    Some((j, merged_value))
                } else {
                    None
                };
                choices = before.push(choice);
                assert(choices.drop_last() =~= before);
                assert(choices.take(before.len() as int) =~= before);
                assert(merge_answer_holds(is_close, p, merged, i as int, choice));
                assert forall|k: int| 0 <= k < choices.len() implies #[trigger] merge_answer_holds(
                    is_close,
                    p,
                    merge_state(p, choices.take(k)).0,
                    p.len() - 1 - k,
                    choices[k],
                ) by {
                    if k < before.len() {
                        assert(choices.take(k) =~= before.take(k));
                        assert(choices[k] == before[k]);
                    }
                }
                let next = merge_state(p, choices);
                assert(next.1 == replace@);
                assert forall|k: int| 0 <= k < i implies #[trigger] new_verts@[k] == next.0[k] by {
                    assert(verts_before[k] == merged[k]);
                }
            }
        }

        // Finally, update triangle indices
        let ghost pairs = replace@;
        self.swap_indices(replace);
        proof {
            assert(choices.len() == old(self).positions@.len());
            assert(merge_answers(is_close, old(self).positions@, choices));
            assert forall|t: int, k: int|
                0 <= t < old(self).triangles@.len() && 0 <= k < 3 implies #[trigger] self.triangles@[t][k]
                <= old(self).triangles@[t][k] by {
                lemma_replaced_never_grows(old(self).triangles@[t][k], pairs);
                assert(self.triangles@[t] == replaced_tri(old(self).triangles@[t], pairs));
            }
        }
    }

    /// Performs all existing optimization steps on the triangle mesh: merges the vertices
    /// that `is_close` finds near earlier ones, then removes degenerate triangles and
    /// unused vertices.
    pub fn optimize<F>(&mut self, is_close: F)
        where
            F: Fn(&Vec3, &Vec3) -> bool,
        requires
            old(self).indices_valid(),
            old(self).normals@.len() <= old(self).positions@.len(),
            forall|a: &Vec3, b: &Vec3| #[trigger] is_close.requires((a, b)),
        ensures
            // the result is merging, then degenerate-triangle removal, then unused-vertex removal
            exists|choices: Seq<Option<(usize, Vec3)>>|
                {
                    &&& choices.len() == old(self).positions@.len()
                    &&& #[trigger] merge_answers(is_close, old(self).positions@, choices)
                    &&& (final(self).triangles@, final(self).positions@, final(self).normals@)
                        == cleaned(
                        merged_tris(old(self).triangles@, old(self).positions@, choices),
                        old(self).positions@,
                        old(self).normals@,
                    )
                },
            final(self).indices_valid(),
            forall|t: int|
                0 <= t < final(self).triangles@.len() ==> !is_degenerate(
                    #[trigger] final(self).triangles@[t],
                ),
            forall|v: int| 0 <= v < final(self).positions@.len() ==> #[trigger] vertex_used(
                final(self).triangles@,
                v,
            ),
            final(self).triangles@.len() <= old(self).triangles@.len(),
            final(self).normals@.len() <= final(self).positions@.len(),
    {
        self.merge_by_distance(is_close);
        let ghost choices = choose|choices: Seq<Option<(usize, Vec3)>>|
            {
                &&& choices.len() == old(self).positions@.len()
                &&& #[trigger] merge_answers(is_close, old(self).positions@, choices)
                &&& self.triangles@ == old(self).triangles@.map_values(
                    |t: Triangle| replaced_tri(t, merge_state(old(self).positions@, choices).1),
                )
            };
        self.remove_degenerate();
        self.remove_unused();
        proof {
            assert(merge_answers(is_close, old(self).positions@, choices));
        }
    }

    /// Iterates over all triangles, replacing each vertex index value using the given tuple: (old, new).
    /// Does not remove degenerate triangles.
    pub fn swap_indices(&mut self, replace: Vec<(usize, usize)>)
        ensures
            final(self).triangles@ == old(self).triangles@.map_values(
                |t: Triangle| replaced_tri(t, replace@),
            ),
            final(self).positions == old(self).positions,
            final(self).normals == old(self).normals,
    {
        swap_triangle_indices(&mut self.triangles, &replace);
    }

    /// Removes degenerate triangles from the mesh.
    pub fn remove_degenerate(&mut self)
        ensures
            final(self).triangles@ == old(self).triangles@.filter(|t: Triangle| !is_degenerate(t)),
            forall|t: int|
                0 <= t < final(self).triangles@.len() ==> !is_degenerate(
                    #[trigger] final(self).triangles@[t],
                ),
            final(self).triangles@.len() <= old(self).triangles@.len(),
            old(self).indices_valid() ==> final(self).indices_valid(),
            final(self).positions == old(self).positions,
            final(self).normals == old(self).normals,
    {
        self.triangles = without_degenerate(&self.triangles);
    }

    /// Removes all unused vertex positions in the mesh, along with the normals of the same
    /// index, and moves each triangle index to the new place of its vertex.
    pub fn remove_unused(&mut self)
        requires
            old(self).indices_valid(),
            old(self).normals@.len() <= old(self).positions@.len(),
        ensures
            final(self).positions@ == keep_marked(old(self).positions@, old(self).used_marks()),
            final(self).normals@ == keep_marked(old(self).normals@, old(self).used_marks()),
            final(self).triangles@ == old(self).triangles@.map_values(
                |t: Triangle| remapped_tri(t, old(self).used_marks()),
            ),
            // no unused vertex is left
            forall|v: int| 0 <= v < final(self).positions@.len() ==> #[trigger] vertex_used(
                final(self).triangles@,
                v,
            ),
            // renumbering never merges two vertices of a triangle
            forall|t: int|
                0 <= t < final(self).triangles@.len() && !is_degenerate(old(self).triangles@[t])
                    ==> !is_degenerate(#[trigger] final(self).triangles@[t]),
            final(self).normals@.len() <= final(self).positions@.len(),
            // the mesh keeps its shape: every corner refers to the position it referred to
            final(self).indices_valid(),
            forall|t: int, k: int|
                0 <= t < old(self).triangles@.len() && 0 <= k < 3 ==> final(self).positions@[
                #[trigger] final(self).triangles@[t][k] as int]
                    == old(self).positions@[old(self).triangles@[t][k] as int],
    {
        let ghost marks = self.used_marks();
        remove_unused_vertices(&mut self.triangles, &mut self.positions, &mut self.normals);
        proof {
            lemma_remap_keeps_distinct(old(self).triangles@, old(self).positions@.len());
            lemma_keep_marked(old(self).positions@, marks);
            lemma_keep_marked(old(self).normals@, marks);
            lemma_remap_monotonic(
                marks,
                old(self).normals@.len() as int,
                old(self).positions@.len() as int,
            );
        }
    }

    /// Bakes all normals into mesh data. The normals are left as they are for now.
    pub fn bake_normals(&mut self)
        ensures
            final(self).triangles == old(self).triangles,
            final(self).positions == old(self).positions,
            final(self).normals == old(self).normals,
    {
    }
}

} // verus!
