//! Edges and triangles as tuples of vertex indices, and the index-level
//! operations that every mesh container of the library shares.

use std::collections::HashMap;
use vstd::prelude::*;

verus! {

broadcast use vstd::std_specs::hash::group_hash_axioms;

/// A mesh edge of vertex indices. In counter-clockwise winding order.
pub type Edge = [usize; 2];

/// A mesh triangle of vertex indices. In counter-clockwise face winding order.
pub type Triangle = [usize; 3];

/// The edge with its two vertices in the opposite order.
pub open spec fn flipped(e: Edge) -> Edge {
    [e[1], e[0]]
}

/// True if the triangle runs along `e` in the direction of `e`.
pub open spec fn tri_has_edge(t: Triangle, e: Edge) -> bool {
    ||| e[0] == t[0] && e[1] == t[1]
    ||| e[0] == t[1] && e[1] == t[2]
    ||| e[0] == t[2] && e[1] == t[0]
}

/// The face-winded edges of a triangle.
pub open spec fn tri_edges(t: Triangle) -> [Edge; 3] {
    [[t[0], t[1]], [t[1], t[2]], [t[2], t[0]]]
}

/// Index-level operations on an edge.
pub trait EdgeOperations: Sized {
    /// Returns a new, flipped edge by changing vertex order.
    fn flip(&self) -> Self;
}

impl EdgeOperations for Edge {
    fn flip(&self) -> (r: Self)
        ensures
            r == flipped(*self),
    {
        [self[1], self[0]]
    }
}

/// Index-level operations on a triangle.
pub trait TriangleOperations: Sized {
    /// Returns true if two triangles are the same.
    fn equals(&self, other: &Triangle) -> bool;
    /// Returns a new, flipped triangle by changing vertex order.
    fn flip(&self) -> Self;
    /// Returns true if the triangle has this edge in its specified direction. False otherwise.
    fn has_edge(&self, edge: &Edge) -> bool;
    /// Returns a face-winded list of edges on this triangle.
    fn edges(&self) -> [Edge; 3];
}

impl TriangleOperations for Triangle {
    fn equals(&self, other: &Triangle) -> (r: bool)
        ensures
            r == (*self == *other),
    {
        let r = self[0] == other[0] && self[1] == other[1] && self[2] == other[2];
        proof {
            if r {
                assert(*self =~= *other);
            }
        }
        r
    }

    fn flip(&self) -> (r: Self)
        ensures
            r == [self[1], self[0], self[2]],
    {
        [self[1], self[0], self[2]]
    }

    fn has_edge(&self, edge: &Edge) -> (r: bool)
        ensures
            r == tri_has_edge(*self, *edge),
    {
        let mut i: usize = 0;
        while i < 3
            invariant
                i <= 3,
                forall|j: int|
                    0 <= j < i ==> !(edge[0] == #[trigger] self[j] && edge[1] == self[(j + 1) % 3]),
            decreases 3 - i,
        {
            if edge[0] == self[i] && edge[1] == self[(i + 1) % 3] {
                return true;
            }
            i += 1;
        }
        assert(!(edge[0] == self[0] && edge[1] == self[1]));
        assert(!(edge[0] == self[1] && edge[1] == self[2]));
        assert(!(edge[0] == self[2] && edge[1] == self[0]));
        false
    }

    fn edges(&self) -> (r: [Edge; 3])
        ensures
            r == tri_edges(*self),
    {
        [[self[0], self[1]], [self[1], self[2]], [self[2], self[0]]]
    }
}


/// The triangles' vertex indices, three per triangle, in triangle order.
pub open spec fn flatten(tris: Seq<Triangle>) -> Seq<usize>
    decreases tris.len(),
{
    if tris.len() == 0 {
        Seq::empty()
    } else {
        let t = tris.last();
        flatten(tris.drop_last()) + seq![t[0], t[1], t[2]]
    }
}

/// Every three consecutive indices as a triangle; trailing indices that do not
/// fill a triangle are dropped.
pub open spec fn group_triangles(indices: Seq<usize>) -> Seq<Triangle> {
    Seq::new(
        indices.len() / 3,
        |t: int| [indices[3 * t], indices[3 * t + 1], indices[3 * t + 2]],
    )
}

/// Flattening gives three indices per triangle, triangle `t` at positions `3t..3t+3`.
pub proof fn lemma_flatten(tris: Seq<Triangle>)
    ensures
        flatten(tris).len() == 3 * tris.len(),
        forall|t: int, k: int|
            0 <= t < tris.len() && 0 <= k < 3 ==> #[trigger] flatten(tris)[3 * t + k]
                == tris[t][k],
    decreases tris.len(),
{
    if tris.len() > 0 {
        lemma_flatten(tris.drop_last());
        let n = tris.len() - 1;
        assert forall|t: int, k: int|
            0 <= t < tris.len() && 0 <= k < 3 implies #[trigger] flatten(tris)[3 * t + k]
                == tris[t][k] by {
            if t < n {
                assert(flatten(tris)[3 * t + k] == flatten(tris.drop_last())[3 * t + k]);
            }
        }
    }
}

/// Grouping the flattened indices of a list of triangles gives back the triangles.
pub proof fn lemma_group_flatten(tris: Seq<Triangle>)
    ensures
        group_triangles(flatten(tris)) == tris,
{
    lemma_flatten(tris);
    let g = group_triangles(flatten(tris));
    assert(g.len() == tris.len());
    assert forall|t: int| 0 <= t < tris.len() implies g[t] == tris[t] by {
        let a = flatten(tris)[3 * t + 0];
        assert(a == tris[t][0]);
        assert(flatten(tris)[3 * t + 1] == tris[t][1]);
        assert(flatten(tris)[3 * t + 2] == tris[t][2]);
        assert(g[t] =~= tris[t]);
    }
    assert(g =~= tris);
}

/// The index that `v` becomes when the pairs `(old, new)` of `replace` are applied
/// in order, each one replacing `old` by `new`.
pub open spec fn replaced(v: usize, replace: Seq<(usize, usize)>) -> usize
    decreases replace.len(),
{
    if replace.len() == 0 {
        v
    } else {
        let w = replaced(v, replace.drop_last());
        if w == replace.last().0 {
            replace.last().1
        } else {
            w
        }
    }
}

/// When every pair replaces an index by a smaller one, no index grows.
pub proof fn lemma_replaced_never_grows(v: usize, replace: Seq<(usize, usize)>)
    requires
        forall|p: int| 0 <= p < replace.len() ==> #[trigger] replace[p].1 < replace[p].0,
    ensures
        replaced(v, replace) <= v,
    decreases replace.len(),
{
    if replace.len() > 0 {
        let r = replace.drop_last();
        assert forall|p: int| 0 <= p < r.len() implies #[trigger] r[p].1 < r[p].0 by {
            assert(r[p] == replace[p]);
        }
        lemma_replaced_never_grows(v, r);
        assert(replace.last() == replace[replace.len() - 1]);
    }
}

/// A triangle with every one of its vertex indices replaced as `replaced` says.
pub open spec fn replaced_tri(t: Triangle, replace: Seq<(usize, usize)>) -> Triangle {
    [replaced(t[0], replace), replaced(t[1], replace), replaced(t[2], replace)]
}

/// A triangle is degenerate when two of its vertex indices are the same.
pub open spec fn is_degenerate(t: Triangle) -> bool {
    t[0] == t[1] || t[0] == t[2] || t[1] == t[2]
}

/// True if some corner of some triangle refers to vertex `v`.
pub open spec fn vertex_used(tris: Seq<Triangle>, v: int) -> bool {
    exists|t: int, k: int| 0 <= t < tris.len() && 0 <= k < 3 && #[trigger] tris[t][k] == v
}

/// For each of the first `n` vertices, whether some triangle refers to it.
pub open spec fn used_vertices(tris: Seq<Triangle>, n: nat) -> Seq<bool> {
    Seq::new(n, |v: int| vertex_used(tris, v))
}

/// The number of marks that are set.
pub open spec fn count_marked(m: Seq<bool>) -> nat
    decreases m.len(),
{
    if m.len() == 0 {
        0
    } else {
        count_marked(m.drop_last()) + (if m.last() {
            1nat
        } else {
            0nat
        })
    }
}

/// The new position of element `i` once the unmarked elements before it are dropped.
pub open spec fn remap_index(m: Seq<bool>, i: int) -> nat {
    count_marked(m.take(i))
}

/// The elements of `s` whose mark (by index) is set, in order.
pub open spec fn keep_marked<A>(s: Seq<A>, m: Seq<bool>) -> Seq<A>
    decreases s.len(),
{
    if s.len() == 0 {
        Seq::empty()
    } else {
        let r = keep_marked(s.drop_last(), m);
        if m[s.len() - 1] {
            r.push(s.last())
        } else {
            r
        }
    }
}

/// Counting the marks of a prefix never exceeds counting those of a longer prefix, and a
/// set mark inside the longer prefix makes the count strictly larger.
pub proof fn lemma_remap_monotonic(m: Seq<bool>, i: int, j: int)
    requires
        0 <= i <= j <= m.len(),
    ensures
        remap_index(m, i) <= remap_index(m, j),
        i < j && m[i] ==> remap_index(m, i) < remap_index(m, j),
    decreases j - i,
{
    if i < j {
        lemma_remap_monotonic(m, i, j - 1);
        assert(m.take(j).drop_last() =~= m.take(j - 1));
        if m[i] && i == j - 1 {
            assert(m.take(j).last() == m[i]);
        }
    }
}

/// Keeping the marked elements gives one element per set mark, and the element that
/// stood at a marked index `i` moves to `remap_index(m, i)`.
pub proof fn lemma_keep_marked<A>(s: Seq<A>, m: Seq<bool>)
    requires
        s.len() <= m.len(),
    ensures
        keep_marked(s, m).len() == remap_index(m, s.len() as int),
        forall|i: int|
            0 <= i < s.len() && m[i] ==> remap_index(m, i) < keep_marked(s, m).len()
                && keep_marked(s, m)[#[trigger] remap_index(m, i) as int] == s[i],
    decreases s.len(),
{
    if s.len() > 0 {
        let n = s.len() - 1;
        lemma_keep_marked(s.drop_last(), m);
        assert(m.take(s.len() as int).drop_last() =~= m.take(n));
        assert forall|i: int|
            0 <= i < s.len() && m[i] implies remap_index(m, i) < keep_marked(s, m).len()
                && keep_marked(s, m)[#[trigger] remap_index(m, i) as int] == s[i] by {
            if i < n {
                lemma_remap_monotonic(m, i, n);
                assert(s.drop_last()[i] == s[i]);
            }
        }
    }
}

/// There are never more set marks than marks.
proof fn lemma_count_marked_bound(m: Seq<bool>)
    ensures
        count_marked(m) <= m.len(),
    decreases m.len(),
{
    if m.len() > 0 {
        lemma_count_marked_bound(m.drop_last());
    }
}

/// Every position below the number of set marks is where some marked element lands.
pub proof fn lemma_remap_onto(m: Seq<bool>, j: int)
    requires
        0 <= j < remap_index(m, m.len() as int),
    ensures
        exists|i: int| 0 <= i < m.len() && m[i] && #[trigger] remap_index(m, i) == j,
    decreases m.len(),
{
    let n = m.len() as int;
    let p = m.drop_last();
    assert(m.take(n) =~= m);
    assert(p.take(n - 1) =~= p);
    lemma_remap_step(m, n - 1);
    assert(m.take(n - 1) =~= p);
    if j < remap_index(p, n - 1) {
        lemma_remap_onto(p, j);
        let i = choose|i: int| 0 <= i < p.len() && p[i] && #[trigger] remap_index(p, i) == j;
        assert(p.take(i) =~= m.take(i));
        assert(remap_index(m, i) == j);
    } else {
        assert(remap_index(m, n - 1) == j);
    }
}

/// Once the unused vertices are dropped and the triangles renumbered, every vertex that
/// is left is used by some triangle.
pub proof fn lemma_remapped_all_used(tris: Seq<Triangle>, n: nat, nt: Seq<Triangle>)
    requires
        indices_in_range(tris, n),
        nt == tris.map_values(|t: Triangle| remapped_tri(t, used_vertices(tris, n))),
    ensures
        forall|v: int|
            0 <= v < remap_index(used_vertices(tris, n), n as int) ==> #[trigger] vertex_used(nt, v),
{
    let m = used_vertices(tris, n);
    assert forall|v: int| 0 <= v < remap_index(m, n as int) implies vertex_used(nt, v) by {
        lemma_remap_onto(m, v);
        let i = choose|i: int| 0 <= i < m.len() && m[i] && #[trigger] remap_index(m, i) == v;
        assert(vertex_used(tris, i));
        let (t, k) = choose|t: int, k: int|
            0 <= t < tris.len() && 0 <= k < 3 && #[trigger] tris[t][k] == i;
        assert(nt[t] == remapped_tri(tris[t], m));
        lemma_count_marked_bound(m.take(i));
        assert(nt[t][k] == v);
    }
}

/// Renumbering the vertices of triangles that only use marked vertices keeps the vertices of
/// a non-degenerate triangle distinct.
pub proof fn lemma_remap_keeps_distinct(tris: Seq<Triangle>, n: nat)
    requires
        indices_in_range(tris, n),
    ensures
        forall|t: int|
            0 <= t < tris.len() && !is_degenerate(tris[t]) ==> !is_degenerate(
                #[trigger] remapped_tri(tris[t], used_vertices(tris, n)),
            ),
{
    let m = used_vertices(tris, n);
    assert forall|t: int| 0 <= t < tris.len() && !is_degenerate(tris[t]) implies !is_degenerate(
        #[trigger] remapped_tri(tris[t], m),
    ) by {
        let tri = tris[t];
        assert forall|a: int, b: int| 0 <= a < 3 && 0 <= b < 3 && tri[a] < tri[b] implies remap_index(
            m,
            tri[a] as int,
        ) < remap_index(m, tri[b] as int) by {
            assert(tris[t][a] < n && tris[t][b] < n);
            assert(vertex_used(tris, tri[a] as int));
            lemma_remap_monotonic(m, tri[a] as int, tri[b] as int);
        }
        lemma_count_marked_bound(m.take(tri[0] as int));
        lemma_count_marked_bound(m.take(tri[1] as int));
        lemma_count_marked_bound(m.take(tri[2] as int));
        assert(tris[t][0] < n && tris[t][1] < n && tris[t][2] < n);
    }
}

/// Keeping the marked elements of a prefix one element longer adds that element when
/// its mark is set.
pub proof fn lemma_keep_marked_step<A>(s: Seq<A>, m: Seq<bool>, i: int)
    requires
        0 <= i < s.len(),
    ensures
        keep_marked(s.take(i + 1), m) == (if m[i] {
            keep_marked(s.take(i), m).push(s[i])
        } else {
            keep_marked(s.take(i), m)
        }),
{
    assert(s.take(i + 1).drop_last() =~= s.take(i));
}

/// Counting the marks of a prefix one element longer adds one when that mark is set.
pub proof fn lemma_remap_step(m: Seq<bool>, i: int)
    requires
        0 <= i < m.len(),
    ensures
        remap_index(m, i + 1) == remap_index(m, i) + (if m[i] {
            1nat
        } else {
            0nat
        }),
{
    assert(m.take(i + 1).drop_last() =~= m.take(i));
}

/// The number that keys the map of edges: the first vertex index times 2^64 plus the second.
pub open spec fn edge_key_of(e: Edge) -> u128 {
    (e[0] * 0x1_0000_0000_0000_0000 + e[1]) as u128
}

/// The edge that a key of the map of edges stands for.
pub open spec fn key_edge(k: u128) -> Edge {
    [(k / 0x1_0000_0000_0000_0000) as usize, (k % 0x1_0000_0000_0000_0000) as usize]
}

/// Keys and edges correspond one to one.
pub proof fn lemma_edge_key(e: Edge)
    ensures
        key_edge(edge_key_of(e)) == e,
        e[0] * 0x1_0000_0000_0000_0000 + e[1] < 0x1_0000_0000_0000_0000_0000_0000_0000_0000,
{
    let a = e[0] as int;
    let b = e[1] as int;
    let base = 0x1_0000_0000_0000_0000int;
    assert(0 <= a < base && 0 <= b < base);
    assert(a * base + b < base * base) by (nonlinear_arith)
        requires
            0 <= a < base,
            0 <= b < base,
    ;
    assert(base * base == 0x1_0000_0000_0000_0000_0000_0000_0000_0000int);
    let k = (a * base + b) as u128;
    assert(k as int == a * base + b);
    vstd::arithmetic::div_mod::lemma_fundamental_div_mod_converse(k as int, base, a, b);
    assert(key_edge(k) =~= e);
}

/// One step of building the map of edges: if the reversed edge is already a key, face
/// `face` becomes its right face; otherwise `edge` is keyed with `face` as its left face
/// and no right face (0).
pub open spec fn edge_map_insert(m: Map<u128, (usize, usize)>, e: Edge, face: usize) -> Map<
    u128,
    (usize, usize),
> {
    let fk = edge_key_of(flipped(e));
    if m.contains_key(fk) {
        m.insert(fk, (m[fk].0, face))
    } else {
        m.insert(edge_key_of(e), (face, 0usize))
    }
}

/// The map of edges after the first `n` triangles, each adding its three edges in order.
pub open spec fn edge_map_upto(tris: Seq<Triangle>, n: nat) -> Map<u128, (usize, usize)>
    decreases n,
{
    if n == 0 {
        Map::empty()
    } else {
        let m = edge_map_upto(tris, (n - 1) as nat);
        let t = tris[n - 1];
        let f = (n - 1) as usize;
        edge_map_insert(
            edge_map_insert(edge_map_insert(m, [t[0], t[1]], f), [t[1], t[2]], f),
            [t[2], t[0]],
            f,
        )
    }
}

/// The faces a map of edges records, for the first `n` triangles of `tris`: every key is
/// the key of an edge, its left face runs along that edge, and its right face (when not 0)
/// runs along the reversed edge.
pub open spec fn edge_map_faces(m: Map<u128, (usize, usize)>, tris: Seq<Triangle>, n: nat) -> bool {
    &&& forall|k: u128| #[trigger] m.contains_key(k) ==> k == edge_key_of(key_edge(k))
    &&& forall|k: u128|
        #[trigger] m.contains_key(k) ==> m[k].0 < n && tri_has_edge(tris[m[k].0 as int], key_edge(k))
    &&& forall|k: u128|
        #[trigger] m.contains_key(k) && m[k].1 != 0 ==> m[k].1 < n && tri_has_edge(
            tris[m[k].1 as int],
            flipped(key_edge(k)),
        )
}

/// Every edge of the first `n` triangles is keyed by itself or by its reverse.
pub open spec fn edge_map_covers(m: Map<u128, (usize, usize)>, tris: Seq<Triangle>, n: nat) -> bool {
    forall|t: int, j: int|
        0 <= t < n && 0 <= j < 3 ==> m.contains_key(edge_key_of(#[trigger] tri_edges(tris[t])[j]))
            || m.contains_key(edge_key_of(flipped(tri_edges(tris[t])[j])))
}

/// An edge between two different vertices is never keyed together with its reverse.
pub open spec fn edge_map_one_way(m: Map<u128, (usize, usize)>) -> bool {
    forall|k: u128|
        #[trigger] m.contains_key(k) && key_edge(k)[0] != key_edge(k)[1] ==> !m.contains_key(
            edge_key_of(flipped(key_edge(k))),
        )
}

/// What a map of edges built from the first `n` triangles of `tris` keeps true.
pub open spec fn edge_map_sound(m: Map<u128, (usize, usize)>, tris: Seq<Triangle>, n: nat) -> bool {
    edge_map_faces(m, tris, n) && edge_map_covers(m, tris, n) && edge_map_one_way(m)
}

proof fn lemma_edge_map_insert(
    m: Map<u128, (usize, usize)>,
    tris: Seq<Triangle>,
    n: nat,
    e: Edge,
    face: usize,
)
    requires
        edge_map_faces(m, tris, n),
        edge_map_one_way(m),
        face < n,
        tri_has_edge(tris[face as int], e),
    ensures
        edge_map_faces(edge_map_insert(m, e, face), tris, n),
        edge_map_one_way(edge_map_insert(m, e, face)),
        edge_map_insert(m, e, face).contains_key(edge_key_of(e)) || edge_map_insert(
            m,
            e,
            face,
        ).contains_key(edge_key_of(flipped(e))),
        forall|k: u128| m.contains_key(k) ==> #[trigger] edge_map_insert(m, e, face).contains_key(k),
{
    let fk = edge_key_of(flipped(e));
    lemma_edge_key(e);
    lemma_edge_key(flipped(e));
    assert(flipped(flipped(e)) =~= e);
    let r = edge_map_insert(m, e, face);
    assert forall|k: u128| #[trigger] r.contains_key(k) implies k == edge_key_of(key_edge(k)) by {
        if !m.contains_key(k) {
            assert(k == edge_key_of(e));
        }
    }
    assert forall|k: u128| #[trigger] r.contains_key(k) implies r[k].0 < n && tri_has_edge(
        tris[r[k].0 as int],
        key_edge(k),
    ) by {
        if !m.contains_key(k) {
            assert(k == edge_key_of(e));
        }
    }
    assert forall|k: u128| #[trigger] r.contains_key(k) && r[k].1 != 0 implies r[k].1 < n
        && tri_has_edge(tris[r[k].1 as int], flipped(key_edge(k))) by {
        if m.contains_key(fk) && k == fk {
            assert(key_edge(k) == flipped(e));
        } else if !m.contains_key(k) {
            assert(k == edge_key_of(e));
        }
    }
    assert forall|k: u128|
        #[trigger] r.contains_key(k) && key_edge(k)[0] != key_edge(k)[1] implies !r.contains_key(
        edge_key_of(flipped(key_edge(k))),
    ) by {
        let ek = edge_key_of(e);
        lemma_edge_key(key_edge(k));
        lemma_edge_key(flipped(key_edge(k)));
        if !m.contains_key(fk) {
            if k == ek {
                assert(key_edge(k) == e);
            } else {
                assert(m.contains_key(k));
                if edge_key_of(flipped(key_edge(k))) == ek {
                    assert(flipped(key_edge(k)) == e);
                    assert(key_edge(k) =~= flipped(e));
                }
            }
        }
    }
}

/// The map of edges is sound for the triangles it was built from.
pub proof fn lemma_edge_map_sound(tris: Seq<Triangle>, n: nat)
    requires
        n <= tris.len() <= usize::MAX,
    ensures
        edge_map_sound(edge_map_upto(tris, n), tris, n),
    decreases n,
{
    if n > 0 {
        let p = (n - 1) as nat;
        lemma_edge_map_sound(tris, p);
        let m0 = edge_map_upto(tris, p);
        let t = tris[p as int];
        let f = p as usize;
        let es = tri_edges(t);
        // the recorded faces stay below `n`
        assert(edge_map_faces(m0, tris, n));
        lemma_edge_map_insert(m0, tris, n, es[0], f);
        let m1 = edge_map_insert(m0, es[0], f);
        lemma_edge_map_insert(m1, tris, n, es[1], f);
        let m2 = edge_map_insert(m1, es[1], f);
        lemma_edge_map_insert(m2, tris, n, es[2], f);
        let m3 = edge_map_insert(m2, es[2], f);
        assert(es[0] == [t[0], t[1]]);
        assert(es[1] == [t[1], t[2]]);
        assert(es[2] == [t[2], t[0]]);
        assert(m3 == edge_map_upto(tris, n));
        assert forall|tt: int, j: int| 0 <= tt < n && 0 <= j < 3 implies m3.contains_key(
            edge_key_of(#[trigger] tri_edges(tris[tt])[j]),
        ) || m3.contains_key(edge_key_of(flipped(tri_edges(tris[tt])[j]))) by {
            let e = tri_edges(tris[tt])[j];
            if tt < p {
                if m0.contains_key(edge_key_of(e)) {
                    assert(m1.contains_key(edge_key_of(e)));
                    assert(m2.contains_key(edge_key_of(e)));
                } else {
                    assert(m1.contains_key(edge_key_of(flipped(e))));
                    assert(m2.contains_key(edge_key_of(flipped(e))));
                }
            } else {
                if j == 0 {
                    if m1.contains_key(edge_key_of(e)) {
                        assert(m2.contains_key(edge_key_of(e)));
                    } else {
                        assert(m2.contains_key(edge_key_of(flipped(e))));
                    }
                } else if j == 1 {
                } else {
                }
            }
        }
    }
}

/// Every edge of a triangle between two different vertices is keyed in the map of edges
/// exactly one way: by itself or by its reverse, never both.
pub proof fn law_edge_keyed_one_way(tris: Seq<Triangle>, t: int, j: int)
    requires
        tris.len() <= usize::MAX,
        0 <= t < tris.len(),
        0 <= j < 3,
        tri_edges(tris[t])[j][0] != tri_edges(tris[t])[j][1],
    ensures
        edge_map_upto(tris, tris.len()).contains_key(edge_key_of(tri_edges(tris[t])[j]))
            != edge_map_upto(tris, tris.len()).contains_key(
            edge_key_of(flipped(tri_edges(tris[t])[j])),
        ),
{
    let m = edge_map_upto(tris, tris.len());
    let e = tri_edges(tris[t])[j];
    lemma_edge_map_sound(tris, tris.len());
    lemma_edge_key(e);
    lemma_edge_key(flipped(e));
    assert(flipped(flipped(e)) =~= e);
    if m.contains_key(edge_key_of(e)) {
        assert(key_edge(edge_key_of(e)) == e);
    }
    if m.contains_key(edge_key_of(flipped(e))) {
        assert(key_edge(edge_key_of(flipped(e))) == flipped(e));
    }
}

/// In a sound map of edges of triangles that refer to the first `vertex_count` vertices,
/// every keyed edge joins two of those vertices and both recorded faces are triangles.
pub(crate) proof fn lemma_edge_map_bounds(
    m: Map<u128, (usize, usize)>,
    tris: Seq<Triangle>,
    vertex_count: nat,
)
    requires
        edge_map_sound(m, tris, tris.len()),
        indices_in_range(tris, vertex_count),
    ensures
        forall|k: u128|
            #[trigger] m.contains_key(k) ==> key_edge(k)[0] < vertex_count && key_edge(k)[1]
                < vertex_count && m[k].0 < tris.len() && m[k].1 < tris.len(),
{
    assert forall|k: u128| #[trigger] m.contains_key(k) implies key_edge(k)[0] < vertex_count
        && key_edge(k)[1] < vertex_count && m[k].0 < tris.len() && m[k].1 < tris.len() by {
        let t = tris[m[k].0 as int];
        assert(t[0] < vertex_count && t[1] < vertex_count && t[2] < vertex_count) by {
            assert(tris[m[k].0 as int][0] < vertex_count);
            assert(tris[m[k].0 as int][1] < vertex_count);
            assert(tris[m[k].0 as int][2] < vertex_count);
        }
    }
}

/// Returns the key under which the map of edges stores `edge`.
pub fn edge_key(edge: &Edge) -> (k: u128)
    ensures
        k == edge_key_of(*edge),
{
    proof {
        lemma_edge_key(*edge);
    }
    (edge[0] as u128) * 0x1_0000_0000_0000_0000u128 + (edge[1] as u128)
}

/// Returns the edge that a key of the map of edges stands for.
pub fn edge_from_key(key: u128) -> (e: Edge)
    ensures
        e == key_edge(key),
{
    [(key / 0x1_0000_0000_0000_0000u128) as usize, (key % 0x1_0000_0000_0000_0000u128) as usize]
}

/// A triangle with `n` added to each of its vertex indices.
pub open spec fn shifted_tri(t: Triangle, n: int) -> Triangle {
    [(t[0] + n) as usize, (t[1] + n) as usize, (t[2] + n) as usize]
}

/// A triangle with each vertex index moved to where it lands once the unused vertices
/// (per the marks `m`) are dropped.
pub open spec fn remapped_tri(t: Triangle, m: Seq<bool>) -> Triangle {
    [
        remap_index(m, t[0] as int) as usize,
        remap_index(m, t[1] as int) as usize,
        remap_index(m, t[2] as int) as usize,
    ]
}

/// The first triangle, in order, that runs along `e`, if any.
pub open spec fn first_with_edge(tris: Seq<Triangle>, e: Edge, r: Option<Triangle>) -> bool {
    match r {
        Some(t) => exists|i: int|
            0 <= i < tris.len() && tris[i] == t && tri_has_edge(tris[i], e) && forall|j: int|
                0 <= j < i ==> !tri_has_edge(#[trigger] tris[j], e),
        None => forall|j: int| 0 <= j < tris.len() ==> !tri_has_edge(#[trigger] tris[j], e),
    }
}

/// True if one of the first `t` triangles refers to vertex `v`.
pub open spec fn used_before(tris: Seq<Triangle>, t: int, v: int) -> bool {
    exists|tt: int, k: int| 0 <= tt < t && 0 <= k < 3 && #[trigger] tris[tt][k] == v
}

/// True if every vertex index of every triangle is below `n`.
pub open spec fn indices_in_range(tris: Seq<Triangle>, n: nat) -> bool {
    forall|t: int, k: int| 0 <= t < tris.len() && 0 <= k < 3 ==> #[trigger] tris[t][k] < n
}

/// Groups every three indices into a triangle, in order.
pub(crate) fn group_indices(indices: &Vec<usize>) -> (r: Vec<Triangle>)
    ensures
        r@ == group_triangles(indices@),
{
    let count = indices.len() / 3;
    let mut tris: Vec<Triangle> = Vec::with_capacity(count);

    // Create triangles for each index
    let mut i: usize = 0;
    while i < count
        invariant
            count == indices@.len() / 3,
            indices@.len() <= usize::MAX,
            i <= count,
            tris@ == group_triangles(indices@).take(i as int),
        decreases count - i,
    {
        assert(3 * i + 2 < indices@.len()) by (nonlinear_arith)
            requires
                i < count,
                count == indices@.len() / 3,
        ;
        let base: usize = 3 * i;
        tris.push([indices[base], indices[base + 1], indices[base + 2]]);
        i += 1;
        proof {
            assert(tris@ =~= group_triangles(indices@).take(i as int));
        }
    }
    proof {
        assert(group_triangles(indices@).take(count as int) =~= group_triangles(indices@));
    }
    tris
}

/// The vertex indices of the triangles, three per triangle, in order.
pub(crate) fn flatten_triangles(tris: &Vec<Triangle>) -> (r: Vec<usize>)
    ensures
        r@ == flatten(tris@),
{
    let mut indices: Vec<usize> = Vec::new();

    let mut i: usize = 0;
    while i < tris.len()
        invariant
            i <= tris@.len(),
            indices@ == flatten(tris@.take(i as int)),
        decreases tris.len() - i,
    {
        let tri = tris[i];
        indices.push(tri[0]);
        indices.push(tri[1]);
        indices.push(tri[2]);
        i += 1;
        proof {
            let s = tris@.take(i as int);
            assert(s.drop_last() =~= tris@.take(i - 1));
            assert(indices@ =~= flatten(s));
        }
    }
    proof {
        assert(tris@.take(tris@.len() as int) =~= tris@);
    }
    indices
}

/// Appends the triangles of `src` to `dst`, with `n` added to every vertex index.
pub(crate) fn append_shifted(dst: &mut Vec<Triangle>, src: &Vec<Triangle>, n: usize)
    requires
        forall|t: int, k: int|
            0 <= t < src@.len() && 0 <= k < 3 ==> n + #[trigger] src@[t][k] <= usize::MAX,
    ensures
        final(dst)@ == old(dst)@ + src@.map_values(|t: Triangle| shifted_tri(t, n as int)),
{
    let ghost start = dst@;
    let ghost shifted = src@.map_values(|t: Triangle| shifted_tri(t, n as int));
    let mut i: usize = 0;
    while i < src.len()
        invariant
            i <= src@.len(),
            shifted == src@.map_values(|t: Triangle| shifted_tri(t, n as int)),
            forall|t: int, k: int|
                0 <= t < src@.len() && 0 <= k < 3 ==> n + #[trigger] src@[t][k] <= usize::MAX,
            dst@ == start + shifted.take(i as int),
            start == old(dst)@,
        decreases src.len() - i,
    {
        let tri = src[i];
        assert(n + tri[0] <= usize::MAX);
        assert(n + tri[1] <= usize::MAX);
        assert(n + tri[2] <= usize::MAX);
        let moved: Triangle = [tri[0] + n, tri[1] + n, tri[2] + n];
        proof {
            assert(moved =~= shifted[i as int]);
        }
        dst.push(moved);
        i += 1;
        proof {
            assert(shifted.take(i as int) =~= shifted.take(i - 1).push(shifted[i - 1]));
        }
    }
    proof {
        assert(shifted.take(src@.len() as int) =~= shifted);
    }
}

/// The first triangle, in order, that runs along `edge`, if any.
pub(crate) fn first_tri_with_edge(triangles: &Vec<Triangle>, edge: &Edge) -> (r: Option<Triangle>)
    ensures
        first_with_edge(triangles@, *edge, r),
{
    let mut i: usize = 0;
    while i < triangles.len()
        invariant
            i <= triangles@.len(),
            forall|j: int| 0 <= j < i ==> !tri_has_edge(#[trigger] triangles@[j], *edge),
        decreases triangles.len() - i,
    {
        let tri = triangles[i];
        if tri.has_edge(edge) {
            assert(triangles@[i as int] == tri);
            return Some(tri);
        }
        i += 1;
    }
    None
}

/// Adds one edge of face `face` to the map of edges, as `edge_map_insert` says.
fn insert_edge(edges: &mut HashMap<u128, (usize, usize)>, edge: Edge, face: usize)
    ensures
        final(edges)@ == edge_map_insert(old(edges)@, edge, face),
{
    // Check for reverse-edge first
    let flip = edge.flip();
    let flip_key = edge_key(&flip);
    let left = match edges.get(&flip_key) {
        Some(faces) => Some(faces.0),
        None => None,
    };
    match left {
        // If we found a key already existing for our reverse edge,
        // fill in our face index as the right face
        Some(left) => {
            edges.insert(flip_key, (left, face));
        },
        // Otherwise, insert a key with this face for our edge
        None => {
            edges.insert(edge_key(&edge), (face, 0));
        },
    }
}

/// Builds the map of edges of the triangles, three edges per triangle in order.
pub(crate) fn build_edge_map(tris: &Vec<Triangle>) -> (r: HashMap<u128, (usize, usize)>)
    ensures
        r@ == edge_map_upto(tris@, tris@.len()),
        edge_map_sound(r@, tris@, tris@.len()),
{
    let mut edges = HashMap::<u128, (usize, usize)>::new();

    let mut idx: usize = 0;
    while idx < tris.len()
        invariant
            idx <= tris@.len(),
            edges@ == edge_map_upto(tris@, idx as nat),
        decreases tris.len() - idx,
    {
        let tri = tris[idx];
        let es = tri.edges();
        insert_edge(&mut edges, es[0], idx);
        insert_edge(&mut edges, es[1], idx);
        insert_edge(&mut edges, es[2], idx);
        idx += 1;
    }
    proof {
        lemma_edge_map_sound(tris@, tris@.len());
    }
    edges
}

/// A map of edges with each pair of faces written as a two-element array.
pub open spec fn faces_as_arrays(m: Map<u128, (usize, usize)>) -> Map<u128, [usize; 2]> {
    m.map_values(|v: (usize, usize)| [v.0, v.1])
}

/// Adds one edge of face `face` to a map of edges whose faces are stored as arrays.
fn insert_edge_array(
    edges: &mut HashMap<u128, [usize; 2]>,
    Ghost(m): Ghost<Map<u128, (usize, usize)>>,
    edge: Edge,
    face: usize,
)
    requires
        old(edges)@ == faces_as_arrays(m),
    ensures
        final(edges)@ == faces_as_arrays(edge_map_insert(m, edge, face)),
{
    let flip = edge.flip();
    let flip_key = edge_key(&flip);
    let left = match edges.get(&flip_key) {
        Some(faces) => Some(faces[0]),
        None => None,
    };
    match left {
        // If we found a key already existing for our reverse edge,
        // fill in our face index as the right face
        Some(left) => {
            edges.insert(flip_key, [left, face]);
            proof {
                assert(m.contains_key(flip_key));
                assert(edges@ =~= faces_as_arrays(edge_map_insert(m, edge, face)));
            }
        },
        // Otherwise, insert a key with this face for our edge
        None => {
            edges.insert(edge_key(&edge), [face, 0]);
            proof {
                assert(!m.contains_key(flip_key));
                assert(edges@ =~= faces_as_arrays(edge_map_insert(m, edge, face)));
            }
        },
    }
}

/// Builds the map of edges of the triangles with each pair of faces as an array.
pub(crate) fn build_edge_map_arrays(tris: &Vec<Triangle>) -> (r: HashMap<u128, [usize; 2]>)
    ensures
        r@ == faces_as_arrays(edge_map_upto(tris@, tris@.len())),
        edge_map_sound(edge_map_upto(tris@, tris@.len()), tris@, tris@.len()),
{
    let mut edges = HashMap::<u128, [usize; 2]>::new();
    proof {
        assert(edges@ =~= faces_as_arrays(edge_map_upto(tris@, 0)));
    }

    let mut idx: usize = 0;
    while idx < tris.len()
        invariant
            idx <= tris@.len(),
            edges@ == faces_as_arrays(edge_map_upto(tris@, idx as nat)),
        decreases tris.len() - idx,
    {
        let tri = tris[idx];
        let es = tri.edges();
        let ghost m0 = edge_map_upto(tris@, idx as nat);
        let ghost m1 = edge_map_insert(m0, es[0], idx);
        let ghost m2 = edge_map_insert(m1, es[1], idx);
        insert_edge_array(&mut edges, Ghost(m0), es[0], idx);
        insert_edge_array(&mut edges, Ghost(m1), es[1], idx);
        insert_edge_array(&mut edges, Ghost(m2), es[2], idx);
        idx += 1;
    }
    proof {
        lemma_edge_map_sound(tris@, tris@.len());
    }
    edges
}

/// Replaces vertex indices in every triangle, applying the pairs `(old, new)` in order.
pub(crate) fn swap_triangle_indices(tris: &mut Vec<Triangle>, replace: &Vec<(usize, usize)>)
    ensures
        final(tris)@ == old(tris)@.map_values(|t: Triangle| replaced_tri(t, replace@)),
{
    let ghost orig = tris@;
    if replace.len() == 0 {
        proof {
            assert forall|i: int| 0 <= i < orig.len() implies replaced_tri(
                orig[i],
                replace@,
            ) == orig[i] by {
                assert(replaced_tri(orig[i], replace@) =~= orig[i]);
            }
            assert(tris@ =~= orig.map_values(|t: Triangle| replaced_tri(t, replace@)));
        }
        return;
    }

    // Iterate over every swap item
    let mut r: usize = 0;
    while r < replace.len()
        invariant
            r <= replace@.len(),
            tris@.len() == orig.len(),
            forall|t: int|
                0 <= t < orig.len() ==> #[trigger] tris@[t] == replaced_tri(
                    orig[t],
                    replace@.take(r as int),
                ),
        decreases replace.len() - r,
    {
        let swap = replace[r];
        let ghost done = replace@.take(r as int);
        let ghost next = replace@.take(r + 1);
        proof {
            assert(next.drop_last() =~= done);
        }
        let mut t: usize = 0;
        while t < tris.len()
            invariant
                t <= tris@.len(),
                tris@.len() == orig.len(),
                r < replace@.len(),
                swap == replace@[r as int],
                done == replace@.take(r as int),
                next == replace@.take(r + 1),
                next.drop_last() == done,
                forall|j: int| 0 <= j < t ==> #[trigger] tris@[j] == replaced_tri(orig[j], next),
                forall|j: int|
                    t <= j < orig.len() ==> #[trigger] tris@[j] == replaced_tri(orig[j], done),
            decreases tris.len() - t,
        {
            let tri = tris[t];
            // Update the triangle indices
            let updated: Triangle = [
                if tri[0] == swap.0 {
                    swap.1
                } else {
                    tri[0]
                },
                if tri[1] == swap.0 {
                    swap.1
                } else {
                    tri[1]
                },
                if tri[2] == swap.0 {
                    swap.1
                } else {
                    tri[2]
                },
            ];
            proof {
                assert(next.last() == swap);
                assert(updated =~= replaced_tri(orig[t as int], next));
            }
            tris.set(t, updated);
            t += 1;
        }
        r += 1;
    }
    proof {
        assert(replace@.take(replace@.len() as int) =~= replace@);
        assert(tris@ =~= orig.map_values(|t: Triangle| replaced_tri(t, replace@)));
    }
}

/// The triangles that are not degenerate, in order.
pub(crate) fn without_degenerate(tris: &Vec<Triangle>) -> (r: Vec<Triangle>)
    ensures
        r@ == tris@.filter(|t: Triangle| !is_degenerate(t)),
        forall|t: int| 0 <= t < r@.len() ==> !is_degenerate(#[trigger] r@[t]),
        r@.len() <= tris@.len(),
        forall|n: nat| indices_in_range(tris@, n) ==> #[trigger] indices_in_range(r@, n),
{
    let ghost keep = |t: Triangle| !is_degenerate(t);
    let mut kept: Vec<Triangle> = Vec::new();
    let mut i: usize = 0;
    while i < tris.len()
        invariant
            i <= tris@.len(),
            kept@ == tris@.take(i as int).filter(keep),
            keep == (|t: Triangle| !is_degenerate(t)),
        decreases tris.len() - i,
    {
        let tri = tris[i];
        proof {
            let s = tris@.take(i + 1);
            assert(s.drop_last() =~= tris@.take(i as int));
            reveal_with_fuel(Seq::filter, 1);
        }
        // Ensure no vertex indices on the triangle match
        if !(tri[0] == tri[1] || tri[0] == tri[2] || tri[1] == tri[2]) {
            kept.push(tri);
        }
        i += 1;
    }
    proof {
        assert(tris@.take(tris@.len() as int) =~= tris@);
        assert forall|t: int| 0 <= t < kept@.len() implies !is_degenerate(#[trigger] kept@[t]) by {
            tris@.lemma_filter_pred(keep, t);
        }
        tris@.lemma_filter_len(keep);
        assert forall|n: nat| indices_in_range(tris@, n) implies #[trigger] indices_in_range(
            kept@,
            n,
        ) by {
            assert forall|t: int, k: int| 0 <= t < kept@.len() && 0 <= k < 3 implies #[trigger] kept@[t][k]
                < n by {
                assert(kept@.contains(kept@[t]));
                tris@.lemma_filter_contains_rev(keep, kept@[t]);
                let j = choose|j: int| 0 <= j < tris@.len() && tris@[j] == kept@[t];
                assert(tris@[j][k] < n);
            }
        }
    }
    kept
}

/// Drops the vertices (and the normals of the same index) that no triangle refers to,
/// and moves each triangle index to the new place of its vertex.
pub(crate) fn remove_unused_vertices<P: Copy, N: Copy>(
    tris: &mut Vec<Triangle>,
    positions: &mut Vec<P>,
    normals: &mut Vec<N>,
)
    requires
        indices_in_range(old(tris)@, old(positions)@.len()),
        old(normals)@.len() <= old(positions)@.len(),
    ensures
        final(positions)@ == keep_marked(
            old(positions)@,
            used_vertices(old(tris)@, old(positions)@.len()),
        ),
        final(normals)@ == keep_marked(
            old(normals)@,
            used_vertices(old(tris)@, old(positions)@.len()),
        ),
        final(tris)@ == old(tris)@.map_values(
            |t: Triangle| remapped_tri(t, used_vertices(old(tris)@, old(positions)@.len())),
        ),
        indices_in_range(final(tris)@, final(positions)@.len()),
        forall|t: int, k: int|
            0 <= t < old(tris)@.len() && 0 <= k < 3 ==> final(positions)@[#[trigger] final(tris)@[t][k] as int]
                == old(positions)@[old(tris)@[t][k] as int],
        forall|v: int| 0 <= v < final(positions)@.len() ==> vertex_used(final(tris)@, v),
{
    let n = positions.len();
    let ghost ot = tris@;
    let ghost op = positions@;
    let ghost on = normals@;
    let ghost marks = used_vertices(ot, n as nat);

    // Keep track of all used points
    let mut used: Vec<bool> = Vec::new();
    let mut i: usize = 0;
    while i < n
        invariant
            i <= n,
            used@.len() == i,
            forall|v: int| 0 <= v < i ==> !#[trigger] used@[v],
        decreases n - i,
    {
        used.push(false);
        i += 1;
    }

    // Figure out what points are used
    let mut t: usize = 0;
    while t < tris.len()
        invariant
            t <= ot.len(),
            ot == tris@,
            indices_in_range(ot, n as nat),
            used@.len() == n,
            forall|v: int| 0 <= v < n ==> #[trigger] used@[v] == used_before(ot, t as int, v),
        decreases tris.len() - t,
    {
        let tri = tris[t];
        assert(tri[0] < n && tri[1] < n && tri[2] < n) by {
            assert(ot[t as int][0] < n);
            assert(ot[t as int][1] < n);
            assert(ot[t as int][2] < n);
        }
        let ghost before = used@;
        used.set(tri[0], true);
        used.set(tri[1], true);
        used.set(tri[2], true);
        proof {
            assert forall|v: int| 0 <= v < n implies #[trigger] used@[v] == used_before(
                ot,
                t + 1,
                v,
            ) by {
                if used@[v] {
                    if before[v] {
                        let (tt, k) = choose|tt: int, k: int|
                            0 <= tt < t && 0 <= k < 3 && #[trigger] ot[tt][k] == v;
                        assert(ot[tt][k] == v);
                    } else if v == tri[0] {
                        assert(ot[t as int][0] == v);
                    } else if v == tri[1] {
                        assert(ot[t as int][1] == v);
                    } else {
                        assert(ot[t as int][2] == v);
                    }
                } else {
                    if used_before(ot, t + 1, v) {
                        let (tt, k) = choose|tt: int, k: int|
                            0 <= tt < t + 1 && 0 <= k < 3 && #[trigger] ot[tt][k] == v;
                        if tt < t {
                            assert(used_before(ot, t as int, v));
                        } else {
                            assert(ot[tt][k] == tri[k]);
                        }
                    }
                }
            }
        }
        t += 1;
    }
    proof {
        assert forall|v: int| 0 <= v < n implies #[trigger] used@[v] == marks[v] by {
            assert(used_before(ot, ot.len() as int, v) == vertex_used(ot, v));
        }
        assert(used@ =~= marks);
    }

    // Drop points that are not associated with anything
    let mut kept_positions: Vec<P> = Vec::new();
    let mut i: usize = 0;
    while i < n
        invariant
            i <= n,
            n == op.len(),
            op == positions@,
            used@ == marks,
            marks.len() == n,
            kept_positions@ == keep_marked(op.take(i as int), marks),
        decreases n - i,
    {
        proof {
            lemma_keep_marked_step(op, marks, i as int);
        }
        if used[i] {
            kept_positions.push(positions[i]);
        }
        i += 1;
    }

    // ...do the same for normals.
    let mut kept_normals: Vec<N> = Vec::new();
    let mut i: usize = 0;
    while i < normals.len()
        invariant
            i <= on.len(),
            on == normals@,
            on.len() <= n,
            used@ == marks,
            marks.len() == n,
            kept_normals@ == keep_marked(on.take(i as int), marks),
        decreases normals.len() - i,
    {
        proof {
            lemma_keep_marked_step(on, marks, i as int);
        }
        if used[i] {
            kept_normals.push(normals[i]);
        }
        i += 1;
    }
    proof {
        assert(op.take(n as int) =~= op);
        assert(on.take(on.len() as int) =~= on);
    }

    // Create an array for remapping vertex index values
    let mut remapped: Vec<usize> = Vec::new();
    let mut i: usize = 0;
    while i < n
        invariant
            i <= n,
            remapped@.len() == i,
        decreases n - i,
    {
        remapped.push(0);
        i += 1;
    }
    let mut new_idx: usize = 0;  // Current available index
    let mut idx: usize = 0;
    while idx < n
        invariant
            idx <= n,
            remapped@.len() == n,
            used@ == marks,
            marks.len() == n,
            new_idx == remap_index(marks, idx as int),
            new_idx <= idx,
            forall|j: int|
                0 <= j < idx && marks[j] ==> #[trigger] remapped@[j] == remap_index(marks, j),
        decreases n - idx,
    {
        proof {
            lemma_remap_step(marks, idx as int);
        }
        if used[idx] {
            remapped.set(idx, new_idx);
            new_idx += 1;
        }
        idx += 1;
    }

    // Adjust all triangle indices accordingly
    let mut new_tris: Vec<Triangle> = Vec::new();
    let mut t: usize = 0;
    while t < tris.len()
        invariant
            t <= ot.len(),
            ot == tris@,
            indices_in_range(ot, n as nat),
            remapped@.len() == n,
            marks == used_vertices(ot, n as nat),
            forall|j: int| 0 <= j < n && marks[j] ==> #[trigger] remapped@[j] == remap_index(marks, j),
            new_tris@ == ot.take(t as int).map_values(|x: Triangle| remapped_tri(x, marks)),
        decreases tris.len() - t,
    {
        let tri = tris[t];
        proof {
            assert(ot[t as int][0] == tri[0]);
            assert(ot[t as int][1] == tri[1]);
            assert(ot[t as int][2] == tri[2]);
            assert(marks[tri[0] as int]);
            assert(marks[tri[1] as int]);
            assert(marks[tri[2] as int]);
        }
        let moved: Triangle = [remapped[tri[0]], remapped[tri[1]], remapped[tri[2]]];
        proof {
            assert(moved =~= remapped_tri(tri, marks));
        }
        new_tris.push(moved);
        t += 1;
        proof {
            assert(new_tris@ =~= ot.take(t as int).map_values(|x: Triangle| remapped_tri(x, marks)));
        }
    }
    proof {
        assert(ot.take(ot.len() as int) =~= ot);
        lemma_keep_marked(op, marks);
        assert forall|t: int, k: int| 0 <= t < ot.len() && 0 <= k < 3 implies #[trigger] new_tris@[t][k]
            < kept_positions@.len() && kept_positions@[new_tris@[t][k] as int] == op[ot[t][k] as int] by {
            let v = ot[t][k] as int;
            assert(marks[v]);
            assert(new_tris@[t] == remapped_tri(ot[t], marks));
            assert(new_tris@[t][k] == remap_index(marks, v));
        }
        assert(marks.len() == n);
        assert(new_tris@ == ot.map_values(|x: Triangle| remapped_tri(x, marks)));
        lemma_remapped_all_used(ot, n as nat, new_tris@);
    }

    *positions = kept_positions;
    *normals = kept_normals;
    *tris = new_tris;
}
} // verus!
