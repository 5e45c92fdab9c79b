//! Icosphere mesh topology: the base icosahedron, edge-midpoint
//! subdivision, and the wireframe edge list. Only the combinatorial
//! structure lives here: a vertex is described by its two parent indices
//! (a base vertex is its own parent), and the host computes positions by
//! taking normalized midpoints in that order.
use vstd::prelude::*;

verus! {

/// The normalized (smaller index first) form of an edge.
pub open spec fn norm_edge(a: u32, b: u32) -> (u32, u32) {
    if a < b {
        (a, b)
    } else {
        (b, a)
    }
}

/// Appends an edge unless its normalized form was already collected.
pub open spec fn add_edge(seen: Seq<(u32, u32)>, a: u32, b: u32) -> Seq<(u32, u32)> {
    let e = norm_edge(a, b);
    if seen.contains(e) {
        seen
    } else {
        seen.push(e)
    }
}

/// The distinct edges of the first `t` triangles, in first-seen order.
pub open spec fn spec_edges(idx: Seq<u32>, t: int) -> Seq<(u32, u32)>
    decreases t,
{
    if t <= 0 {
        Seq::empty()
    } else {
        let p = spec_edges(idx, t - 1);
        let v0 = idx[3 * (t - 1)];
        let v1 = idx[3 * (t - 1) + 1];
        let v2 = idx[3 * (t - 1) + 2];
        add_edge(add_edge(add_edge(p, v0, v1), v1, v2), v2, v0)
    }
}

/// An edge list flattened to a vertex index list.
pub open spec fn flat_edges(es: Seq<(u32, u32)>) -> Seq<u32>
    decreases es.len(),
{
    if es.len() == 0 {
        Seq::empty()
    } else {
        flat_edges(es.drop_last()).push(es.last().0).push(es.last().1)
    }
}

/// True when the pair is already in the seen list.
fn seen_contains(seen: &Vec<(u32, u32)>, e0: u32, e1: u32) -> (r: bool)
    ensures
        r == seen@.contains((e0, e1)),
{
    let n = seen.len();
    let mut i: usize = 0;
    while i < n
        invariant
            i <= n,
            n == seen@.len(),
            forall|k: int| 0 <= k < i ==> #[trigger] seen@[k] != (e0, e1),
        decreases n - i,
    {
        let c = seen[i];
        if c.0 == e0 && c.1 == e1 {
            proof {
                assert(seen@[i as int] == (e0, e1));
            }
            return true;
        }
        i = i + 1;
    }
    false
}

/// Records one triangle edge if it is new, appending its endpoints to the
/// flattened output.
fn push_edge(seen: &mut Vec<(u32, u32)>, out: &mut Vec<u32>, a: u32, b: u32)
    requires
        old(out)@ == flat_edges(old(seen)@),
    ensures
        final(seen)@ == add_edge(old(seen)@, a, b),
        final(out)@ == flat_edges(final(seen)@),
{
    let e0 = if a < b {
        a
    } else {
        b
    };
    let e1 = if a < b {
        b
    } else {
        a
    };
    if !seen_contains(seen, e0, e1) {
        seen.push((e0, e1));
        out.push(e0);
        out.push(e1);
        proof {
            assert(seen@.drop_last() =~= old(seen)@);
        }
    }
}

/// Converts triangle indices to a deduplicated wireframe edge list: for
/// each full triple of indices, the three normalized edges are appended in
/// order, each only the first time it occurs; a trailing partial triple is
/// ignored.
pub fn triangles_to_edges(indices: &[u32]) -> (r: Vec<u32>)
    ensures
        r@ == flat_edges(spec_edges(indices@, indices@.len() as int / 3)),
{
    let mut seen: Vec<(u32, u32)> = Vec::new();
    let mut out: Vec<u32> = Vec::new();
    let n = indices.len();
    let nt = n / 3;
    proof {
        vstd::arithmetic::div_mod::lemma_fundamental_div_mod(n as int, 3);
        vstd::arithmetic::div_mod::lemma_mod_bound(n as int, 3);
    }
    let mut t: usize = 0;
    while t < nt
        invariant
            t <= nt,
            nt == n as int / 3,
            n == indices@.len(),
            3 * (nt as int) <= n,
            seen@ == spec_edges(indices@, t as int),
            out@ == flat_edges(seen@),
        decreases nt - t,
    {
        let v0 = indices[3 * t];
        let v1 = indices[3 * t + 1];
        let v2 = indices[3 * t + 2];
        push_edge(&mut seen, &mut out, v0, v1);
        push_edge(&mut seen, &mut out, v1, v2);
        push_edge(&mut seen, &mut out, v2, v0);
        t = t + 1;
    }
    out
}

/// Looks an edge key up in the per-level midpoint cache, first match wins.
pub open spec fn find_mid(cache: Seq<((u32, u32), u32)>, key: (u32, u32)) -> Option<u32>
    decreases cache.len(),
{
    if cache.len() == 0 {
        Option::None
    } else if cache.first().0 == key {
        Option::Some(cache.first().1)
    } else {
        find_mid(cache.drop_first(), key)
    }
}

/// The midpoint vertex of an edge: an existing cache entry, or a fresh
/// vertex whose parents are the edge's endpoints. Yields the vertex index
/// and the updated parent and cache lists.
pub open spec fn spec_mid(
    parents: Seq<(u32, u32)>,
    cache: Seq<((u32, u32), u32)>,
    v1: u32,
    v2: u32,
) -> (u32, Seq<(u32, u32)>, Seq<((u32, u32), u32)>) {
    let key = norm_edge(v1, v2);
    match find_mid(cache, key) {
        Option::Some(i) => (i, parents, cache),
        Option::None => (
            parents.len() as u32,
            parents.push(key),
            cache.push((key, parents.len() as u32)),
        ),
    }
}

/// One subdivision level over the first `k` triangles: each triangle is
/// replaced by four, introducing midpoint vertices shared through the cache.
pub open spec fn spec_level(tris: Seq<u32>, k: int, par0: Seq<(u32, u32)>) -> (
    Seq<(u32, u32)>,
    Seq<((u32, u32), u32)>,
    Seq<u32>,
)
    decreases k,
{
    if k <= 0 {
        (par0, Seq::empty(), Seq::empty())
    } else {
        let prev = spec_level(tris, k - 1, par0);
        let v1 = tris[3 * (k - 1)];
        let v2 = tris[3 * (k - 1) + 1];
        let v3 = tris[3 * (k - 1) + 2];
        let ma = spec_mid(prev.0, prev.1, v1, v2);
        let mb = spec_mid(ma.1, ma.2, v2, v3);
        let mc = spec_mid(mb.1, mb.2, v3, v1);
        (
            mc.1,
            mc.2,
            prev.2 + seq![
                v1,
                ma.0,
                mc.0,
                v2,
                mb.0,
                ma.0,
                v3,
                mc.0,
                mb.0,
                ma.0,
                mb.0,
                mc.0,
            ],
        )
    }
}

/// The vertex parents of the base icosahedron: each of the twelve vertices
/// is its own parent.
pub open spec fn base_parents() -> Seq<(u32, u32)> {
    Seq::new(12, |i: int| (i as u32, i as u32))
}

/// The twenty faces of the base icosahedron.
pub open spec fn base_tris() -> Seq<u32> {
    seq![
        0u32, 11u32, 5u32, 0u32, 5u32, 1u32, 0u32, 1u32, 7u32, 0u32, 7u32, 10u32, 0u32, 10u32,
        11u32, 1u32, 5u32, 9u32, 5u32, 11u32, 4u32, 11u32, 10u32, 2u32, 10u32, 7u32, 6u32, 7u32,
        1u32, 8u32, 3u32, 9u32, 4u32, 3u32, 4u32, 2u32, 3u32, 2u32, 6u32, 3u32, 6u32, 8u32, 3u32,
        8u32, 9u32, 4u32, 9u32, 5u32, 2u32, 4u32, 11u32, 6u32, 2u32, 10u32, 8u32, 6u32, 7u32,
        9u32, 8u32, 1u32,
    ]
}

/// `subdivisions` full levels applied to a parent list and triangle list.
pub open spec fn spec_levels(lv: int, par: Seq<(u32, u32)>, tris: Seq<u32>) -> (
    Seq<(u32, u32)>,
    Seq<u32>,
)
    decreases lv,
{
    if lv <= 0 {
        (par, tris)
    } else {
        let r = spec_level(tris, tris.len() as int / 3, par);
        spec_levels(lv - 1, r.0, r.2)
    }
}

/// The icosphere topology after the given number of subdivisions.
pub open spec fn spec_icosphere(subdivisions: int) -> (Seq<(u32, u32)>, Seq<u32>) {
    spec_levels(subdivisions, base_parents(), base_tris())
}

/// Powers of four: each subdivision level quadruples the triangle count.
pub open spec fn pow4(n: nat) -> nat
    decreases n,
{
    if n == 0 {
        1
    } else {
        4 * pow4((n - 1) as nat)
    }
}

proof fn lemma_level_out_len(tris: Seq<u32>, k: int, par: Seq<(u32, u32)>)
    requires
        k >= 0,
    ensures
        spec_level(tris, k, par).2.len() == 12 * k,
    decreases k,
{
    if k > 0 {
        lemma_level_out_len(tris, k - 1, par);
    }
}

proof fn lemma_levels_len(lv: int, par: Seq<(u32, u32)>, tris: Seq<u32>, n: nat)
    requires
        lv >= 0,
        tris.len() == 60 * pow4(n),
    ensures
        spec_levels(lv, par, tris).1.len() == 60 * pow4((n + lv) as nat),
    decreases lv,
{
    if lv > 0 {
        let k = tris.len() as int / 3;
        assert(tris.len() as int == (20 * pow4(n)) * 3);
        vstd::arithmetic::div_mod::lemma_div_by_multiple(20 * pow4(n) as int, 3);
        assert(k == 20 * pow4(n));
        lemma_level_out_len(tris, k, par);
        let r = spec_level(tris, k, par);
        assert(r.2.len() == 60 * pow4((n + 1) as nat));
        lemma_levels_len(lv - 1, r.0, r.2, (n + 1) as nat);
    }
}

/// Powers of five, bounding the growth of vertex and triangle counts.
pub open spec fn pow5(n: nat) -> nat
    decreases n,
{
    if n == 0 {
        1
    } else {
        5 * pow5((n - 1) as nat)
    }
}

proof fn lemma_pow5_mono(a: nat, b: nat)
    requires
        a <= b,
    ensures
        pow5(a) <= pow5(b),
    decreases b,
{
    if a < b {
        lemma_pow5_mono(a, (b - 1) as nat);
    }
}

proof fn lemma_pow5_ten()
    ensures
        pow5(10) == 9765625,
{
    reveal_with_fuel(pow5, 11);
}

/// The midpoint vertex of an edge: looked up in the per-level cache, or
/// created fresh with the edge's endpoints as parents.
fn get_midpoint(
    parents: &mut Vec<(u32, u32)>,
    cache: &mut Vec<((u32, u32), u32)>,
    v1: u32,
    v2: u32,
) -> (m: u32)
    requires
        old(parents)@.len() < 0xFFFF_FFFF,
    ensures
        m == spec_mid(old(parents)@, old(cache)@, v1, v2).0,
        final(parents)@ == spec_mid(old(parents)@, old(cache)@, v1, v2).1,
        final(cache)@ == spec_mid(old(parents)@, old(cache)@, v1, v2).2,
        final(parents)@.len() <= old(parents)@.len() + 1,
{
    let key0 = if v1 < v2 {
        v1
    } else {
        v2
    };
    let key1 = if v1 < v2 {
        v2
    } else {
        v1
    };
    let n = cache.len();
    proof {
        assert(cache@.subrange(0, n as int) =~= cache@);
    }
    let mut i: usize = 0;
    while i < n
        invariant
            i <= n,
            n == cache@.len(),
            cache@ == old(cache)@,
            parents@ == old(parents)@,
            find_mid(cache@, (key0, key1)) == find_mid(
                cache@.subrange(i as int, n as int),
                (key0, key1),
            ),
        decreases n - i,
    {
        let c = cache[i];
        proof {
            assert(cache@.subrange(i as int, n as int).first() == cache@[i as int]);
        }
        if c.0.0 == key0 && c.0.1 == key1 {
            proof {
                assert(cache@[i as int].0 == (key0, key1));
            }
            return c.1;
        }
        proof {
            assert(cache@[i as int].0 != (key0, key1));
            assert(cache@.subrange(i as int, n as int).drop_first() =~= cache@.subrange(
                i as int + 1,
                n as int,
            ));
        }
        i = i + 1;
    }
    proof {
        assert(cache@.subrange(n as int, n as int) =~= Seq::<((u32, u32), u32)>::empty());
    }
    let idx = parents.len() as u32;
    parents.push((key0, key1));
    cache.push(((key0, key1), idx));
    idx
}

/// Builds the icosphere topology: the parent pair of every vertex (a base
/// vertex is its own parent; a later vertex is the normalized midpoint of
/// its two earlier parents) and the flattened triangle index list, after
/// the given number of midpoint subdivisions of the base icosahedron.
pub fn icosphere_topology(subdivisions: u32) -> (r: (Vec<(u32, u32)>, Vec<u32>))
    requires
        subdivisions <= 10,
    ensures
        r.0@ == spec_icosphere(subdivisions as int).0,
        r.1@ == spec_icosphere(subdivisions as int).1,
        r.1@.len() == 60 * pow4(subdivisions as nat),
{
    proof {
        lemma_levels_len(subdivisions as int, base_parents(), base_tris(), 0);
    }
    let mut parents: Vec<(u32, u32)> = Vec::new();
    let mut k: usize = 0;
    while k < 12
        invariant
            k <= 12,
            parents@.len() == k,
            forall|j: int| 0 <= j < k ==> #[trigger] parents@[j] == (j as u32, j as u32),
        decreases 12 - k,
    {
        parents.push((k as u32, k as u32));
        k = k + 1;
    }
    proof {
        assert(parents@ =~= base_parents());
    }
    let tris_init: Vec<u32> = vec![
        0u32, 11, 5, 0, 5, 1, 0, 1, 7, 0, 7, 10, 0, 10, 11, 1, 5, 9, 5, 11, 4, 11, 10, 2, 10, 7,
        6, 7, 1, 8, 3, 9, 4, 3, 4, 2, 3, 2, 6, 3, 6, 8, 3, 8, 9, 4, 9, 5, 2, 4, 11, 6, 2, 10, 8,
        6, 7, 9, 8, 1,
    ];
    let mut tris = tris_init;
    proof {
        assert(tris@ =~= base_tris());
    }
    let mut lv: u32 = 0;
    while lv < subdivisions
        invariant
            lv <= subdivisions,
            subdivisions <= 10,
            spec_levels(subdivisions - lv, parents@, tris@) == spec_icosphere(
                subdivisions as int,
            ),
            parents@.len() + tris@.len() <= 72 * pow5(lv as nat),
        decreases subdivisions - lv,
    {
        let ntris = tris.len() / 3;
        proof {
            vstd::arithmetic::div_mod::lemma_fundamental_div_mod(tris@.len() as int, 3);
            vstd::arithmetic::div_mod::lemma_mod_bound(tris@.len() as int, 3);
            lemma_pow5_mono(lv as nat, 10);
            lemma_pow5_ten();
        }
        let mut cache: Vec<((u32, u32), u32)> = Vec::new();
        let mut newtris: Vec<u32> = Vec::new();
        let ghost par0 = parents@;
        let ghost tris0 = tris@;
        let mut t: usize = 0;
        while t < ntris
            invariant
                t <= ntris,
                tris@ == tris0,
                ntris == tris0.len() as int / 3,
                3 * (ntris as int) <= tris0.len(),
                parents@ == spec_level(tris0, t as int, par0).0,
                cache@ == spec_level(tris0, t as int, par0).1,
                newtris@ == spec_level(tris0, t as int, par0).2,
                parents@.len() <= par0.len() + 3 * t,
                newtris@.len() == 12 * t,
                par0.len() + tris0.len() <= 72 * pow5(lv as nat),
                72 * pow5(lv as nat) <= 72 * 9765625,
            decreases ntris - t,
        {
            let v1 = tris[3 * t];
            let v2 = tris[3 * t + 1];
            let v3 = tris[3 * t + 2];
            let a = get_midpoint(&mut parents, &mut cache, v1, v2);
            let b = get_midpoint(&mut parents, &mut cache, v2, v3);
            let c = get_midpoint(&mut parents, &mut cache, v3, v1);
            newtris.push(v1);
            newtris.push(a);
            newtris.push(c);
            newtris.push(v2);
            newtris.push(b);
            newtris.push(a);
            newtris.push(v3);
            newtris.push(c);
            newtris.push(b);
            newtris.push(a);
            newtris.push(b);
            newtris.push(c);
            proof {
                assert(newtris@ =~= spec_level(tris0, t as int + 1, par0).2);
            }
            t = t + 1;
        }
        tris = newtris;
        lv = lv + 1;
    }
    (parents, tris)
}

} // verus!
