//! The dedup tree walker: a three-generation radial layout of the related-key
//! graph around a root key, with deduplication against shallower generations,
//! even angular subdivision, and a ring radius that grows with an animation
//! tick until it saturates.

use vstd::prelude::*;
use vstd::math::min;
use vstd::arithmetic::div_mod::{
    lemma_div_multiples_vanish, lemma_fundamental_div_mod, lemma_remainder_lower,
};
use vstd::arithmetic::mul::lemma_mul_inequality;
use crate::pitch::{Key, Spelling};
use crate::related::{
    compute_related_keys, lemma_related_keys_octave_bound, spec_related_keys, spec_related_ok,
};

verus! {

/// Sixths of a degree in a full turn. Angles are kept in sixths of a degree
/// so that every angular subdivision the walker performs stays exact.
pub const FULL_TURN_SIXTHS: u32 = 2160;

/// The angular slice granted to each generation-1 branch for its children:
/// a sixth of the circle, 60 degrees.
pub const GEN2_SLICE_SIXTHS: u32 = 360;

/// The angular slice granted to each generation-2 branch for its children:
/// a thirty-sixth of the circle, 10 degrees.
pub const GEN3_SLICE_SIXTHS: u32 = 60;

/// Ring radii for the three generations and the growth speed per tick, in
/// the renderer's distance units. Radii grow outward ring by ring.
#[derive(Clone, Copy, Debug, PartialEq, Eq, Structural)]
pub struct LayoutConfig {
    pub ring1_radius: u32,
    pub ring2_radius: u32,
    pub ring3_radius: u32,
    pub growth_speed: u32,
}

impl LayoutConfig {
    /// The radii are positive and strictly nested, and the growth speed is
    /// positive.
    pub open spec fn wf(self) -> bool {
        0 < self.growth_speed && 0 < self.ring1_radius < self.ring2_radius < self.ring3_radius
    }
}

/// One laid-out node. `angle_sixths` is the node's angle in sixths of a
/// degree; `radius` is its distance from the center at the current tick and
/// `target_radius` the ring radius it saturates at. The parent's polar
/// coordinates are carried along so a renderer can draw the connecting edge
/// without recomputing geometry.
#[derive(Clone, Copy, Debug, PartialEq, Eq, Structural)]
pub struct TreeNode {
    pub key: Key,
    pub generation: u32,
    pub angle_sixths: u32,
    pub radius: u32,
    pub target_radius: u32,
    pub parent_angle_sixths: u32,
    pub parent_radius: u32,
}

/// The radius drawn at a tick: it grows by `speed` per tick and saturates at
/// the ring radius.
pub open spec fn spec_radius_at(tick: int, speed: int, ring: int) -> int {
    min(tick * speed, ring)
}

/// `min(tick * speed, ring)`, the distance a ring has grown to by `tick`.
pub fn radius_at_tick(tick: u32, speed: u32, ring: u32) -> (r: u32)
    ensures
        r == spec_radius_at(tick as int, speed as int, ring as int),
{
    proof {
        assert((tick as int) * (speed as int) <= (u32::MAX as int) * (u32::MAX as int))
            by (nonlinear_arith)
            requires
                0 <= tick as int <= u32::MAX as int,
                0 <= speed as int <= u32::MAX as int,
        ;
    }
    let grown: u64 = tick as u64 * speed as u64;
    if grown < ring as u64 {
        grown as u32
    } else {
        ring
    }
}

/// The drawn radius never shrinks as the tick counter grows, stays at or
/// under the ring radius, and once `tick * speed` has reached the ring
/// radius it equals the ring radius exactly.
pub proof fn lemma_radius_monotone_saturates(t1: int, t2: int, speed: int, ring: int)
    requires
        0 <= t1 <= t2,
        0 <= speed,
        0 <= ring,
    ensures
        spec_radius_at(t1, speed, ring) <= spec_radius_at(t2, speed, ring),
        spec_radius_at(t1, speed, ring) <= ring,
        t1 * speed >= ring ==> spec_radius_at(t1, speed, ring) == ring,
{
    lemma_mul_inequality(t1, t2, speed);
}

/// The angle granted to retained child `index` of `count` inside a parent's
/// angular slice: the slice is subdivided evenly by the retained count,
/// starting at the parent's own angle.
pub open spec fn spec_child_angle(parent_angle: int, slice: int, count: int, index: int) -> int {
    parent_angle + (slice / count) * index
}

/// The keys of `keys`, in order, whose spelling is not in `seen`.
pub open spec fn spec_retained(keys: Seq<Key>, seen: Seq<Spelling>) -> Seq<Key>
    decreases keys.len(),
{
    if keys.len() == 0 {
        Seq::empty()
    } else {
        let prefix = spec_retained(keys.drop_last(), seen);
        if seen.contains(keys.last().spec_spelling()) {
            prefix
        } else {
            prefix.push(keys.last())
        }
    }
}

/// Retained keys come from `keys`, never carry a spelling in `seen`, and
/// there are never more of them than of `keys`.
pub proof fn lemma_retained_props(keys: Seq<Key>, seen: Seq<Spelling>)
    ensures
        spec_retained(keys, seen).len() <= keys.len(),
        forall|j: int| 0 <= j < spec_retained(keys, seen).len()
            ==> keys.contains(#[trigger] spec_retained(keys, seen)[j])
                && !seen.contains(spec_retained(keys, seen)[j].spec_spelling()),
    decreases keys.len(),
{
    if keys.len() > 0 {
        lemma_retained_props(keys.drop_last(), seen);
        assert forall|j: int| 0 <= j < spec_retained(keys, seen).len() implies
            keys.contains(#[trigger] spec_retained(keys, seen)[j])
                && !seen.contains(spec_retained(keys, seen)[j].spec_spelling()) by {
            let prefix = spec_retained(keys.drop_last(), seen);
            if j < prefix.len() {
                assert(keys.drop_last().contains(prefix[j]));
                let w = choose|w: int| 0 <= w < keys.drop_last().len()
                    && keys.drop_last()[w] == prefix[j];
                assert(keys[w] == prefix[j]);
            } else {
                assert(spec_retained(keys, seen)[j] == keys.last());
            }
        }
    }
}

/// When nothing has been seen yet, nothing is filtered out.
pub proof fn lemma_retained_of_empty(keys: Seq<Key>)
    ensures
        spec_retained(keys, Seq::empty()) == keys,
    decreases keys.len(),
{
    if keys.len() > 0 {
        lemma_retained_of_empty(keys.drop_last());
        assert(spec_retained(keys, Seq::empty()) =~= keys);
    } else {
        assert(spec_retained(keys, Seq::empty()) =~= keys);
    }
}

/// Whether `seen` holds the spelling `s`.
pub fn contains_spelling(seen: &Vec<Spelling>, s: Spelling) -> (b: bool)
    ensures
        b == seen@.contains(s),
{
    let mut i: usize = 0;
    while i < seen.len()
        invariant
            i <= seen@.len(),
            forall|q: int| 0 <= q < i ==> seen@[q] != s,
        decreases seen@.len() - i,
    {
        if seen[i] == s {
            return true;
        }
        i = i + 1;
    }
    false
}

/// The nodes of one expanded branch: the retained children in order, child
/// `j` of `count` at angle `parent angle + (slice / count) * j`, drawn at
/// the tick's radius for the branch's ring.
pub open spec fn spec_branch_nodes(
    parent: TreeNode,
    retained: Seq<Key>,
    slice: u32,
    generation: u32,
    ring: u32,
    tick: u32,
    speed: u32,
) -> Seq<TreeNode> {
    Seq::new(
        retained.len(),
        |j: int| TreeNode {
            key: retained[j],
            generation,
            angle_sixths: spec_child_angle(
                parent.angle_sixths as int,
                slice as int,
                retained.len() as int,
                j,
            ) as u32,
            radius: spec_radius_at(tick as int, speed as int, ring as int) as u32,
            target_radius: ring,
            parent_angle_sixths: parent.angle_sixths,
            parent_radius: parent.radius,
        },
    )
}

/// Expand one branch: keep the children of `keys` whose spelling is not in
/// `seen`, spread them evenly over the slice of circle starting at the
/// parent's angle, and place them on the given ring. A branch whose children
/// are all already seen yields no nodes.
pub fn expand_branch(
    parent: &TreeNode,
    keys: &Vec<Key>,
    seen: &Vec<Spelling>,
    slice: u32,
    generation: u32,
    ring: u32,
    tick: u32,
    speed: u32,
) -> (out: Vec<TreeNode>)
    requires
        keys@.len() <= 6,
        parent.angle_sixths + slice <= u32::MAX,
    ensures
        out@ == spec_branch_nodes(
            *parent,
            spec_retained(keys@, seen@),
            slice,
            generation,
            ring,
            tick,
            speed,
        ),
{
    let mut retained: Vec<Key> = Vec::new();
    let mut i: usize = 0;
    while i < keys.len()
        invariant
            i <= keys@.len(),
            retained@ == spec_retained(keys@.take(i as int), seen@),
        decreases keys@.len() - i,
    {
        let k = keys[i];
        if !contains_spelling(seen, k.spelling()) {
            retained.push(k);
        }
        i = i + 1;
        proof {
            assert(keys@.take(i as int).drop_last() =~= keys@.take(i as int - 1));
            assert(keys@.take(i as int).last() == keys@[i as int - 1]);
        }
    }
    proof {
        assert(keys@.take(keys@.len() as int) =~= keys@);
        lemma_retained_props(keys@, seen@);
    }
    let count: usize = retained.len();
    let mut out: Vec<TreeNode> = Vec::new();
    if count == 0 {
        proof {
            assert(out@ =~= spec_branch_nodes(
                *parent,
                spec_retained(keys@, seen@),
                slice,
                generation,
                ring,
                tick,
                speed,
            ));
        }
        return out;
    }
    let step_angle: u32 = slice / (count as u32);
    let node_radius: u32 = radius_at_tick(tick, speed, ring);
    proof {
        lemma_fundamental_div_mod(slice as int, count as int);
        lemma_remainder_lower(slice as int, count as int);
        assert(step_angle * count <= slice);
        assert(spec_radius_at(tick as int, speed as int, ring as int) <= ring);
        assert(0 <= spec_radius_at(tick as int, speed as int, ring as int));
    }
    let mut j: usize = 0;
    while j < count
        invariant
            j <= count,
            count == retained@.len(),
            count <= keys@.len() <= 6,
            retained@ == spec_retained(keys@, seen@),
            step_angle == slice as int / count as int,
            step_angle * count <= slice,
            parent.angle_sixths + slice <= u32::MAX,
            node_radius == spec_radius_at(tick as int, speed as int, ring as int),
            out@.len() == j,
            forall|q: int| 0 <= q < j ==> out@[q] == spec_branch_nodes(
                *parent,
                spec_retained(keys@, seen@),
                slice,
                generation,
                ring,
                tick,
                speed,
            )[q],
        decreases count - j,
    {
        proof {
            assert((step_angle as int) * (j as int) + (step_angle as int)
                <= (step_angle as int) * (count as int)) by (nonlinear_arith)
                requires
                    0 <= step_angle as int,
                    0 <= j as int,
                    (j as int) < (count as int),
            ;
            assert((step_angle as int) * (j as int) <= slice as int);
        }
        let angle: u32 = parent.angle_sixths + step_angle * (j as u32);
        out.push(
            TreeNode {
                key: retained[j],
                generation,
                angle_sixths: angle,
                radius: node_radius,
                target_radius: ring,
                parent_angle_sixths: parent.angle_sixths,
                parent_radius: parent.radius,
            },
        );
        j = j + 1;
    }
    proof {
        assert(out@ =~= spec_branch_nodes(
            *parent,
            spec_retained(keys@, seen@),
            slice,
            generation,
            ring,
            tick,
            speed,
        ));
    }
    out
}

/// The node standing for the root key at the center of the display.
pub open spec fn spec_root_node(root: Key) -> TreeNode {
    TreeNode {
        key: root,
        generation: 0,
        angle_sixths: 0,
        radius: 0,
        target_radius: 0,
        parent_angle_sixths: 0,
        parent_radius: 0,
    }
}

/// The children one parent contributes to the next generation: its related
/// keys filtered by `seen`, or nothing when the resolver refuses the
/// parent's key — that branch is truncated rather than failing the pass.
pub open spec fn spec_parent_children(
    parent: TreeNode,
    seen: Seq<Spelling>,
    slice: u32,
    generation: u32,
    ring: u32,
    tick: u32,
    speed: u32,
) -> Seq<TreeNode> {
    if spec_related_ok(parent.key) {
        spec_branch_nodes(
            parent,
            spec_retained(spec_related_keys(parent.key), seen),
            slice,
            generation,
            ring,
            tick,
            speed,
        )
    } else {
        Seq::empty()
    }
}

/// The nodes of one whole generation: each parent's surviving children, in
/// parent order.
pub open spec fn spec_level_nodes(
    parents: Seq<TreeNode>,
    seen: Seq<Spelling>,
    slice: u32,
    generation: u32,
    ring: u32,
    tick: u32,
    speed: u32,
) -> Seq<TreeNode>
    decreases parents.len(),
{
    if parents.len() == 0 {
        Seq::empty()
    } else {
        spec_level_nodes(parents.drop_last(), seen, slice, generation, ring, tick, speed)
            + spec_parent_children(parents.last(), seen, slice, generation, ring, tick, speed)
    }
}

/// The spellings of a node sequence, in node order.
pub open spec fn spec_node_spellings(nodes: Seq<TreeNode>) -> Seq<Spelling> {
    nodes.map_values(|n: TreeNode| n.key.spec_spelling())
}

/// Generation 1: the root's related keys spread over the full circle.
pub open spec fn spec_gen1(root: Key, tick: u32, cfg: LayoutConfig) -> Seq<TreeNode> {
    spec_parent_children(
        spec_root_node(root),
        Seq::empty(),
        FULL_TURN_SIXTHS,
        1,
        cfg.ring1_radius,
        tick,
        cfg.growth_speed,
    )
}

/// The dedup set after generation 1: the root's spelling and every
/// generation-1 spelling.
pub open spec fn spec_dedup1(root: Key, tick: u32, cfg: LayoutConfig) -> Seq<Spelling> {
    seq![root.spec_spelling()] + spec_node_spellings(spec_gen1(root, tick, cfg))
}

/// Generation 2: each generation-1 branch expanded inside its 60-degree
/// slice, filtered against the root and generation 1.
pub open spec fn spec_gen2(root: Key, tick: u32, cfg: LayoutConfig) -> Seq<TreeNode> {
    spec_level_nodes(
        spec_gen1(root, tick, cfg),
        spec_dedup1(root, tick, cfg),
        GEN2_SLICE_SIXTHS,
        2,
        cfg.ring2_radius,
        tick,
        cfg.growth_speed,
    )
}

/// The dedup set after generation 2: everything shown so far.
pub open spec fn spec_dedup2(root: Key, tick: u32, cfg: LayoutConfig) -> Seq<Spelling> {
    spec_dedup1(root, tick, cfg) + spec_node_spellings(spec_gen2(root, tick, cfg))
}

/// Generation 3: each generation-2 branch expanded inside its 10-degree
/// slice, filtered against everything already shown.
pub open spec fn spec_gen3(root: Key, tick: u32, cfg: LayoutConfig) -> Seq<TreeNode> {
    spec_level_nodes(
        spec_gen2(root, tick, cfg),
        spec_dedup2(root, tick, cfg),
        GEN3_SLICE_SIXTHS,
        3,
        cfg.ring3_radius,
        tick,
        cfg.growth_speed,
    )
}

/// The whole layout at one tick: the root node, then generations 1 to 3.
pub open spec fn spec_layout(root: Key, tick: u32, cfg: LayoutConfig) -> Seq<TreeNode> {
    seq![spec_root_node(root)] + spec_gen1(root, tick, cfg) + spec_gen2(root, tick, cfg)
        + spec_gen3(root, tick, cfg)
}

/// What holds of every node of one expanded branch: its generation, ring
/// and radius are the branch's, its angle stays inside the parent's slice,
/// and it carries the parent's polar coordinates.
pub proof fn lemma_branch_nodes_props(
    parent: TreeNode,
    retained: Seq<Key>,
    slice: u32,
    generation: u32,
    ring: u32,
    tick: u32,
    speed: u32,
)
    requires
        parent.angle_sixths + slice <= u32::MAX,
    ensures
        spec_branch_nodes(parent, retained, slice, generation, ring, tick, speed).len()
            == retained.len(),
        forall|j: int| 0 <= j < retained.len()
            ==> {
                let n = #[trigger] spec_branch_nodes(
                    parent,
                    retained,
                    slice,
                    generation,
                    ring,
                    tick,
                    speed,
                )[j];
                n.key == retained[j]
                    && n.generation == generation
                    && n.angle_sixths <= parent.angle_sixths + slice
                    && n.angle_sixths >= parent.angle_sixths
                    && n.radius == spec_radius_at(tick as int, speed as int, ring as int)
                    && n.target_radius == ring
                    && n.parent_angle_sixths == parent.angle_sixths
                    && n.parent_radius == parent.radius
            },
{
    assert forall|j: int| 0 <= j < retained.len() implies {
        let n = #[trigger] spec_branch_nodes(parent, retained, slice, generation, ring, tick, speed)[j];
        n.key == retained[j]
            && n.generation == generation
            && n.angle_sixths <= parent.angle_sixths + slice
            && n.angle_sixths >= parent.angle_sixths
            && n.radius == spec_radius_at(tick as int, speed as int, ring as int)
            && n.target_radius == ring
            && n.parent_angle_sixths == parent.angle_sixths
            && n.parent_radius == parent.radius
    } by {
        let c = retained.len() as int;
        let step = slice as int / c;
        lemma_fundamental_div_mod(slice as int, c);
        lemma_remainder_lower(slice as int, c);
        assert(step * c <= slice as int);
        assert(step * j + step <= step * c) by (nonlinear_arith)
            requires
                0 <= step,
                0 <= j,
                j < c,
        ;
        assert(0 <= step * j) by (nonlinear_arith)
            requires
                0 <= step,
                0 <= j,
        ;
        assert(spec_child_angle(parent.angle_sixths as int, slice as int, c, j)
            <= parent.angle_sixths + slice);
        assert(0 <= spec_radius_at(tick as int, speed as int, ring as int) <= ring);
    }
}

/// What holds of every child a parent contributes: it sits on the level's
/// ring at the tick's radius, stays inside the parent's angular slice, its
/// key is one of the parent's related keys (so at most one octave higher),
/// and its spelling is not among those already seen.
pub proof fn lemma_parent_children_props(
    parent: TreeNode,
    seen: Seq<Spelling>,
    slice: u32,
    generation: u32,
    ring: u32,
    tick: u32,
    speed: u32,
)
    requires
        parent.angle_sixths + slice <= u32::MAX,
        parent.key.root.octave.0 < u32::MAX,
    ensures
        forall|t: int|
            0 <= t < spec_parent_children(parent, seen, slice, generation, ring, tick, speed).len()
            ==> {
                let n = #[trigger] spec_parent_children(
                    parent,
                    seen,
                    slice,
                    generation,
                    ring,
                    tick,
                    speed,
                )[t];
                n.generation == generation
                    && n.angle_sixths <= parent.angle_sixths + slice
                    && n.key.root.octave.0 <= parent.key.root.octave.0 + 1
                    && !seen.contains(n.key.spec_spelling())
                    && n.radius == spec_radius_at(tick as int, speed as int, ring as int)
                    && n.target_radius == ring
            },
{
    if spec_related_ok(parent.key) {
        let related = spec_related_keys(parent.key);
        let retained = spec_retained(related, seen);
        lemma_retained_props(related, seen);
        lemma_related_keys_octave_bound(parent.key);
        lemma_branch_nodes_props(parent, retained, slice, generation, ring, tick, speed);
        assert forall|t: int|
            0 <= t < spec_parent_children(parent, seen, slice, generation, ring, tick, speed).len()
            implies {
                let n = #[trigger] spec_parent_children(
                    parent,
                    seen,
                    slice,
                    generation,
                    ring,
                    tick,
                    speed,
                )[t];
                n.generation == generation
                    && n.angle_sixths <= parent.angle_sixths + slice
                    && n.key.root.octave.0 <= parent.key.root.octave.0 + 1
                    && !seen.contains(n.key.spec_spelling())
                    && n.radius == spec_radius_at(tick as int, speed as int, ring as int)
                    && n.target_radius == ring
            } by {
            assert(retained.contains(retained[t]));
            let w = choose|w: int| 0 <= w < related.len() && related[w] == retained[t];
            assert(related[w].root.octave.0 <= parent.key.root.octave.0 + 1);
        }
    }
}

/// What holds of every node of one whole generation, given bounds on its
/// parents: the level's generation tag, ring and radius, angles inside each
/// parent's slice, octaves at most one higher than any parent's, and no
/// spelling that was already seen.
pub proof fn lemma_level_nodes_props(
    parents: Seq<TreeNode>,
    seen: Seq<Spelling>,
    slice: u32,
    generation: u32,
    ring: u32,
    tick: u32,
    speed: u32,
    angle_bound: int,
    octave_bound: int,
)
    requires
        forall|p: int| 0 <= p < parents.len()
            ==> (#[trigger] parents[p]).angle_sixths <= angle_bound
                && parents[p].key.root.octave.0 <= octave_bound,
        angle_bound + slice <= u32::MAX,
        0 <= octave_bound,
        octave_bound < u32::MAX,
    ensures
        forall|t: int|
            0 <= t < spec_level_nodes(parents, seen, slice, generation, ring, tick, speed).len()
            ==> {
                let n = #[trigger] spec_level_nodes(
                    parents,
                    seen,
                    slice,
                    generation,
                    ring,
                    tick,
                    speed,
                )[t];
                n.generation == generation
                    && n.angle_sixths <= angle_bound + slice
                    && n.key.root.octave.0 <= octave_bound + 1
                    && !seen.contains(n.key.spec_spelling())
                    && n.radius == spec_radius_at(tick as int, speed as int, ring as int)
                    && n.target_radius == ring
            },
    decreases parents.len(),
{
    if parents.len() > 0 {
        let prefix = spec_level_nodes(parents.drop_last(), seen, slice, generation, ring, tick, speed);
        let last = parents.last();
        lemma_level_nodes_props(
            parents.drop_last(),
            seen,
            slice,
            generation,
            ring,
            tick,
            speed,
            angle_bound,
            octave_bound,
        );
        assert(parents.contains(last));
        lemma_parent_children_props(last, seen, slice, generation, ring, tick, speed);
        assert forall|t: int|
            0 <= t < spec_level_nodes(parents, seen, slice, generation, ring, tick, speed).len()
            implies {
                let n = #[trigger] spec_level_nodes(
                    parents,
                    seen,
                    slice,
                    generation,
                    ring,
                    tick,
                    speed,
                )[t];
                n.generation == generation
                    && n.angle_sixths <= angle_bound + slice
                    && n.key.root.octave.0 <= octave_bound + 1
                    && !seen.contains(n.key.spec_spelling())
                    && n.radius == spec_radius_at(tick as int, speed as int, ring as int)
                    && n.target_radius == ring
            } by {
            let whole = spec_level_nodes(parents, seen, slice, generation, ring, tick, speed);
            if t < prefix.len() {
                assert(whole[t] == prefix[t]);
            } else {
                let children = spec_parent_children(last, seen, slice, generation, ring, tick, speed);
                assert(whole[t] == children[t - prefix.len()]);
            }
        }
    }
}

/// Expand a whole generation: the surviving children of every parent, in
/// parent order. A parent whose key the resolver refuses contributes no
/// children, and the rest of the generation is still laid out.
pub fn expand_level(
    parents: &Vec<TreeNode>,
    seen: &Vec<Spelling>,
    slice: u32,
    generation: u32,
    ring: u32,
    tick: u32,
    speed: u32,
) -> (out: Vec<TreeNode>)
    requires
        forall|p: int| 0 <= p < parents@.len()
            ==> (#[trigger] parents@[p]).angle_sixths + slice <= u32::MAX,
        forall|p: int| 0 <= p < parents@.len()
            ==> (#[trigger] parents@[p]).key.root.octave.0 < u32::MAX,
    ensures
        out@ == spec_level_nodes(parents@, seen@, slice, generation, ring, tick, speed),
{
    let mut out: Vec<TreeNode> = Vec::new();
    let mut i: usize = 0;
    while i < parents.len()
        invariant
            i <= parents@.len(),
            forall|p: int| 0 <= p < parents@.len()
                ==> (#[trigger] parents@[p]).angle_sixths + slice <= u32::MAX,
            forall|p: int| 0 <= p < parents@.len()
                ==> (#[trigger] parents@[p]).key.root.octave.0 < u32::MAX,
            out@ == spec_level_nodes(
                parents@.take(i as int),
                seen@,
                slice,
                generation,
                ring,
                tick,
                speed,
            ),
        decreases parents@.len() - i,
    {
        let parent = parents[i];
        match compute_related_keys(&parent.key) {
            Ok(keys) => {
                let mut branch = expand_branch(
                    &parent,
                    &keys,
                    seen,
                    slice,
                    generation,
                    ring,
                    tick,
                    speed,
                );
                out.append(&mut branch);
            },
            Err(_) => {
                proof {
                    assert(spec_parent_children(
                        parents@[i as int],
                        seen@,
                        slice,
                        generation,
                        ring,
                        tick,
                        speed,
                    ) =~= Seq::empty());
                }
            },
        }
        i = i + 1;
        proof {
            assert(parents@.take(i as int).drop_last() =~= parents@.take(i as int - 1));
            assert(parents@.take(i as int).last() == parents@[i as int - 1]);
            assert(out@ =~= spec_level_nodes(
                parents@.take(i as int),
                seen@,
                slice,
                generation,
                ring,
                tick,
                speed,
            ));
        }
    }
    proof {
        assert(parents@.take(parents@.len() as int) =~= parents@);
    }
    out
}

/// Lay out the three-generation related-key tree around `root` at one
/// animation tick: the root at the center, its related keys spread evenly
/// over the full circle on ring 1, each branch's surviving children spread
/// inside a 60-degree slice on ring 2, and theirs inside a 10-degree slice
/// on ring 3, every generation deduplicated against the spellings already
/// shown. A branch whose key the resolver refuses is truncated; the rest of
/// the tree is still laid out.
pub fn compute_layout(root: &Key, tick: u32, cfg: &LayoutConfig) -> (nodes: Vec<TreeNode>)
    requires
        cfg.wf(),
        root.root.octave.0 + 3 <= u32::MAX,
    ensures
        nodes@ == spec_layout(*root, tick, *cfg),
{
    let root_node = TreeNode {
        key: *root,
        generation: 0,
        angle_sixths: 0,
        radius: 0,
        target_radius: 0,
        parent_angle_sixths: 0,
        parent_radius: 0,
    };
    proof {
        assert(root_node == spec_root_node(*root));
    }
    let mut root_parents: Vec<TreeNode> = Vec::new();
    root_parents.push(root_node);
    let empty_seen: Vec<Spelling> = Vec::new();
    let mut g1 = expand_level(
        &root_parents,
        &empty_seen,
        FULL_TURN_SIXTHS,
        1,
        cfg.ring1_radius,
        tick,
        cfg.growth_speed,
    );
    proof {
        assert(empty_seen@ =~= Seq::<Spelling>::empty());
        assert(root_parents@.len() == 1);
        assert(root_parents@.drop_last() =~= Seq::<TreeNode>::empty());
        assert(root_parents@.last() == root_node);
        assert(spec_level_nodes(
            Seq::<TreeNode>::empty(),
            empty_seen@,
            FULL_TURN_SIXTHS,
            1,
            cfg.ring1_radius,
            tick,
            cfg.growth_speed,
        ) =~= Seq::<TreeNode>::empty());
        assert(g1@ =~= spec_parent_children(
            root_node,
            Seq::empty(),
            FULL_TURN_SIXTHS,
            1,
            cfg.ring1_radius,
            tick,
            cfg.growth_speed,
        ));
        assert(g1@ =~= spec_gen1(*root, tick, *cfg));
        lemma_parent_children_props(
            root_node,
            Seq::empty(),
            FULL_TURN_SIXTHS,
            1,
            cfg.ring1_radius,
            tick,
            cfg.growth_speed,
        );
        assert forall|p: int| 0 <= p < g1@.len() implies
            (#[trigger] g1@[p]).angle_sixths <= FULL_TURN_SIXTHS
                && g1@[p].key.root.octave.0 <= root.root.octave.0 + 1 by {
            assert(g1@[p] == spec_parent_children(
                root_node,
                Seq::empty(),
                FULL_TURN_SIXTHS,
                1,
                cfg.ring1_radius,
                tick,
                cfg.growth_speed,
            )[p]);
        }
    }
    let mut seen: Vec<Spelling> = Vec::new();
    seen.push(root.spelling());
    push_spellings(&mut seen, &g1);
    proof {
        assert(seen@ =~= spec_dedup1(*root, tick, *cfg));
    }
    let mut g2 = expand_level(
        &g1,
        &seen,
        GEN2_SLICE_SIXTHS,
        2,
        cfg.ring2_radius,
        tick,
        cfg.growth_speed,
    );
    proof {
        assert(g2@ =~= spec_gen2(*root, tick, *cfg));
        lemma_level_nodes_props(
            g1@,
            seen@,
            GEN2_SLICE_SIXTHS,
            2,
            cfg.ring2_radius,
            tick,
            cfg.growth_speed,
            FULL_TURN_SIXTHS as int,
            root.root.octave.0 + 1,
        );
        assert forall|p: int| 0 <= p < g2@.len() implies
            (#[trigger] g2@[p]).angle_sixths <= FULL_TURN_SIXTHS + GEN2_SLICE_SIXTHS
                && g2@[p].key.root.octave.0 <= root.root.octave.0 + 2 by {
            assert(g2@[p] == spec_level_nodes(
                g1@,
                seen@,
                GEN2_SLICE_SIXTHS,
                2,
                cfg.ring2_radius,
                tick,
                cfg.growth_speed,
            )[p]);
        }
    }
    push_spellings(&mut seen, &g2);
    proof {
        assert(seen@ =~= spec_dedup2(*root, tick, *cfg));
    }
    let mut g3 = expand_level(
        &g2,
        &seen,
        GEN3_SLICE_SIXTHS,
        3,
        cfg.ring3_radius,
        tick,
        cfg.growth_speed,
    );
    proof {
        assert(g3@ =~= spec_gen3(*root, tick, *cfg));
    }
    let mut nodes: Vec<TreeNode> = Vec::new();
    nodes.push(root_node);
    nodes.append(&mut g1);
    nodes.append(&mut g2);
    nodes.append(&mut g3);
    proof {
        assert(nodes@ =~= spec_layout(*root, tick, *cfg));
    }
    nodes
}

/// Record the spellings of freshly laid-out nodes in the dedup set.
fn push_spellings(seen: &mut Vec<Spelling>, nodes: &Vec<TreeNode>)
    ensures
        final(seen)@ == old(seen)@ + spec_node_spellings(nodes@),
{
    let mut i: usize = 0;
    while i < nodes.len()
        invariant
            i <= nodes@.len(),
            seen@ == old(seen)@ + spec_node_spellings(nodes@.take(i as int)),
        decreases nodes@.len() - i,
    {
        seen.push(nodes[i].key.spelling());
        i = i + 1;
        proof {
            assert(seen@ =~= old(seen)@ + spec_node_spellings(nodes@.take(i as int)));
        }
    }
    proof {
        assert(nodes@.take(nodes@.len() as int) =~= nodes@);
        assert(seen@ =~= old(seen)@ + spec_node_spellings(nodes@));
    }
}

/// Dedup invariant of the layout: a generation-2 node never repeats a
/// spelling shown at generation 0 or 1, and a generation-3 node never
/// repeats a spelling shown at generations 0 through 2.
pub proof fn lemma_layout_dedup(root: Key, tick: u32, cfg: LayoutConfig)
    requires
        root.root.octave.0 + 3 <= u32::MAX,
    ensures
        forall|i: int, j: int|
            0 <= i < spec_layout(root, tick, cfg).len()
                && 0 <= j < spec_layout(root, tick, cfg).len()
                && (#[trigger] spec_layout(root, tick, cfg)[i]).generation >= 2
                && (#[trigger] spec_layout(root, tick, cfg)[j]).generation
                    < spec_layout(root, tick, cfg)[i].generation
            ==> spec_layout(root, tick, cfg)[i].key.spec_spelling()
                != spec_layout(root, tick, cfg)[j].key.spec_spelling(),
{
    let layout = spec_layout(root, tick, cfg);
    let rn = spec_root_node(root);
    let g1 = spec_gen1(root, tick, cfg);
    let g2 = spec_gen2(root, tick, cfg);
    let g3 = spec_gen3(root, tick, cfg);
    let d1 = spec_dedup1(root, tick, cfg);
    let d2 = spec_dedup2(root, tick, cfg);
    let octave = root.root.octave.0 as int;
    lemma_parent_children_props(
        rn,
        Seq::empty(),
        FULL_TURN_SIXTHS,
        1,
        cfg.ring1_radius,
        tick,
        cfg.growth_speed,
    );
    assert forall|p: int| 0 <= p < g1.len() implies
        (#[trigger] g1[p]).generation == 1
            && g1[p].angle_sixths <= FULL_TURN_SIXTHS
            && g1[p].key.root.octave.0 <= octave + 1 by {
        assert(g1[p] == spec_parent_children(
            rn,
            Seq::empty(),
            FULL_TURN_SIXTHS,
            1,
            cfg.ring1_radius,
            tick,
            cfg.growth_speed,
        )[p]);
    }
    lemma_level_nodes_props(
        g1,
        d1,
        GEN2_SLICE_SIXTHS,
        2,
        cfg.ring2_radius,
        tick,
        cfg.growth_speed,
        FULL_TURN_SIXTHS as int,
        octave + 1,
    );
    assert forall|p: int| 0 <= p < g2.len() implies
        (#[trigger] g2[p]).generation == 2
            && g2[p].angle_sixths <= FULL_TURN_SIXTHS + GEN2_SLICE_SIXTHS
            && g2[p].key.root.octave.0 <= octave + 2
            && !d1.contains(g2[p].key.spec_spelling()) by {
        assert(g2[p] == spec_level_nodes(
            g1,
            d1,
            GEN2_SLICE_SIXTHS,
            2,
            cfg.ring2_radius,
            tick,
            cfg.growth_speed,
        )[p]);
    }
    lemma_level_nodes_props(
        g2,
        d2,
        GEN3_SLICE_SIXTHS,
        3,
        cfg.ring3_radius,
        tick,
        cfg.growth_speed,
        FULL_TURN_SIXTHS as int + GEN2_SLICE_SIXTHS as int,
        octave + 2,
    );
    assert forall|p: int| 0 <= p < g3.len() implies
        (#[trigger] g3[p]).generation == 3
            && !d2.contains(g3[p].key.spec_spelling()) by {
        assert(g3[p] == spec_level_nodes(
            g2,
            d2,
            GEN3_SLICE_SIXTHS,
            3,
            cfg.ring3_radius,
            tick,
            cfg.growth_speed,
        )[p]);
    }
    // The spellings of everything at generations 0 and 1 are in the first
    // dedup set, and everything through generation 2 is in the second.
    assert(d1[0] == root.spec_spelling());
    assert(d1.contains(rn.key.spec_spelling()));
    assert forall|q: int| 0 <= q < g1.len() implies
        d1.contains((#[trigger] g1[q]).key.spec_spelling()) by {
        assert(d1[1 + q] == spec_node_spellings(g1)[q]);
        assert(spec_node_spellings(g1)[q] == g1[q].key.spec_spelling());
    }
    assert forall|s: Spelling| d1.contains(s) implies d2.contains(s) by {
        let w = choose|w: int| 0 <= w < d1.len() && d1[w] == s;
        assert(d2[w] == s);
    }
    assert forall|q: int| 0 <= q < g2.len() implies
        d2.contains((#[trigger] g2[q]).key.spec_spelling()) by {
        assert(d2[d1.len() + q] == spec_node_spellings(g2)[q]);
        assert(spec_node_spellings(g2)[q] == g2[q].key.spec_spelling());
    }
    // Index bookkeeping: which block each index of the flat list falls in.
    assert forall|i: int, j: int|
        0 <= i < layout.len() && 0 <= j < layout.len()
            && (#[trigger] layout[i]).generation >= 2
            && (#[trigger] layout[j]).generation < layout[i].generation
        implies layout[i].key.spec_spelling() != layout[j].key.spec_spelling() by {
        assert(layout[0] == rn);
        if 1 <= i < 1 + g1.len() {
            assert(layout[i] == g1[i - 1]);
        } else if 1 + g1.len() <= i < 1 + g1.len() + g2.len() {
            assert(layout[i] == g2[i - 1 - g1.len()]);
        } else if i >= 1 + g1.len() + g2.len() {
            assert(layout[i] == g3[i - 1 - g1.len() - g2.len()]);
        }
        if 1 <= j < 1 + g1.len() {
            assert(layout[j] == g1[j - 1]);
        } else if 1 + g1.len() <= j < 1 + g1.len() + g2.len() {
            assert(layout[j] == g2[j - 1 - g1.len()]);
        } else if j >= 1 + g1.len() + g2.len() {
            assert(layout[j] == g3[j - 1 - g1.len() - g2.len()]);
        }
    }
}

/// Subdividing one of the walker's angular slices among `n` siblings is
/// exact and even: sibling `i` stands `slice * i / n` into the slice, and
/// neighbouring siblings differ by the constant `slice / n`.
pub proof fn lemma_child_angles_evenly_spaced(parent_angle: int, slice: int, n: int, i: int)
    requires
        1 <= n <= 6,
        0 <= i < n,
        slice == FULL_TURN_SIXTHS || slice == GEN2_SLICE_SIXTHS || slice == GEN3_SLICE_SIXTHS,
    ensures
        spec_child_angle(parent_angle, slice, n, i) == parent_angle + slice * i / n,
        spec_child_angle(parent_angle, slice, n, i + 1) - spec_child_angle(parent_angle, slice, n, i)
            == slice / n,
{
    let q = slice / n;
    assert(slice % n == 0) by {
        if n == 1 {
            assert(slice % 1int == 0);
        } else if n == 2 {
            assert(2160int % 2 == 0 && 360int % 2 == 0 && 60int % 2 == 0);
        } else if n == 3 {
            assert(2160int % 3 == 0 && 360int % 3 == 0 && 60int % 3 == 0);
        } else if n == 4 {
            assert(2160int % 4 == 0 && 360int % 4 == 0 && 60int % 4 == 0);
        } else if n == 5 {
            assert(2160int % 5 == 0 && 360int % 5 == 0 && 60int % 5 == 0);
        } else {
            assert(2160int % 6 == 0 && 360int % 6 == 0 && 60int % 6 == 0);
        }
    }
    lemma_fundamental_div_mod(slice, n);
    assert(slice == n * q);
    assert(slice * i == n * (q * i)) by (nonlinear_arith)
        requires
            slice == n * q,
    ;
    lemma_div_multiples_vanish(q * i, n);
    assert(q * (i + 1) - q * i == q) by (nonlinear_arith);
}

/// With a resolvable root, generation 1 holds exactly six nodes standing at
/// evenly spaced angles over the full circle: node `i` at
/// `FULL_TURN_SIXTHS * i / 6` sixths of a degree. An unresolvable root
/// yields the bare center node.
pub proof fn lemma_layout_gen1_angles(root: Key, tick: u32, cfg: LayoutConfig)
    ensures
        spec_related_ok(root) ==> spec_gen1(root, tick, cfg).len() == 6,
        spec_related_ok(root) ==> forall|i: int| 0 <= i < 6
            ==> (#[trigger] spec_layout(root, tick, cfg)[1 + i]).generation == 1
                && spec_layout(root, tick, cfg)[1 + i].angle_sixths
                    == FULL_TURN_SIXTHS as int * i / 6,
        !spec_related_ok(root) ==> spec_layout(root, tick, cfg).len() == 1,
{
    let rn = spec_root_node(root);
    let g1 = spec_gen1(root, tick, cfg);
    if spec_related_ok(root) {
        let related = spec_related_keys(root);
        lemma_retained_of_empty(related);
        assert(g1.len() == 6);
        assert forall|i: int| 0 <= i < 6 implies
            (#[trigger] spec_layout(root, tick, cfg)[1 + i]).generation == 1
                && spec_layout(root, tick, cfg)[1 + i].angle_sixths
                    == FULL_TURN_SIXTHS as int * i / 6 by {
            assert(spec_layout(root, tick, cfg)[1 + i] == g1[i]);
            lemma_child_angles_evenly_spaced(0, FULL_TURN_SIXTHS as int, 6, i);
            assert(g1[i].angle_sixths == spec_child_angle(0, FULL_TURN_SIXTHS as int, 6, i));
        }
    } else {
        assert(g1 =~= Seq::<TreeNode>::empty());
        assert(spec_gen2(root, tick, cfg) =~= Seq::<TreeNode>::empty());
        assert(spec_gen3(root, tick, cfg) =~= Seq::<TreeNode>::empty());
        assert(spec_layout(root, tick, cfg).len() == 1);
    }
}

/// Two nodes that agree on everything except their drawn radii: the
/// tick-independent part of a node.
pub open spec fn spec_same_shape_node(x: TreeNode, y: TreeNode) -> bool {
    x.key == y.key && x.generation == y.generation && x.angle_sixths == y.angle_sixths
        && x.target_radius == y.target_radius && x.parent_angle_sixths == y.parent_angle_sixths
}

/// Two node sequences of the same shape: equal except for drawn radii.
pub open spec fn spec_same_shape(a: Seq<TreeNode>, b: Seq<TreeNode>) -> bool {
    a.len() == b.len()
        && forall|i: int| 0 <= i < a.len() ==> spec_same_shape_node(#[trigger] a[i], #[trigger] b[i])
}

/// One parent's children at two different ticks have the same shape: the
/// tick only feeds the drawn radii.
pub proof fn lemma_parent_children_shape(
    p1: TreeNode,
    p2: TreeNode,
    seen: Seq<Spelling>,
    slice: u32,
    generation: u32,
    ring: u32,
    t1: u32,
    t2: u32,
    speed: u32,
)
    requires
        spec_same_shape_node(p1, p2),
    ensures
        spec_same_shape(
            spec_parent_children(p1, seen, slice, generation, ring, t1, speed),
            spec_parent_children(p2, seen, slice, generation, ring, t2, speed),
        ),
{
    let a = spec_parent_children(p1, seen, slice, generation, ring, t1, speed);
    let b = spec_parent_children(p2, seen, slice, generation, ring, t2, speed);
    if spec_related_ok(p1.key) {
        let retained = spec_retained(spec_related_keys(p1.key), seen);
        assert forall|i: int| 0 <= i < a.len() implies
            spec_same_shape_node(#[trigger] a[i], #[trigger] b[i]) by {
            assert(a[i] == spec_branch_nodes(p1, retained, slice, generation, ring, t1, speed)[i]);
            assert(b[i] == spec_branch_nodes(p2, retained, slice, generation, ring, t2, speed)[i]);
        }
    }
}

/// A whole generation at two different ticks has the same shape, given
/// parents of the same shape.
pub proof fn lemma_level_nodes_shape(
    ps1: Seq<TreeNode>,
    ps2: Seq<TreeNode>,
    seen: Seq<Spelling>,
    slice: u32,
    generation: u32,
    ring: u32,
    t1: u32,
    t2: u32,
    speed: u32,
)
    requires
        spec_same_shape(ps1, ps2),
    ensures
        spec_same_shape(
            spec_level_nodes(ps1, seen, slice, generation, ring, t1, speed),
            spec_level_nodes(ps2, seen, slice, generation, ring, t2, speed),
        ),
    decreases ps1.len(),
{
    let a = spec_level_nodes(ps1, seen, slice, generation, ring, t1, speed);
    let b = spec_level_nodes(ps2, seen, slice, generation, ring, t2, speed);
    if ps1.len() > 0 {
        assert(spec_same_shape(ps1.drop_last(), ps2.drop_last()));
        lemma_level_nodes_shape(
            ps1.drop_last(),
            ps2.drop_last(),
            seen,
            slice,
            generation,
            ring,
            t1,
            t2,
            speed,
        );
        assert(spec_same_shape_node(ps1.last(), ps2.last()));
        lemma_parent_children_shape(
            ps1.last(),
            ps2.last(),
            seen,
            slice,
            generation,
            ring,
            t1,
            t2,
            speed,
        );
        let pa = spec_level_nodes(ps1.drop_last(), seen, slice, generation, ring, t1, speed);
        let pb = spec_level_nodes(ps2.drop_last(), seen, slice, generation, ring, t2, speed);
        let ca = spec_parent_children(ps1.last(), seen, slice, generation, ring, t1, speed);
        let cb = spec_parent_children(ps2.last(), seen, slice, generation, ring, t2, speed);
        assert forall|i: int| 0 <= i < a.len() implies
            spec_same_shape_node(#[trigger] a[i], #[trigger] b[i]) by {
            if i < pa.len() {
                assert(a[i] == pa[i]);
                assert(b[i] == pb[i]);
            } else {
                assert(a[i] == ca[i - pa.len()]);
                assert(b[i] == cb[i - pa.len()]);
            }
        }
    }
}

/// The layout's shape does not depend on the tick: two layouts of the same
/// root and configuration differ only in their drawn radii. The topology is
/// a pure function of the root key.
pub proof fn lemma_layout_shape(root: Key, t1: u32, t2: u32, cfg: LayoutConfig)
    ensures
        spec_same_shape(spec_layout(root, t1, cfg), spec_layout(root, t2, cfg)),
{
    let rn = spec_root_node(root);
    let g1a = spec_gen1(root, t1, cfg);
    let g1b = spec_gen1(root, t2, cfg);
    lemma_parent_children_shape(
        rn,
        rn,
        Seq::empty(),
        FULL_TURN_SIXTHS,
        1,
        cfg.ring1_radius,
        t1,
        t2,
        cfg.growth_speed,
    );
    assert(spec_same_shape(g1a, g1b));
    assert(spec_node_spellings(g1a) =~= spec_node_spellings(g1b));
    assert(spec_dedup1(root, t1, cfg) == spec_dedup1(root, t2, cfg));
    let g2a = spec_gen2(root, t1, cfg);
    let g2b = spec_gen2(root, t2, cfg);
    lemma_level_nodes_shape(
        g1a,
        g1b,
        spec_dedup1(root, t1, cfg),
        GEN2_SLICE_SIXTHS,
        2,
        cfg.ring2_radius,
        t1,
        t2,
        cfg.growth_speed,
    );
    assert(spec_same_shape(g2a, g2b));
    assert(spec_node_spellings(g2a) =~= spec_node_spellings(g2b));
    assert(spec_dedup2(root, t1, cfg) == spec_dedup2(root, t2, cfg));
    let g3a = spec_gen3(root, t1, cfg);
    let g3b = spec_gen3(root, t2, cfg);
    lemma_level_nodes_shape(
        g2a,
        g2b,
        spec_dedup2(root, t1, cfg),
        GEN3_SLICE_SIXTHS,
        3,
        cfg.ring3_radius,
        t1,
        t2,
        cfg.growth_speed,
    );
    assert(spec_same_shape(g3a, g3b));
    let la = spec_layout(root, t1, cfg);
    let lb = spec_layout(root, t2, cfg);
    assert forall|i: int| 0 <= i < la.len() implies
        spec_same_shape_node(#[trigger] la[i], #[trigger] lb[i]) by {
        if i == 0 {
            assert(la[i] == rn);
            assert(lb[i] == rn);
        } else if i < 1 + g1a.len() {
            assert(la[i] == g1a[i - 1]);
            assert(lb[i] == g1b[i - 1]);
        } else if i < 1 + g1a.len() + g2a.len() {
            assert(la[i] == g2a[i - 1 - g1a.len()]);
            assert(lb[i] == g2b[i - 1 - g1a.len()]);
        } else {
            assert(la[i] == g3a[i - 1 - g1a.len() - g2a.len()]);
            assert(lb[i] == g3b[i - 1 - g1a.len() - g2a.len()]);
        }
    }
}

/// Every node of the layout is drawn at `min(tick * speed, target radius)`:
/// the root pinned to the center, each generation growing toward its ring.
pub proof fn lemma_layout_radii(root: Key, tick: u32, cfg: LayoutConfig)
    requires
        root.root.octave.0 + 3 <= u32::MAX,
    ensures
        forall|t: int| 0 <= t < spec_layout(root, tick, cfg).len()
            ==> (#[trigger] spec_layout(root, tick, cfg)[t]).radius == spec_radius_at(
                tick as int,
                cfg.growth_speed as int,
                spec_layout(root, tick, cfg)[t].target_radius as int,
            ),
{
    let layout = spec_layout(root, tick, cfg);
    let rn = spec_root_node(root);
    let g1 = spec_gen1(root, tick, cfg);
    let g2 = spec_gen2(root, tick, cfg);
    let g3 = spec_gen3(root, tick, cfg);
    let d1 = spec_dedup1(root, tick, cfg);
    let d2 = spec_dedup2(root, tick, cfg);
    let octave = root.root.octave.0 as int;
    lemma_parent_children_props(
        rn,
        Seq::empty(),
        FULL_TURN_SIXTHS,
        1,
        cfg.ring1_radius,
        tick,
        cfg.growth_speed,
    );
    assert forall|p: int| 0 <= p < g1.len() implies
        (#[trigger] g1[p]).radius == spec_radius_at(
            tick as int,
            cfg.growth_speed as int,
            cfg.ring1_radius as int,
        )
            && g1[p].target_radius == cfg.ring1_radius
            && g1[p].angle_sixths <= FULL_TURN_SIXTHS
            && g1[p].key.root.octave.0 <= octave + 1 by {
        assert(g1[p] == spec_parent_children(
            rn,
            Seq::empty(),
            FULL_TURN_SIXTHS,
            1,
            cfg.ring1_radius,
            tick,
            cfg.growth_speed,
        )[p]);
    }
    lemma_level_nodes_props(
        g1,
        d1,
        GEN2_SLICE_SIXTHS,
        2,
        cfg.ring2_radius,
        tick,
        cfg.growth_speed,
        FULL_TURN_SIXTHS as int,
        octave + 1,
    );
    assert forall|p: int| 0 <= p < g2.len() implies
        (#[trigger] g2[p]).radius == spec_radius_at(
            tick as int,
            cfg.growth_speed as int,
            cfg.ring2_radius as int,
        )
            && g2[p].target_radius == cfg.ring2_radius
            && g2[p].angle_sixths <= FULL_TURN_SIXTHS + GEN2_SLICE_SIXTHS
            && g2[p].key.root.octave.0 <= octave + 2 by {
        assert(g2[p] == spec_level_nodes(
            g1,
            d1,
            GEN2_SLICE_SIXTHS,
            2,
            cfg.ring2_radius,
            tick,
            cfg.growth_speed,
        )[p]);
    }
    lemma_level_nodes_props(
        g2,
        d2,
        GEN3_SLICE_SIXTHS,
        3,
        cfg.ring3_radius,
        tick,
        cfg.growth_speed,
        FULL_TURN_SIXTHS as int + GEN2_SLICE_SIXTHS as int,
        octave + 2,
    );
    assert forall|p: int| 0 <= p < g3.len() implies
        (#[trigger] g3[p]).radius == spec_radius_at(
            tick as int,
            cfg.growth_speed as int,
            cfg.ring3_radius as int,
        )
            && g3[p].target_radius == cfg.ring3_radius by {
        assert(g3[p] == spec_level_nodes(
            g2,
            d2,
            GEN3_SLICE_SIXTHS,
            3,
            cfg.ring3_radius,
            tick,
            cfg.growth_speed,
        )[p]);
    }
    assert(0 <= tick as int * cfg.growth_speed as int) by (nonlinear_arith);
    assert forall|t: int| 0 <= t < layout.len() implies
        (#[trigger] layout[t]).radius == spec_radius_at(
            tick as int,
            cfg.growth_speed as int,
            layout[t].target_radius as int,
        ) by {
        if t == 0 {
            assert(layout[t] == rn);
        } else if t < 1 + g1.len() {
            assert(layout[t] == g1[t - 1]);
        } else if t < 1 + g1.len() + g2.len() {
            assert(layout[t] == g2[t - 1 - g1.len()]);
        } else {
            assert(layout[t] == g3[t - 1 - g1.len() - g2.len()]);
        }
    }
}

/// For every node of the layout, the drawn radius never shrinks as the tick
/// grows, never passes the node's ring radius, and once
/// `tick * growth speed` has reached the ring radius it equals it exactly.
pub proof fn lemma_layout_radius_monotone_saturates(root: Key, t1: u32, t2: u32, cfg: LayoutConfig)
    requires
        t1 <= t2,
        root.root.octave.0 + 3 <= u32::MAX,
    ensures
        spec_layout(root, t1, cfg).len() == spec_layout(root, t2, cfg).len(),
        forall|i: int| 0 <= i < spec_layout(root, t1, cfg).len() ==> {
            let a = #[trigger] spec_layout(root, t1, cfg)[i];
            let b = #[trigger] spec_layout(root, t2, cfg)[i];
            a.target_radius == b.target_radius
                && a.radius <= b.radius
                && a.radius <= a.target_radius
                && (t1 * cfg.growth_speed >= a.target_radius ==> a.radius == a.target_radius)
        },
{
    lemma_layout_shape(root, t1, t2, cfg);
    lemma_layout_radii(root, t1, cfg);
    lemma_layout_radii(root, t2, cfg);
    assert forall|i: int| 0 <= i < spec_layout(root, t1, cfg).len() implies {
        let a = #[trigger] spec_layout(root, t1, cfg)[i];
        let b = #[trigger] spec_layout(root, t2, cfg)[i];
        a.target_radius == b.target_radius
            && a.radius <= b.radius
            && a.radius <= a.target_radius
            && (t1 * cfg.growth_speed >= a.target_radius ==> a.radius == a.target_radius)
    } by {
        let a = spec_layout(root, t1, cfg)[i];
        lemma_radius_monotone_saturates(
            t1 as int,
            t2 as int,
            cfg.growth_speed as int,
            a.target_radius as int,
        );
    }
}

} // verus!
