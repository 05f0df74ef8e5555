use keywheel::layout::{
    compute_layout, contains_spelling, expand_branch, radius_at_tick, LayoutConfig, TreeNode,
};
use keywheel::pitch::{init_key, Accidental, Letter, Mode};
use keywheel::related::compute_related_keys;

fn test_config() -> LayoutConfig {
    LayoutConfig { ring1_radius: 150, ring2_radius: 300, ring3_radius: 450, growth_speed: 12 }
}

#[test]
fn radius_grows_then_saturates() {
    assert_eq!(radius_at_tick(0, 12, 150), 0);
    assert_eq!(radius_at_tick(1, 12, 150), 12);
    assert_eq!(radius_at_tick(12, 12, 150), 144);
    assert_eq!(radius_at_tick(13, 12, 150), 150);
    assert_eq!(radius_at_tick(1000, 12, 150), 150);
}

#[test]
fn layout_radii_monotone_and_saturating() {
    let root = init_key(Letter::C, Accidental::Natural, Mode::Major);
    let cfg = test_config();
    let mut previous: Option<Vec<TreeNode>> = None;
    for tick in 0..42u32 {
        let nodes = compute_layout(&root, tick, &cfg);
        if let Some(prev) = previous {
            assert_eq!(prev.len(), nodes.len());
            for (old, new) in prev.iter().zip(nodes.iter()) {
                assert_eq!(old.target_radius, new.target_radius);
                assert!(old.radius <= new.radius);
            }
        }
        for n in nodes.iter() {
            assert!(n.radius <= n.target_radius);
            if tick * cfg.growth_speed >= n.target_radius {
                assert_eq!(n.radius, n.target_radius);
            }
        }
        previous = Some(nodes);
    }
    // By tick 38 every ring has saturated: 38 * 12 = 456 >= 450.
    let settled = compute_layout(&root, 38, &cfg);
    for n in settled.iter() {
        assert_eq!(n.radius, n.target_radius);
    }
}

#[test]
fn generation_one_angles_evenly_spaced() {
    let root = init_key(Letter::C, Accidental::Natural, Mode::Major);
    let cfg = test_config();
    let nodes = compute_layout(&root, 5, &cfg);
    let gen1: Vec<&TreeNode> = nodes.iter().filter(|n| n.generation == 1).collect();
    assert_eq!(gen1.len(), 6);
    for (i, n) in gen1.iter().enumerate() {
        // 2160 * i / 6 sixths of a degree, i.e. 360 * i / 6 degrees.
        assert_eq!(n.angle_sixths, 2160 * i as u32 / 6);
        assert_eq!(n.parent_angle_sixths, 0);
        assert_eq!(n.target_radius, cfg.ring1_radius);
    }
}

#[test]
fn dedup_across_generations() {
    let root = init_key(Letter::C, Accidental::Natural, Mode::Major);
    let cfg = test_config();
    let nodes = compute_layout(&root, 7, &cfg);
    assert!(nodes.iter().any(|n| n.generation == 2));
    assert!(nodes.iter().any(|n| n.generation == 3));
    for a in nodes.iter() {
        for b in nodes.iter() {
            if a.generation >= 2 && b.generation < a.generation {
                assert_ne!(a.key.spelling(), b.key.spelling());
            }
        }
    }
}

#[test]
fn root_node_sits_at_center() {
    let root = init_key(Letter::E, Accidental::Flat, Mode::Major);
    let cfg = test_config();
    let nodes = compute_layout(&root, 9, &cfg);
    assert_eq!(nodes[0].key, root);
    assert_eq!(nodes[0].generation, 0);
    assert_eq!(nodes[0].radius, 0);
    assert_eq!(nodes[0].target_radius, 0);
}

#[test]
fn fully_seen_branch_yields_no_children() {
    let a_minor = init_key(Letter::A, Accidental::Natural, Mode::Minor);
    let keys = compute_related_keys(&a_minor).unwrap();
    let seen: Vec<_> = keys.iter().map(|k| k.spelling()).collect();
    let parent = TreeNode {
        key: a_minor,
        generation: 1,
        angle_sixths: 0,
        radius: 60,
        target_radius: 150,
        parent_angle_sixths: 0,
        parent_radius: 0,
    };
    let children = expand_branch(&parent, &keys, &seen, 360, 2, 300, 5, 12);
    assert!(children.is_empty());
}

#[test]
fn unresolvable_branch_truncates_not_fails() {
    // The first related key of G-flat major is G-flat minor, which itself
    // cannot be resolved (its spelling needs a double flat); the walker must
    // truncate that branch and still lay out the rest.
    let gb_major = init_key(Letter::G, Accidental::Flat, Mode::Major);
    let gb_minor = init_key(Letter::G, Accidental::Flat, Mode::Minor);
    assert!(compute_related_keys(&gb_minor).is_err());
    let cfg = test_config();
    let nodes = compute_layout(&gb_major, 6, &cfg);
    let gen1: Vec<&TreeNode> = nodes.iter().filter(|n| n.generation == 1).collect();
    assert_eq!(gen1.len(), 6);
    assert_eq!(gen1[0].key.spelling(), gb_minor.spelling());
    assert_eq!(gen1[0].angle_sixths, 0);
    // The truncated branch contributes no generation-2 nodes: only the
    // G-flat-minor node stands at angle 0 on ring 1, so no generation-2 node
    // names angle 0 as its parent's angle.
    assert!(nodes.iter().any(|n| n.generation == 2));
    for n in nodes.iter() {
        if n.generation == 2 {
            assert_ne!(n.parent_angle_sixths, 0);
        }
    }
}

#[test]
fn unresolvable_root_yields_bare_center() {
    let gb_minor = init_key(Letter::G, Accidental::Flat, Mode::Minor);
    let cfg = test_config();
    let nodes = compute_layout(&gb_minor, 4, &cfg);
    assert_eq!(nodes.len(), 1);
    assert_eq!(nodes[0].generation, 0);
}

#[test]
fn contains_spelling_looks_up() {
    let c_major = init_key(Letter::C, Accidental::Natural, Mode::Major);
    let a_minor = init_key(Letter::A, Accidental::Natural, Mode::Minor);
    let seen = vec![c_major.spelling()];
    assert!(contains_spelling(&seen, c_major.spelling()));
    assert!(!contains_spelling(&seen, a_minor.spelling()));
}

#[test]
fn nodes_carry_parent_positions() {
    let root = init_key(Letter::C, Accidental::Natural, Mode::Major);
    let cfg = test_config();
    let nodes = compute_layout(&root, 20, &cfg);
    // Each generation-2 node points back at a generation-1 node's polar
    // coordinates; at tick 20 ring 1 has saturated at its radius.
    for n in nodes.iter() {
        if n.generation == 2 {
            assert_eq!(n.parent_radius, cfg.ring1_radius);
            assert!(nodes.iter().any(
                |p| p.generation == 1 && p.angle_sixths == n.parent_angle_sixths,
            ));
        }
    }
}
