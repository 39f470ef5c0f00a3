use bevy_golf::combat::resolve_projectile_hits;

#[test]
fn each_projectile_kills_first_zombie_in_reach() {
    let hits = vec![
        vec![false, true, true],
        vec![false, false, false],
        vec![false, true, false],
        vec![true, false, true],
    ];
    let (spent, dead) = resolve_projectile_hits(&hits, 3);
    assert_eq!(spent, vec![0, 2, 3]);
    assert_eq!(dead, vec![0, 1]);
}

#[test]
fn no_hits_no_casualties() {
    let (spent, dead) = resolve_projectile_hits(&vec![vec![false, false]], 2);
    assert!(spent.is_empty());
    assert!(dead.is_empty());
    let (spent, dead) = resolve_projectile_hits(&vec![], 4);
    assert!(spent.is_empty());
    assert!(dead.is_empty());
}
