use tower_defense::acquisition::{Candidate, Tower, best_candidate, check_target_range, find_target};
use tower_defense::firing::{FireError, ProjectileModel, projectile_model, tick_cooldown, tower_shooting};
use tower_defense::geometry::{Vec3i, distance_sq, in_range, is_facing, isqrt, scale_div};
use tower_defense::orientation::tower_rotation;
use tower_defense::viewport::{CameraType, Viewport, split_viewport};
use tower_defense::lifecycle::{DeathEffect, Vitals, despawn_on_death};
use tower_defense::projectile::{
    Body, CollisionStarted, Fate, Health, MaxHealth, Projectile, ProjectilePool, advance,
};
use tower_defense::relation::TargetStore;

fn tower() -> Tower {
    Tower { range: 1000, damage: 5, attack_cooldown: 1000, projectile_speed: 2000 }
}

fn origin() -> Vec3i {
    Vec3i::new(0, 0, 0)
}

#[test]
fn lower_progress_wins_over_nearer_agent_then_cooldown_gates_fire() {
    let mut store = TargetStore::new(1, 2);
    let towers = vec![tower()];
    let tower_pos = vec![Some(origin())];
    let agent_pos = vec![Some(Vec3i::new(800, 0, 0)), Some(Vec3i::new(0, 0, 900))];
    let candidates = vec![vec![
        Some(Candidate { agent: 0, progress_remaining: 3 }),
        Some(Candidate { agent: 1, progress_remaining: 1 }),
    ]];
    check_target_range(&mut store, &towers, &tower_pos, &agent_pos);
    find_target(&mut store, &candidates);
    assert_eq!(store.target_of(0), Some(1));
    assert_eq!(store.targets_of(1), &vec![0]);
    assert!(store.targets_of(0).is_empty());

    let prefab = "gun_tower".to_string();
    let forward = Vec3i::new(0, 0, 1);
    let mut cooldown: i64 = 0;
    let shot = tower_shooting(&towers[0], &mut cooldown, &prefab, origin(), forward, agent_pos[1]);
    let (p, model) = shot.unwrap().unwrap();
    assert_eq!(model, ProjectileModel::Popcorn);
    assert_eq!(cooldown, 1000);
    assert_eq!(p.position, Vec3i::new(0, 50, 0));
    assert_eq!(p.velocity, Vec3i::new(0, 0, 2000));
    assert_eq!(p.damage, 5);
    assert_eq!(p.lifetime, 3000);

    cooldown = tick_cooldown(cooldown, 600);
    assert_eq!(cooldown, 400);
    let held = tower_shooting(&towers[0], &mut cooldown, &prefab, origin(), forward, agent_pos[1]);
    assert_eq!(held, Ok(None));
    assert_eq!(cooldown, 400);
    cooldown = tick_cooldown(cooldown, 400);
    assert_eq!(cooldown, 0);
    let again = tower_shooting(&towers[0], &mut cooldown, &prefab, origin(), forward, agent_pos[1]);
    assert!(matches!(again, Ok(Some(_))));
    assert_eq!(cooldown, 1000);
}

#[test]
fn equal_progress_picks_first_seen() {
    let c = vec![
        None,
        Some(Candidate { agent: 4, progress_remaining: 2 }),
        Some(Candidate { agent: 9, progress_remaining: 2 }),
        Some(Candidate { agent: 2, progress_remaining: 5 }),
    ];
    assert_eq!(best_candidate(&c), Some(1));
    assert_eq!(best_candidate(&c), Some(1));
    assert_eq!(best_candidate(&vec![None, None]), None);
    assert_eq!(best_candidate(&vec![]), None);
}

#[test]
fn attacker_with_edge_keeps_it_during_acquisition() {
    let mut store = TargetStore::new(2, 2);
    store.set_target(0, 0);
    let candidates = vec![
        vec![Some(Candidate { agent: 1, progress_remaining: 0 })],
        vec![None],
    ];
    find_target(&mut store, &candidates);
    assert_eq!(store.target_of(0), Some(0));
    assert_eq!(store.target_of(1), None);
}

#[test]
fn out_of_range_and_stale_edges_are_removed() {
    let mut store = TargetStore::new(3, 2);
    store.set_target(0, 0);
    store.set_target(1, 1);
    store.set_target(2, 0);
    let towers = vec![tower(), tower(), tower()];
    let tower_pos = vec![Some(origin()), Some(origin()), None];
    let agent_pos = vec![Some(Vec3i::new(600, 0, 800)), Some(Vec3i::new(600, 0, 801))];
    check_target_range(&mut store, &towers, &tower_pos, &agent_pos);
    assert_eq!(store.target_of(0), Some(0));
    assert_eq!(store.target_of(1), None);
    assert_eq!(store.target_of(2), None);
    assert_eq!(store.targets_of(0), &vec![0]);
    assert!(store.targets_of(1).is_empty());
}

#[test]
fn retargeting_moves_the_reverse_entry() {
    let mut store = TargetStore::new(2, 2);
    store.set_target(0, 0);
    store.set_target(1, 0);
    assert_eq!(store.targets_of(0), &vec![0, 1]);
    store.set_target(0, 1);
    assert_eq!(store.targets_of(0), &vec![1]);
    assert_eq!(store.targets_of(1), &vec![0]);
    store.remove_target(1);
    assert!(store.targets_of(0).is_empty());
    assert_eq!(store.target_of(1), None);
    assert_eq!(store.num_attackers_exec(), 2);
    assert_eq!(store.num_agents_exec(), 2);
}

#[test]
fn projectile_expires_after_lifetime_without_moving_again() {
    let mut pool = ProjectilePool::new();
    let p = Projectile {
        position: Vec3i::new(0, 50, 0),
        velocity: Vec3i::new(1000, 0, -500),
        damage: 5,
        lifetime: 3000,
    };
    assert_eq!(pool.spawn(p), 0);
    pool.projectile_movement(1000);
    pool.projectile_movement(1000);
    let s = pool.shot(0);
    assert_eq!(s.fate, Fate::Flying);
    assert_eq!(s.projectile.lifetime, 1000);
    assert_eq!(s.projectile.position, Vec3i::new(2000, 50, -1000));
    pool.projectile_movement(1000);
    let s = pool.shot(0);
    assert_eq!(s.fate, Fate::Expired);
    assert_eq!(s.projectile.position, Vec3i::new(2000, 50, -1000));
    pool.projectile_movement(1000);
    assert_eq!(pool.shot(0), s);
    assert_eq!(pool.len(), 1);
}

#[test]
fn advance_rounds_toward_zero() {
    let p = Projectile {
        position: Vec3i::new(0, 0, 0),
        velocity: Vec3i::new(999, -999, 0),
        damage: 1,
        lifetime: 10,
    };
    let q = advance(&p, 1).unwrap();
    assert_eq!(q.position, Vec3i::new(0, 0, 0));
    assert_eq!(q.lifetime, 9);
    let q = advance(&p, 3).unwrap();
    assert_eq!(q.position, Vec3i::new(2, -2, 0));
    assert_eq!(advance(&p, 10), None);
}

fn bolt(damage: u32) -> Projectile {
    Projectile { position: origin(), velocity: Vec3i::new(0, 0, 0), damage, lifetime: 3000 }
}

#[test]
fn two_hits_take_agent_below_zero_and_it_leaves_a_reward() {
    let mut pool = ProjectilePool::new();
    pool.spawn(bolt(12));
    pool.spawn(bolt(12));
    let mut healths = vec![MaxHealth(20).initial_health()];
    assert_eq!(healths[0], Health(20));

    let first = vec![
        CollisionStarted(Body::Projectile(0), Body::Agent(0)),
        CollisionStarted(Body::Agent(0), Body::Projectile(0)),
    ];
    pool.handle_projectile_collisions(&mut healths, &first);
    assert_eq!(healths[0], Health(8));
    assert_eq!(pool.shot(0).fate, Fate::Hit(0));
    let alive = vec![Vitals { entity: 77, health: healths[0], is_agent: true, position: Vec3i::new(10, 0, 20) }];
    assert!(despawn_on_death(&alive, Some(5)).is_empty());

    let second = vec![CollisionStarted(Body::Agent(0), Body::Projectile(1))];
    pool.handle_projectile_collisions(&mut healths, &second);
    assert_eq!(healths[0], Health(-4));

    let dead = vec![Vitals { entity: 77, health: healths[0], is_agent: true, position: Vec3i::new(10, 0, 20) }];
    assert_eq!(
        despawn_on_death(&dead, Some(5)),
        vec![
            DeathEffect::Despawn(77),
            DeathEffect::SpawnReward { position: Vec3i::new(10, 150, 20), parent: 5 },
        ]
    );
    assert_eq!(despawn_on_death(&dead, None), vec![DeathEffect::Despawn(77)]);
}

#[test]
fn collision_ignores_other_pairs_and_spent_projectiles() {
    let mut pool = ProjectilePool::new();
    pool.spawn(bolt(3));
    pool.spawn(Projectile { lifetime: 10, ..bolt(4) });
    pool.projectile_movement(20);
    assert_eq!(pool.shot(1).fate, Fate::Expired);
    let mut healths = vec![Health(10), Health(10)];
    let events = vec![
        CollisionStarted(Body::Agent(0), Body::Agent(1)),
        CollisionStarted(Body::Projectile(0), Body::Other),
        CollisionStarted(Body::Projectile(1), Body::Agent(0)),
        CollisionStarted(Body::Projectile(7), Body::Agent(0)),
        CollisionStarted(Body::Projectile(0), Body::Agent(5)),
        CollisionStarted(Body::Projectile(0), Body::Agent(1)),
    ];
    pool.handle_projectile_collisions(&mut healths, &events);
    assert_eq!(healths, vec![Health(10), Health(10)]);
    assert_eq!(pool.shot(0).fate, Fate::Hit(5));
    assert_eq!(pool.shot(1).fate, Fate::Expired);
}

#[test]
fn non_agents_and_living_entities_are_not_rewarded() {
    let vs = vec![
        Vitals { entity: 1, health: Health(0), is_agent: false, position: origin() },
        Vitals { entity: 2, health: Health(1), is_agent: true, position: origin() },
        Vitals { entity: 3, health: Health(-9), is_agent: true, position: Vec3i::new(1, 2, 3) },
    ];
    assert_eq!(
        despawn_on_death(&vs, Some(0)),
        vec![
            DeathEffect::Despawn(1),
            DeathEffect::Despawn(3),
            DeathEffect::SpawnReward { position: Vec3i::new(1, 152, 3), parent: 0 },
        ]
    );
}

#[test]
fn prefab_names_map_to_projectile_visuals() {
    assert_eq!(projectile_model(&"gun_tower".to_string()), Ok(ProjectileModel::Popcorn));
    assert_eq!(projectile_model(&"cannon_tower".to_string()), Ok(ProjectileModel::RoastedCorn));
    assert_eq!(projectile_model(&"wall".to_string()), Err(FireError::UnknownArchetype));
}

#[test]
fn unknown_archetype_is_an_error_only_when_ready() {
    let t = tower();
    let prefab = "mortar_tower".to_string();
    let target = Some(Vec3i::new(0, 0, 500));
    let mut cooldown: i64 = -3;
    let r = tower_shooting(&t, &mut cooldown, &prefab, origin(), Vec3i::new(0, 0, 1), target);
    assert_eq!(r, Err(FireError::UnknownArchetype));
    assert_eq!(cooldown, -3);
    let mut busy: i64 = 5;
    let r = tower_shooting(&t, &mut busy, &prefab, origin(), Vec3i::new(0, 0, 1), target);
    assert_eq!(r, Ok(None));
    assert_eq!(busy, 5);
}

#[test]
fn facing_away_or_no_target_holds_fire() {
    let t = tower();
    let prefab = "cannon_tower".to_string();
    let mut cooldown: i64 = 0;
    let target = Some(Vec3i::new(0, 0, 500));
    assert_eq!(tower_shooting(&t, &mut cooldown, &prefab, origin(), Vec3i::new(1, 0, 0), target), Ok(None));
    assert_eq!(tower_shooting(&t, &mut cooldown, &prefab, origin(), Vec3i::new(0, 0, 1), None), Ok(None));
    assert_eq!(cooldown, 0);
    let r = tower_shooting(&t, &mut cooldown, &prefab, origin(), Vec3i::new(0, 0, 1), target);
    let (p, m) = r.unwrap().unwrap();
    assert_eq!(m, ProjectileModel::RoastedCorn);
    assert_eq!(p.velocity, Vec3i::new(0, 0, 2000));
}

#[test]
fn cooldown_stops_once_at_or_below_zero() {
    assert_eq!(tick_cooldown(100, 30), 70);
    assert_eq!(tick_cooldown(10, 30), -20);
    assert_eq!(tick_cooldown(-20, 30), -20);
    assert_eq!(tick_cooldown(0, 30), 0);
}

#[test]
fn geometry_values() {
    assert_eq!(distance_sq(&Vec3i::new(1, 2, 3), &Vec3i::new(4, 6, 3)), 25);
    assert!(in_range(&origin(), &Vec3i::new(600, 0, 800), 1000));
    assert!(!in_range(&origin(), &Vec3i::new(600, 0, 801), 1000));
    assert_eq!(isqrt(0), 0);
    assert_eq!(isqrt(24), 4);
    assert_eq!(isqrt(25), 5);
    assert_eq!(isqrt(1_000_000), 1000);
    assert_eq!(scale_div(-7, 3, 2), -10);
    assert_eq!(scale_div(7, 3, 2), 10);
    assert!(is_facing(&Vec3i::new(0, 0, 1), &Vec3i::new(1, 0, 10)));
    assert!(!is_facing(&Vec3i::new(0, 0, 1), &Vec3i::new(1, 0, 1)));
    assert!(!is_facing(&Vec3i::new(0, 0, 1), &Vec3i::new(0, 0, 0)));
    assert_eq!(origin().to(&Vec3i::new(3, -4, 5)), Vec3i::new(3, -4, 5));
    assert_eq!(origin().raised(7), Vec3i::new(0, 7, 0));
}

#[test]
fn diagonal_shot_velocity_has_the_tower_speed() {
    let t = Tower { range: 1000, damage: 1, attack_cooldown: 500, projectile_speed: 500 };
    let mut cooldown: i64 = 0;
    let target = Some(Vec3i::new(300, 0, 400));
    let r = tower_shooting(&t, &mut cooldown, &"gun_tower".to_string(), origin(), Vec3i::new(3, 0, 4), target);
    let (p, _) = r.unwrap().unwrap();
    assert_eq!(p.velocity, Vec3i::new(300, 0, 400));
    assert_eq!(cooldown, 500);
}

#[test]
fn rotation_snaps_near_target_and_turns_at_fixed_rate_otherwise() {
    assert_eq!(tower_rotation(0, 100, 16), 100);
    assert_eq!(tower_rotation(6200, 20, 1), 20);
    assert_eq!(tower_rotation(0, 1000, 16), 128);
    assert_eq!(tower_rotation(100, 6000, 16), 6255);
    assert_eq!(tower_rotation(0, 3000, 1000), 3000);
    assert_eq!(tower_rotation(500, 500, 0), 500);
}

#[test]
fn split_screen_halves_the_window() {
    assert_eq!(split_viewport(CameraType::A, 1921, 1080), Some(Viewport { x: 0, y: 0, width: 960, height: 1080 }));
    assert_eq!(split_viewport(CameraType::B, 1921, 1080), Some(Viewport { x: 960, y: 0, width: 961, height: 1080 }));
    assert_eq!(split_viewport(CameraType::B, 1920, 1080), Some(Viewport { x: 960, y: 0, width: 960, height: 1080 }));
    assert_eq!(split_viewport(CameraType::Full, 1920, 1080), None);
}
