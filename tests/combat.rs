use kenney_jam::data::{attack, max_battery, max_range, SaveData};
use kenney_jam::enemy::{
    death_sound, death_sound_for_draw, SoundPool,
    draw_reward, enemy_type, enemy_type_for_draw, get_enemy, make_enemy, matchup, on_damage,
    resolve_hit, weight_row, weighted_index, DamageOutcome, Element, Enemy, EnemyType, Matchup,
    FINAL_DEPTH,
};
use kenney_jam::misc::IVec2;

fn save_with(attack_level: usize, selected: Element) -> SaveData {
    let mut s = SaveData::default();
    s.attack_level = attack_level;
    s.attack_selected = selected;
    s
}

fn enemy(typ: EnemyType, elem: Element, health: u32) -> Enemy {
    Enemy { pos: IVec2::new(3, 4), health, typ, elem }
}

#[test]
fn formulas_have_their_values() {
    assert_eq!(max_range(1), 5);
    assert_eq!(max_battery(1), 75);
    assert_eq!(max_battery(0), 25);
    // 0.5 + 0.5 * level, in quarter points
    assert_eq!(attack(1), 4);
    assert_eq!(attack(3), 8);
}

#[test]
fn element_cycle() {
    let mut e = Element::Basic;
    e.next();
    assert_eq!(e, Element::Fire);
    e.next();
    assert_eq!(e, Element::Water);
    e.next();
    assert_eq!(e, Element::Grass);
    e.next();
    assert_eq!(e, Element::Basic);
    e.prev();
    assert_eq!(e, Element::Grass);
    e.prev();
    assert_eq!(e, Element::Water);
}

#[test]
fn matchup_table_all_sixteen() {
    let all = [Element::Basic, Element::Fire, Element::Water, Element::Grass];
    let expected = |a: Element, d: Element| match (a, d) {
        (Element::Water, Element::Fire) | (Element::Fire, Element::Grass) | (Element::Grass, Element::Water) => Matchup::Super,
        (Element::Fire, Element::Water) | (Element::Grass, Element::Fire) | (Element::Water, Element::Grass) => Matchup::Resisted,
        _ => Matchup::Neutral,
    };
    for a in all {
        for d in all {
            assert_eq!(matchup(a, d), expected(a, d));
            if matchup(a, d) == Matchup::Super {
                assert_eq!(matchup(d, a), Matchup::Resisted);
            }
        }
    }
}

#[test]
fn forced_draw_selects_first_type() {
    let row = vec![90, 10, 0, 0, 0];
    for _ in 0..100 {
        assert_eq!(weighted_index(&row, 5), 0);
    }
    assert_eq!(weighted_index(&row, 89), 0);
    assert_eq!(weighted_index(&row, 90), 1);
    assert_eq!(weighted_index(&row, 99), 1);
    assert_eq!(weighted_index(&row, 100), 5);
}

#[test]
fn weighted_index_empty_row() {
    assert_eq!(weighted_index(&vec![], 0), 0);
    assert_eq!(weighted_index(&vec![0, 0], 0), 2);
}

#[test]
fn weight_rows_match_table() {
    assert_eq!(weight_row(0), vec![80, 10, 0, 0, 0, 10, 0]);
    assert_eq!(weight_row(5), vec![0, 10, 20, 50, 10, 9, 1]);
    assert_eq!(weight_row(11), vec![0, 0, 0, 5, 85, 9, 0]);
}

#[test]
fn every_draw_maps_by_weight() {
    let mut counts = [0u32; 8];
    for d in 0..100u32 {
        counts[enemy_type_for_draw(0, d) as usize] += 1;
    }
    assert_eq!(counts[EnemyType::Chicken as usize], 80);
    assert_eq!(counts[EnemyType::Cat as usize], 10);
    assert_eq!(counts[EnemyType::Money as usize], 10);
    // depth 6: the last percent falls past the table and is a battery
    assert_eq!(enemy_type_for_draw(6, 99), EnemyType::Battery);
    assert_eq!(enemy_type_for_draw(7, 99), EnemyType::Money);
    assert_eq!(enemy_type_for_draw(6, 104), EnemyType::Dog);
    assert_eq!(enemy_type_for_draw(6, 105), EnemyType::YoungOld);
}

#[test]
fn sampler_frequencies_follow_weights() {
    let n = 20_000;
    let mut counts = [0u32; 8];
    for _ in 0..n {
        counts[enemy_type(3) as usize] += 1;
    }
    let expect = [(EnemyType::Chicken, 5.0), (EnemyType::Cat, 40.0), (EnemyType::Dog, 30.0),
        (EnemyType::YoungOld, 5.0), (EnemyType::Money, 20.0)];
    for (t, pct) in expect {
        let got = counts[t as usize] as f64 * 100.0 / n as f64;
        assert!((got - pct).abs() < 2.0, "{:?}: {} vs {}", t, got, pct);
    }
    assert_eq!(counts[EnemyType::Man as usize], 0);
    assert_eq!(counts[EnemyType::EndGame as usize], 0);
}

#[test]
fn super_effective_hit() {
    // base damage 2.0, water against fire: 3.0
    let mut s = save_with(3, Element::Water);
    s.water_uses = 1;
    let mut e = enemy(EnemyType::Man, Element::Fire, 20);
    let r = resolve_hit(&mut s, &mut e);
    assert_eq!(r, DamageOutcome::Hit { dealt: 12, killed: false });
    assert_eq!(e.health, 8);
    assert_eq!(s.water_uses, 0);
}

#[test]
fn resisted_hit_drains_battery() {
    let mut s = save_with(3, Element::Grass);
    s.grass_uses = 2;
    s.battery = 10;
    let mut e = enemy(EnemyType::Man, Element::Fire, 20);
    let r = resolve_hit(&mut s, &mut e);
    assert_eq!(r, DamageOutcome::Hit { dealt: 0, killed: false });
    assert_eq!(e.health, 20);
    assert_eq!(s.battery, 8);
    assert_eq!(s.grass_uses, 1);
}

#[test]
fn resisted_drain_stops_at_zero() {
    let mut s = save_with(9, Element::Fire);
    s.fire_uses = 1;
    s.battery = 2;
    let mut e = enemy(EnemyType::Dog, Element::Water, 12);
    resolve_hit(&mut s, &mut e);
    assert_eq!(s.battery, 0);
}

#[test]
fn elemental_attack_without_charges_does_nothing() {
    let mut s = save_with(3, Element::Water);
    s.water_uses = 0;
    let mut e = enemy(EnemyType::Cat, Element::Fire, 8);
    let r = resolve_hit(&mut s, &mut e);
    assert_eq!(r, DamageOutcome::Hit { dealt: 0, killed: false });
    assert_eq!(e.health, 8);
}

#[test]
fn basic_attack_is_unlimited() {
    let mut s = save_with(1, Element::Basic);
    let mut e = enemy(EnemyType::Cat, Element::Grass, 8);
    assert_eq!(resolve_hit(&mut s, &mut e), DamageOutcome::Hit { dealt: 4, killed: false });
    assert_eq!(resolve_hit(&mut s, &mut e), DamageOutcome::Hit { dealt: 4, killed: true });
    assert_eq!(e.health, 0);
}

#[test]
fn damage_is_clamped_and_death_processed_once() {
    // health 1.5, damage 3.0
    let mut s = save_with(5, Element::Basic);
    let before_kills = s.enemies_killed;
    let mut list = vec![enemy(EnemyType::Chicken, Element::Basic, 6), enemy(EnemyType::Cat, Element::Fire, 8)];
    let (outcome, reward) = on_damage(&mut s, &mut list, 0);
    assert_eq!(outcome, DamageOutcome::Hit { dealt: 6, killed: true });
    assert!((4..6).contains(&reward));
    assert_eq!(list.len(), 1);
    assert_eq!(list[0].typ, EnemyType::Cat);
    assert_eq!(s.enemies_killed, before_kills + 1);
    assert_eq!(s.money, reward);
}

#[test]
fn artifact_wins_the_game() {
    let mut s = save_with(1, Element::Basic);
    let mut list = vec![make_enemy(IVec2::new(0, 0), EnemyType::EndGame, Element::Fire)];
    let (outcome, reward) = on_damage(&mut s, &mut list, 0);
    assert_eq!(outcome, DamageOutcome::GameWon);
    assert_eq!(reward, 0);
    assert_eq!(list.len(), 1);
}

#[test]
fn battery_pickup_refills_a_quarter() {
    let mut s = save_with(1, Element::Basic);
    s.battery_level = 1;
    s.battery = 10;
    let mut list = vec![make_enemy(IVec2::new(0, 0), EnemyType::Battery, Element::Fire)];
    let (outcome, reward) = on_damage(&mut s, &mut list, 0);
    assert_eq!(outcome, DamageOutcome::Hit { dealt: 0, killed: true });
    assert_eq!(reward, 0);
    assert_eq!(s.battery, 10 + 75 / 4);
    assert!(list.is_empty());
    // capped at the capacity
    s.battery = 70;
    let mut list = vec![make_enemy(IVec2::new(0, 0), EnemyType::Battery, Element::Basic)];
    on_damage(&mut s, &mut list, 0);
    assert_eq!(s.battery, 75);
}

#[test]
fn money_pickup_does_not_count_as_kill() {
    let mut s = save_with(1, Element::Basic);
    s.level = 3;
    let mut list = vec![make_enemy(IVec2::new(0, 0), EnemyType::Money, Element::Basic)];
    let (_, reward) = on_damage(&mut s, &mut list, 0);
    assert!((5..16).contains(&reward));
    assert_eq!(s.enemies_killed, 0);
    assert_eq!(s.money, reward);
}

#[test]
fn rewards_stay_in_range() {
    for _ in 0..200 {
        assert!((8..11).contains(&draw_reward(EnemyType::Cat, 0)));
        assert!((24..27).contains(&draw_reward(EnemyType::Man, 0)));
        assert!((2..4).contains(&draw_reward(EnemyType::Money, 0)));
        assert_eq!(draw_reward(EnemyType::Battery, 4), 0);
    }
}

#[test]
fn final_depth_spawns_artifact_once() {
    let mut unique = false;
    let (first, _) = get_enemy(IVec2::new(1, 2), FINAL_DEPTH, &mut unique);
    assert_eq!(first.typ, EnemyType::EndGame);
    assert_eq!(first.elem, Element::Basic);
    assert_eq!(first.health, 4);
    assert!(unique);
    for _ in 0..50 {
        let (next, _) = get_enemy(IVec2::new(1, 2), FINAL_DEPTH, &mut unique);
        assert_ne!(next.typ, EnemyType::EndGame);
        assert!(unique);
    }
}

#[test]
fn spawned_enemies_have_base_stats() {
    let mut unique = false;
    for _ in 0..100 {
        let (e, idx) = get_enemy(IVec2::new(5, 6), 0, &mut unique);
        assert_eq!(e.pos, IVec2::new(5, 6));
        match e.typ {
            EnemyType::Chicken => {
                assert_eq!(e.health, 4);
                assert!(idx == 7 * 49 + 25 || idx == 7 * 49 + 26);
            },
            EnemyType::Cat => assert_eq!(e.health, 8),
            EnemyType::Money => {
                assert_eq!(e.health, 0);
                assert_eq!(e.elem, Element::Basic);
                assert_eq!(idx, 10 * 49 + 33);
            },
            t => panic!("unexpected {:?}", t),
        }
    }
    assert!(!unique);
}

#[test]
fn battery_column_gives_batteries() {
    assert_eq!(enemy_type_for_draw(4, 99), EnemyType::Battery);
    assert_eq!(enemy_type_for_draw(5, 99), EnemyType::Battery);
    assert_eq!(enemy_type_for_draw(4, 98), EnemyType::Money);
    let mut money = 0;
    let mut battery = 0;
    for d in 0..100u32 {
        match enemy_type_for_draw(4, d) {
            EnemyType::Money => money += 1,
            EnemyType::Battery => battery += 1,
            _ => {},
        }
    }
    assert_eq!((money, battery), (9, 1));
}

#[test]
fn death_sounds_come_from_the_type_pool() {
    assert_eq!(death_sound_for_draw(EnemyType::Cat, 5), (SoundPool::Cat, 2));
    assert_eq!(death_sound_for_draw(EnemyType::Chicken, 5), (SoundPool::Chicken, 1));
    assert_eq!(death_sound_for_draw(EnemyType::YoungOld, 0), (SoundPool::Man, 0));
    assert_eq!(death_sound_for_draw(EnemyType::Battery, 3), (SoundPool::Upgrades, 1));
    for _ in 0..50 {
        let (pool, i) = death_sound(EnemyType::Dog);
        assert_eq!(pool, SoundPool::Dog);
        assert!(i < 3);
    }
}
