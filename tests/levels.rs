use std::collections::HashSet;

use kenney_jam::data::{check_player, level_transition, on_restart, SaveData};
use kenney_jam::enemy::{
    enemy_step, enemy_turn_tick, make_enemy, update_enemies, update_enemies_with, Element, Enemy,
    EnemyAction, EnemyTurn, EnemyType, FINAL_DEPTH,
};
use kenney_jam::input::{handle_input, Action};
use kenney_jam::misc::{dir_to_vec, direction_from_index, step, Direction, IVec2, MoveTo};
use kenney_jam::player::{
    choose_direction, move_event, move_player, wrong_move_percent, PlayerMove, Status,
};
use kenney_jam::shop::{buy_upgrade, price, sell_upgrade, Upgrade};
use kenney_jam::tilemap::{
    carve_corridor, carve_corridors, entry_point, generate_level, generate_room, init,
    place_ladders, place_rooms, spawn_enemies, tile_to_index, Tile, Tilemap,
};
use kenney_jam::{GameState, PlayState, TurnEvent, TurnState};

fn count(map: &Tilemap, k: Tile) -> usize {
    (0..map.len()).filter(|&i| map.entry(i).1 == k).count()
}

fn coords_unique(map: &Tilemap) -> bool {
    let mut seen = HashSet::new();
    (0..map.len()).all(|i| {
        let p = map.entry(i).0;
        seen.insert((p.x, p.y))
    })
}

#[test]
fn generated_levels_have_unique_cells_and_ladders() {
    for level in 0..12u32 {
        for _ in 0..5 {
            let map = init(level);
            assert!(coords_unique(&map));
            assert_eq!(count(&map, Tile::LadderUp), 1);
            assert_eq!(map.get_tile(IVec2::new(7, 5)), Some(Tile::LadderUp));
            if level != FINAL_DEPTH {
                assert_eq!(count(&map, Tile::LadderDown), 1);
            } else {
                assert_eq!(count(&map, Tile::LadderDown), 0);
            }
            assert!(count(&map, Tile::Wall) > 0);
            assert!(count(&map, Tile::Enemy) > 0);
        }
    }
}

#[test]
fn single_room_level_shape() {
    let map = generate_level(0, (1, 1), (8, 8), (6, 6));
    assert!(coords_unique(&map));
    // a 10 by 8 block of tiles: walls around an 8 by 6 floor
    assert_eq!(map.len(), 80);
    assert_eq!(count(&map, Tile::Wall), 80 - 48);
    assert_eq!(count(&map, Tile::Path), 0);
}

#[test]
fn room_has_wall_ring_and_markers() {
    let mut map = Tilemap::new();
    generate_room(&mut map, (4, 3), IVec2::new(10, 20), 0);
    assert_eq!(map.len(), 30);
    for x in 0..6 {
        assert_eq!(map.get_tile(IVec2::new(10 + x, 20)), Some(Tile::Wall));
        assert_eq!(map.get_tile(IVec2::new(10 + x, 24)), Some(Tile::Wall));
    }
    let markers = count(&map, Tile::Enemy);
    assert!((1..3).contains(&markers));
    assert_eq!(count(&map, Tile::Ground) + markers, 12);
}

#[test]
fn ladders_on_final_depth() {
    let mut map = Tilemap::new();
    map.set_tile(IVec2::new(0, 0), Tile::Ground);
    place_ladders(&mut map, FINAL_DEPTH);
    assert_eq!(count(&map, Tile::LadderUp), 1);
    assert_eq!(count(&map, Tile::LadderDown), 0);
    let mut map = Tilemap::new();
    map.set_tile(IVec2::new(0, 0), Tile::Ground);
    place_ladders(&mut map, 0);
    assert_eq!(map.get_tile(IVec2::new(0, 0)), Some(Tile::LadderDown));
    // nothing to hold a down ladder
    let mut map = Tilemap::new();
    place_ladders(&mut map, 0);
    assert_eq!(count(&map, Tile::LadderDown), 0);
    assert_eq!(map.len(), 1);
}

#[test]
fn set_tile_replaces_and_reports() {
    let mut map = Tilemap::new();
    assert_eq!(map.set_tile(IVec2::new(1, 1), Tile::Wall), None);
    assert_eq!(map.set_tile(IVec2::new(1, 1), Tile::Path), Some(Tile::Wall));
    assert_eq!(map.len(), 1);
    assert_eq!(map.get_tile(IVec2::new(1, 1)), Some(Tile::Path));
    assert_eq!(map.get_tile(IVec2::new(2, 1)), None);
}

#[test]
fn final_level_spawns_one_artifact() {
    for _ in 0..5 {
        let map = init(FINAL_DEPTH);
        let spawned = spawn_enemies(&map, FINAL_DEPTH);
        assert_eq!(spawned.len(), count(&map, Tile::Enemy));
        let artifacts = spawned.iter().filter(|(e, _)| e.typ == EnemyType::EndGame).count();
        assert_eq!(artifacts, 1);
        let spawned = spawn_enemies(&map, 3);
        assert!(spawned.iter().all(|(e, _)| e.typ != EnemyType::EndGame));
    }
}

#[test]
fn tile_sprites_are_valid() {
    for _ in 0..50 {
        assert!([1, 2, 3, 4].contains(&tile_to_index(Tile::Path)));
        assert!([637, 843, 846, 892].contains(&tile_to_index(Tile::Wall)));
        assert!([0, 1, 2, 5, 6, 7, 310].contains(&tile_to_index(Tile::Ground)));
    }
    assert_eq!(tile_to_index(Tile::LadderUp), 296);
    assert_eq!(tile_to_index(Tile::LadderDown), 297);
}

#[test]
fn directions_and_steps() {
    assert_eq!(direction_from_index(0), Direction::North);
    assert_eq!(direction_from_index(3), Direction::West);
    assert_eq!(direction_from_index(7), Direction::West);
    assert_eq!(Direction::iter().len(), 4);
    assert_eq!(dir_to_vec(&Direction::South, 3), IVec2::new(0, -3));
    assert_eq!(step(IVec2::new(2, 2), Direction::East), IVec2::new(3, 2));
}

#[test]
fn move_to_finishes_exactly_once() {
    let mut m = MoveTo::new(IVec2::new(0, 0), IVec2::new(5, 5), None);
    let done: Vec<bool> = (0..6).map(|_| m.tick(50)).collect();
    assert_eq!(done, vec![false, false, false, true, false, false]);
    assert_eq!(m.fraction_permille(), 1000);
    let mut far = MoveTo::new(IVec2::new(0, 0), IVec2::new(500, -500), Some(Direction::North));
    assert!(far.tick(1000));
    assert!(!far.tick(1000));
}

#[test]
fn turn_state_cycles() {
    let t = TurnState::Player;
    let t = t.next(TurnEvent::PlayerActed);
    assert_eq!(t, TurnState::Enemy);
    assert_eq!(t.next(TurnEvent::PlayerActed), TurnState::Enemy);
    assert_eq!(t.next(TurnEvent::EnemyTimerElapsed), TurnState::Player);
}

#[test]
fn enemy_turn_timer_phases() {
    let mut t = EnemyTurn::new();
    assert!(!t.in_move_phase());
    assert!(!t.tick(79));
    assert!(!t.in_move_phase());
    assert!(!t.tick(1));
    assert!(t.in_move_phase());
    assert!(t.tick(500));
    assert!(!t.tick(10));
}

fn corridor_map() -> Tilemap {
    let mut map = Tilemap::new();
    for x in 0..6 {
        map.set_tile(IVec2::new(x, 0), Tile::Ground);
    }
    map.set_tile(IVec2::new(6, 0), Tile::Wall);
    map.set_tile(IVec2::new(3, 0), Tile::LadderDown);
    map.set_tile(IVec2::new(0, 0), Tile::LadderUp);
    map
}

#[test]
fn player_moves_and_pays() {
    let map = corridor_map();
    let mut s = SaveData::default();
    s.battery = 5;
    let mut p = IVec2::new(1, 0);
    let r = move_player(&mut s, &mut p, Direction::East, &vec![], &map);
    assert_eq!(r, PlayerMove::Moved { from: IVec2::new(1, 0), to: IVec2::new(2, 0), next: None });
    assert_eq!(p, IVec2::new(2, 0));
    assert_eq!(s.battery, 4);
    let r = move_player(&mut s, &mut p, Direction::East, &vec![], &map);
    assert_eq!(r, PlayerMove::Moved { from: IVec2::new(2, 0), to: IVec2::new(3, 0), next: Some(PlayState::ToLevel) });
    assert_eq!(move_event(r), Some(TurnEvent::PlayerActed));
}

#[test]
fn player_blocked_attacks_and_stays() {
    let map = corridor_map();
    let mut s = SaveData::default();
    s.battery = 5;
    let mut p = IVec2::new(5, 0);
    assert_eq!(move_player(&mut s, &mut p, Direction::East, &vec![], &map), PlayerMove::Blocked { dir: Direction::East });
    assert_eq!(s.battery, 5);
    assert_eq!(move_player(&mut s, &mut p, Direction::North, &vec![], &map), PlayerMove::Stay);
    assert_eq!(move_event(PlayerMove::Stay), None);
    let foes = vec![make_enemy(IVec2::new(9, 9), EnemyType::Cat, Element::Fire), make_enemy(IVec2::new(4, 0), EnemyType::Dog, Element::Fire)];
    assert_eq!(move_player(&mut s, &mut p, Direction::West, &foes, &map), PlayerMove::Attack { idx: 1, dir: Direction::West });
    assert_eq!(p, IVec2::new(5, 0));
    assert_eq!(s.battery, 4);
    let mut p = IVec2::new(1, 0);
    assert_eq!(move_player(&mut s, &mut p, Direction::West, &vec![], &map), PlayerMove::Moved { from: IVec2::new(1, 0), to: IVec2::new(0, 0), next: Some(PlayState::ToShop) });
    s.battery = 0;
    assert_eq!(move_player(&mut s, &mut p, Direction::East, &vec![], &map), PlayerMove::Stay);
}

#[test]
fn low_connection_scrambles_moves() {
    let mut s = SaveData::default();
    s.range_level = 1; // range 5
    s.level = 0;
    assert_eq!(wrong_move_percent(&s), 0);
    s.level = 2;
    assert_eq!(wrong_move_percent(&s), 10);
    s.level = 4;
    assert_eq!(wrong_move_percent(&s), 35);
    s.level = 9;
    assert_eq!(wrong_move_percent(&s), 50);
    assert_eq!(choose_direction(&s, Direction::East, 49, 0), (Direction::North, true));
    assert_eq!(choose_direction(&s, Direction::East, 50, 0), (Direction::East, false));
}

#[test]
fn enemy_steps() {
    let mut map = corridor_map();
    map.set_tile(IVec2::new(2, 0), Tile::Enemy);
    let player = IVec2::new(4, 0);
    let mut e = make_enemy(IVec2::new(2, 0), EnemyType::Cat, Element::Water);
    assert_eq!(enemy_step(&mut map, &mut e, player, false, true, Direction::East), EnemyAction::Idle);
    assert_eq!(enemy_step(&mut map, &mut e, player, true, false, Direction::East), EnemyAction::Skip);
    assert_eq!(enemy_step(&mut map, &mut e, player, false, false, Direction::North), EnemyAction::Skip);
    assert_eq!(enemy_step(&mut map, &mut e, player, false, false, Direction::West), EnemyAction::Move { from: IVec2::new(2, 0), to: IVec2::new(1, 0) });
    assert_eq!(e.pos, IVec2::new(1, 0));
    assert_eq!(map.get_tile(IVec2::new(1, 0)), Some(Tile::Enemy));
    assert_eq!(map.get_tile(IVec2::new(2, 0)), Some(Tile::Ground));
    let mut e = make_enemy(IVec2::new(5, 0), EnemyType::Dog, Element::Water);
    assert_eq!(enemy_step(&mut map, &mut e, player, false, false, Direction::West), EnemyAction::Bump(Direction::West));
    assert_eq!(e.pos, IVec2::new(5, 0));
    let mut m = make_enemy(IVec2::new(4, 0), EnemyType::Money, Element::Water);
    assert_eq!(enemy_step(&mut map, &mut m, player, false, false, Direction::West), EnemyAction::Skip);
}

#[test]
fn enemy_pass_keeps_everyone() {
    let mut map = corridor_map();
    let mut foes: Vec<Enemy> = vec![
        make_enemy(IVec2::new(1, 0), EnemyType::Chicken, Element::Fire),
        make_enemy(IVec2::new(4, 0), EnemyType::Battery, Element::Basic),
    ];
    let acts = update_enemies(&mut map, &mut foes, IVec2::new(5, 0), &vec![false, false]);
    assert_eq!(acts.len(), 2);
    assert_eq!(acts[1], EnemyAction::Skip);
    assert_eq!(foes.len(), 2);
    assert_eq!(foes[0].typ, EnemyType::Chicken);
}

#[test]
fn restart_and_transitions() {
    let mut s = SaveData::default();
    s.level = 6;
    s.fire = 3;
    s.battery_level = 2;
    assert_eq!(on_restart(&mut s, true), (GameState::Play, None));
    assert_eq!(s.level, 0);
    assert_eq!(s.battery, 125);
    assert_eq!(s.fire_uses, 3);
    s.range_level = 0; // range 4
    assert_eq!(level_transition(&mut s), (GameState::Play, PlayState::Play, None));
    assert_eq!(s.level, 1);
    assert_eq!(level_transition(&mut s).2, Some(Status::ConnectionLow));
    assert_eq!(level_transition(&mut s).2, Some(Status::ConnectionLow));
    assert_eq!(level_transition(&mut s).2, Some(Status::ConnectionEmpty));
    s.battery = 3;
    assert_eq!(check_player(&s), (true, false));
    s.battery = 0;
    assert_eq!(check_player(&s), (true, true));
    s.battery = 100;
    assert_eq!(check_player(&s), (false, false));
}

#[test]
fn input_selects_attacks() {
    let mut s = SaveData::default();
    assert_eq!(handle_input(&mut s, Action::AttackWater), None);
    assert_eq!(s.attack_selected, Element::Water);
    handle_input(&mut s, Action::NextAttack);
    assert_eq!(s.attack_selected, Element::Grass);
    handle_input(&mut s, Action::NextAttack);
    assert_eq!(s.attack_selected, Element::Basic);
    handle_input(&mut s, Action::PreviousAttack);
    assert_eq!(s.attack_selected, Element::Grass);
    assert_eq!(handle_input(&mut s, Action::Pause), Some(PlayState::Menu));
    assert_eq!(s.attack_selected, Element::Grass);
}

#[test]
fn shop_buys_and_refunds() {
    assert_eq!(price(0), Some(10));
    assert_eq!(price(9), Some(100));
    assert_eq!(price(10), Some(999));
    assert_eq!(price(11), None);
    let mut s = SaveData::default();
    s.money = 25;
    assert!(buy_upgrade(&mut s, Upgrade::Range));
    assert_eq!(s.range_level, 2);
    assert_eq!(s.money, 5);
    assert!(!buy_upgrade(&mut s, Upgrade::Range));
    assert!(buy_upgrade(&mut s, Upgrade::Fire) == false);
    s.money = 10;
    assert!(buy_upgrade(&mut s, Upgrade::Fire));
    assert_eq!(s.fire, 1);
    assert!(sell_upgrade(&mut s, Upgrade::Fire));
    assert_eq!(s.fire, 0);
    assert_eq!(s.money, 10);
    assert!(!sell_upgrade(&mut s, Upgrade::Fire));
    s.attack_level = 10;
    s.money = 5000;
    assert!(!buy_upgrade(&mut s, Upgrade::Basic));
}

#[test]
fn empty_battery_ends_the_run() {
    assert_eq!(kenney_jam::player::on_status(Status::BatteryEmpty), Some(PlayState::GameOver));
    assert_eq!(kenney_jam::player::on_status(Status::ConnectionLow), None);
}

#[test]
fn deepest_levels_still_have_a_way_down() {
    for level in [10u32, 11] {
        let map = init(level);
        assert_eq!(count(&map, Tile::LadderDown), 1);
    }
    assert_eq!(entry_point(), IVec2::new(7, 5));
}

#[test]
fn rooms_are_distinct_and_connected() {
    for n in [1u32, 5, 40] {
        let cells = place_rooms(n);
        assert_eq!(cells.len(), n as usize);
        assert_eq!(cells[0], IVec2::new(0, 0));
        let set: HashSet<(i32, i32)> = cells.iter().map(|c| (c.x, c.y)).collect();
        assert_eq!(set.len(), cells.len());
        for k in 1..cells.len() {
            let c = cells[k];
            assert!(cells[..k].iter().any(|d| (d.x - c.x).abs() + (d.y - c.y).abs() == 1));
        }
    }
}

#[test]
fn room_marker_count_scales_with_depth() {
    for _ in 0..20 {
        let mut map = Tilemap::new();
        generate_room(&mut map, (4, 3), IVec2::new(0, 0), 6);
        let markers = count(&map, Tile::Enemy);
        assert!((3..6).contains(&markers), "{}", markers);
        let mut tiny = Tilemap::new();
        generate_room(&mut tiny, (1, 1), IVec2::new(0, 0), 6);
        assert_eq!(count(&tiny, Tile::Enemy), 1);
    }
}

#[test]
fn corridor_runs_from_first_wall_to_next() {
    let mut map = Tilemap::new();
    let kinds = [Tile::Ground, Tile::Ground, Tile::Wall, Tile::Ground, Tile::Wall, Tile::Ground];
    for (i, k) in kinds.iter().enumerate() {
        map.set_tile(IVec2::new(7 + i as i32, 5), *k);
    }
    map.set_tile(IVec2::new(8, 6), Tile::Ground);
    carve_corridor(&mut map, IVec2::new(0, 0), Direction::East);
    let got: Vec<Tile> = (0..6).map(|i| map.get_tile(IVec2::new(7 + i, 5)).unwrap()).collect();
    assert_eq!(got, vec![Tile::Ground, Tile::Ground, Tile::Path, Tile::Path, Tile::Path, Tile::Ground]);
    assert_eq!(map.get_tile(IVec2::new(8, 6)), Some(Tile::Ground));
    // no wall on the line: nothing is carved
    let mut open = Tilemap::new();
    open.set_tile(IVec2::new(7, 5), Tile::Ground);
    carve_corridor(&mut open, IVec2::new(0, 0), Direction::North);
    assert_eq!(open.get_tile(IVec2::new(7, 5)), Some(Tile::Ground));
    assert_eq!(open.len(), 1);
}

#[test]
fn corridors_join_neighbouring_rooms() {
    let mut map = Tilemap::new();
    generate_room(&mut map, (8, 6), IVec2::new(2, 1), 0);
    generate_room(&mut map, (8, 6), IVec2::new(17, 1), 0);
    carve_corridors(&mut map, &vec![IVec2::new(0, 0), IVec2::new(1, 0)]);
    // the east wall of the first room and the west wall of the second open up
    assert_eq!(map.get_tile(IVec2::new(11, 5)), Some(Tile::Path));
    assert_eq!(map.get_tile(IVec2::new(17, 5)), Some(Tile::Path));
    assert!((12..17).all(|x| map.get_tile(IVec2::new(x, 5)) == Some(Tile::Path)));
}

#[test]
fn spawned_enemies_stand_on_distinct_markers() {
    for level in 0..12u32 {
        let map = init(level);
        let spawned = spawn_enemies(&map, level);
        let set: HashSet<(i32, i32)> = spawned.iter().map(|(e, _)| (e.pos.x, e.pos.y)).collect();
        assert_eq!(set.len(), spawned.len());
        assert!(spawned.iter().all(|(e, _)| map.get_tile(e.pos) == Some(Tile::Enemy)));
    }
}

#[test]
fn enemy_pass_with_given_choices() {
    let mut map = corridor_map();
    map.set_tile(IVec2::new(2, 0), Tile::Enemy);
    map.set_tile(IVec2::new(4, 0), Tile::Enemy);
    let mut foes = vec![
        make_enemy(IVec2::new(2, 0), EnemyType::Cat, Element::Fire),
        make_enemy(IVec2::new(4, 0), EnemyType::Dog, Element::Grass),
    ];
    let acts = update_enemies_with(&mut map, &mut foes, IVec2::new(5, 0), &vec![false, false], &vec![false, false], &vec![Direction::West, Direction::East]);
    assert_eq!(acts, vec![EnemyAction::Move { from: IVec2::new(2, 0), to: IVec2::new(1, 0) }, EnemyAction::Bump(Direction::East)]);
    assert_eq!(foes[0].pos, IVec2::new(1, 0));
    assert_eq!(foes[1].pos, IVec2::new(4, 0));
    assert_eq!(map.get_tile(IVec2::new(2, 0)), Some(Tile::Ground));
    assert_eq!(map.get_tile(IVec2::new(1, 0)), Some(Tile::Enemy));
}

#[test]
fn enemies_wait_for_the_move_phase() {
    let mut map = corridor_map();
    map.set_tile(IVec2::new(2, 0), Tile::Enemy);
    let mut foes = vec![make_enemy(IVec2::new(2, 0), EnemyType::Cat, Element::Fire)];
    let mut timer = EnemyTurn::new();
    let (done, acts) = enemy_turn_tick(&mut timer, 50, &mut map, &mut foes, IVec2::new(5, 0), &vec![false]);
    assert!(!done);
    assert!(acts.is_empty());
    assert_eq!(foes[0].pos, IVec2::new(2, 0));
    let (done, acts) = enemy_turn_tick(&mut timer, 200, &mut map, &mut foes, IVec2::new(5, 0), &vec![false]);
    assert!(done);
    assert_eq!(acts.len(), 1);
}

#[test]
fn later_restarts_resume_play() {
    let mut s = SaveData::default();
    s.battery = 3;
    assert_eq!(on_restart(&mut s, false), (GameState::Play, Some(PlayState::Play)));
    assert_eq!(s.battery, 75);
}
