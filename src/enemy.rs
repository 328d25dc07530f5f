//! Enemies: the elements and their matchups, the depth-weighted spawning
//! tables, and damage resolution.

use crate::data::{attack, max_battery, spec_attack, spec_max_battery, SaveData};
use crate::misc::{direction_from_index, step, Direction, IVec2};
use crate::player::{spec_step, steppable};
use crate::tilemap::{Tile, Tilemap};
use crate::rng::{random_range, random_u32};
use vstd::prelude::*;

verus! {

/// The attack and resistance type of a creature or an attack. The four values
/// form a cycle: basic, fire, water, grass.
#[derive(Clone, Copy, Debug, PartialEq, Eq, Structural)]
pub enum Element {
    Basic,
    Fire,
    Water,
    Grass,
}

pub open spec fn spec_next(e: Element) -> Element {
    match e {
        Element::Basic => Element::Fire,
        Element::Fire => Element::Water,
        Element::Water => Element::Grass,
        Element::Grass => Element::Basic,
    }
}

pub open spec fn spec_prev(e: Element) -> Element {
    match e {
        Element::Basic => Element::Grass,
        Element::Fire => Element::Basic,
        Element::Water => Element::Fire,
        Element::Grass => Element::Water,
    }
}

impl Element {
    /// Moves to the successor in the cycle.
    pub fn next(&mut self)
        ensures
            *final(self) == spec_next(*old(self)),
    {
        *self = match self {
            Element::Basic => Element::Fire,
            Element::Fire => Element::Water,
            Element::Water => Element::Grass,
            Element::Grass => Element::Basic,
        };
    }

    /// Moves to the predecessor in the cycle: three steps forward.
    pub fn prev(&mut self)
        ensures
            *final(self) == spec_prev(*old(self)),
    {
        self.next();
        self.next();
        self.next();
    }
}

/// The element cycle has period four, and stepping back undoes stepping
/// forward.
pub proof fn lemma_element_cycle(e: Element)
    ensures
        spec_prev(spec_next(e)) == e,
        spec_next(spec_prev(e)) == e,
        spec_next(spec_next(spec_next(spec_next(e)))) == e,
{
}

/// `a` is super-effective against `b`: water beats fire, fire beats grass,
/// grass beats water.
pub open spec fn beats(a: Element, b: Element) -> bool {
    ||| a == Element::Water && b == Element::Fire
    ||| a == Element::Fire && b == Element::Grass
    ||| a == Element::Grass && b == Element::Water
}

/// How an attack of one element fares against a defender of another.
#[derive(Clone, Copy, Debug, PartialEq, Eq, Structural)]
pub enum Matchup {
    /// Full base damage.
    Neutral,
    /// One and a half times the base damage.
    Super,
    /// No damage; the attacker's battery is drained instead.
    Resisted,
}

pub open spec fn spec_matchup(attack: Element, defender: Element) -> Matchup {
    if beats(attack, defender) {
        Matchup::Super
    } else if beats(defender, attack) {
        Matchup::Resisted
    } else {
        Matchup::Neutral
    }
}

/// The matchup of an attack element against a defender element.
pub fn matchup(attack: Element, defender: Element) -> (r: Matchup)
    ensures
        r == spec_matchup(attack, defender),
{
    match (attack, defender) {
        (Element::Water, Element::Fire) | (Element::Fire, Element::Grass) | (
            Element::Grass,
            Element::Water,
        ) => Matchup::Super,
        (Element::Fire, Element::Water) | (Element::Grass, Element::Fire) | (
            Element::Water,
            Element::Grass,
        ) => Matchup::Resisted,
        _ => Matchup::Neutral,
    }
}

/// Super-effectiveness is antisymmetric: when `a` is super-effective against
/// `b`, an attack of `b` against `a` is resisted, and the converse. Basic
/// attacks and basic defenders, and equal elements, are always neutral.
pub proof fn lemma_matchup_antisymmetric(a: Element, b: Element)
    ensures
        spec_matchup(a, b) == Matchup::Super <==> spec_matchup(b, a) == Matchup::Resisted,
        spec_matchup(a, b) == Matchup::Neutral <==> spec_matchup(b, a) == Matchup::Neutral,
        a == b ==> spec_matchup(a, b) == Matchup::Neutral,
        a == Element::Basic ==> spec_matchup(a, b) == Matchup::Neutral,
        b == Element::Basic ==> spec_matchup(a, b) == Matchup::Neutral,
{
}

/// What a creature is. Money and batteries are pickups, not fighters; the
/// end-game artifact wins the game when touched.
#[derive(Clone, Copy, Debug, PartialEq, Eq, Structural)]
pub enum EnemyType {
    Chicken,
    Cat,
    Dog,
    YoungOld,
    Man,
    Money,
    Battery,
    EndGame,
}

pub open spec fn is_pickup(t: EnemyType) -> bool {
    t == EnemyType::Money || t == EnemyType::Battery
}

/// A creature on the level. Health is in quarter points.
#[derive(Clone, Copy, Debug)]
pub struct Enemy {
    pub pos: IVec2,
    pub health: u32,
    pub typ: EnemyType,
    pub elem: Element,
}

/// The depth of the last level, where the end-game artifact lies.
pub const FINAL_DEPTH: u32 = 9;

/// The number of depths that the spawning table covers.
pub const WEIGHT_ROWS: u32 = 12;

/// The spawning weights, in percent, of chicken, cat, dog, young-or-old, man,
/// money and battery at each depth.
pub open spec fn weight_table(level: int) -> Seq<u32> {
    if level == 0 {
        seq![80, 10, 0, 0, 0, 10, 0]
    } else if level == 1 {
        seq![65, 20, 5, 0, 0, 10, 0]
    } else if level == 2 {
        seq![35, 30, 25, 0, 0, 20, 0]
    } else if level == 3 {
        seq![5, 40, 30, 5, 0, 20, 0]
    } else if level == 4 {
        seq![0, 20, 45, 25, 0, 9, 1]
    } else if level == 5 {
        seq![0, 10, 20, 50, 10, 9, 1]
    } else if level == 6 {
        seq![0, 0, 5, 55, 20, 19, 0]
    } else if level == 7 {
        seq![0, 0, 0, 60, 15, 19, 0]
    } else if level == 8 {
        seq![0, 0, 0, 40, 35, 24, 0]
    } else if level == 9 {
        seq![0, 0, 0, 20, 50, 29, 0]
    } else if level == 10 {
        seq![0, 0, 0, 10, 70, 19, 0]
    } else {
        seq![0, 0, 0, 5, 85, 9, 0]
    }
}

fn row_of(w: [u32; 7]) -> (r: Vec<u32>)
    ensures
        r@ == w@,
{
    let mut v: Vec<u32> = Vec::new();
    let mut i: usize = 0;
    while i < 7
        invariant
            i <= 7,
            v@ == w@.take(i as int),
        decreases 7 - i,
    {
        v.push(w[i]);
        i = i + 1;
        assert(v@ =~= w@.take(i as int));
    }
    assert(w@.take(7) =~= w@);
    v
}

/// The spawning weights of one depth.
pub fn weight_row(level: u32) -> (r: Vec<u32>)
    requires
        level < WEIGHT_ROWS,
    ensures
        r@ == weight_table(level as int),
{
    let w: [u32; 7] = match level {
        0 => [80, 10, 0, 0, 0, 10, 0],
        1 => [65, 20, 5, 0, 0, 10, 0],
        2 => [35, 30, 25, 0, 0, 20, 0],
        3 => [5, 40, 30, 5, 0, 20, 0],
        4 => [0, 20, 45, 25, 0, 9, 1],
        5 => [0, 10, 20, 50, 10, 9, 1],
        6 => [0, 0, 5, 55, 20, 19, 0],
        7 => [0, 0, 0, 60, 15, 19, 0],
        8 => [0, 0, 0, 40, 35, 24, 0],
        9 => [0, 0, 0, 20, 50, 29, 0],
        10 => [0, 0, 0, 10, 70, 19, 0],
        _ => [0, 0, 0, 5, 85, 9, 0],
    };
    let r = row_of(w);
    assert(r@ =~= weight_table(level as int));
    r
}

/// The sum of the first `n` weights of `row`.
pub open spec fn cumulative(row: Seq<u32>, n: int) -> int
    decreases n,
{
    if n <= 0 || n > row.len() {
        0
    } else {
        cumulative(row, n - 1) + row[n - 1]
    }
}

/// The first index at or after `i` whose running total exceeds `draw`, or
/// the row's length when none does.
pub open spec fn first_over(row: Seq<u32>, draw: int, i: int) -> int
    decreases row.len() - i,
{
    if i < 0 || i >= row.len() {
        row.len() as int
    } else if cumulative(row, i + 1) > draw {
        i
    } else {
        first_over(row, draw, i + 1)
    }
}

/// A cumulative-weight draw: the first index whose running total of weights
/// exceeds `draw`; the row's length when the weights never do.
pub open spec fn spec_weighted_index(row: Seq<u32>, draw: int) -> int {
    first_over(row, draw, 0)
}

/// Selects from `row` by a cumulative-weight draw.
pub fn weighted_index(row: &Vec<u32>, draw: u32) -> (r: usize)
    ensures
        r == spec_weighted_index(row@, draw as int),
        r <= row@.len(),
{
    let mut cum: u64 = 0;
    let mut i: usize = 0;
    while i < row.len()
        invariant
            i <= row@.len(),
            cum == cumulative(row@, i as int),
            cum <= draw,
            first_over(row@, draw as int, 0) == first_over(row@, draw as int, i as int),
        decreases row@.len() - i,
    {
        let next = cum + row[i] as u64;
        if next > draw as u64 {
            return i;
        }
        cum = next;
        i = i + 1;
    }
    i
}

proof fn lemma_cumulative_monotonic(row: Seq<u32>, a: int, b: int)
    requires
        0 <= a <= b <= row.len(),
    ensures
        cumulative(row, a) <= cumulative(row, b),
    decreases b - a,
{
    if a < b {
        lemma_cumulative_monotonic(row, a, b - 1);
    }
}

/// The cumulative-weight draw selects index `i` for exactly the draws from
/// the running total before `i` up to, but not including, the running total
/// after it: `row[i]` draws out of every hundred when the weights are percents.
pub proof fn lemma_weighted_index_interval(row: Seq<u32>, draw: int, i: int)
    requires
        0 <= i < row.len(),
        cumulative(row, i) <= draw < cumulative(row, i + 1),
    ensures
        spec_weighted_index(row, draw) == i,
{
    lemma_first_over_from(row, draw, i, 0);
}

proof fn lemma_first_over_from(row: Seq<u32>, draw: int, i: int, j: int)
    requires
        0 <= j <= i < row.len(),
        cumulative(row, i) <= draw < cumulative(row, i + 1),
    ensures
        first_over(row, draw, j) == i,
    decreases i - j,
{
    if j < i {
        lemma_cumulative_monotonic(row, j + 1, i);
        lemma_first_over_from(row, draw, i, j + 1);
    }
}

proof fn lemma_first_over_bounds(row: Seq<u32>, draw: int, i: int, j: int)
    requires
        0 <= j <= i < row.len(),
        draw >= 0,
        first_over(row, draw, j) == i,
        cumulative(row, j) <= draw,
    ensures
        cumulative(row, i) <= draw < cumulative(row, i + 1),
    decreases i - j,
{
    if j < i {
        lemma_first_over_bounds(row, draw, i, j + 1);
    } else {
        lemma_first_over_at_least(row, draw, i + 1);
    }
}

proof fn lemma_first_over_at_least(row: Seq<u32>, draw: int, k: int)
    requires
        0 <= k <= row.len(),
    ensures
        k <= first_over(row, draw, k) <= row.len(),
    decreases row.len() - k,
{
    if k < row.len() {
        lemma_first_over_at_least(row, draw, k + 1);
    }
}

/// How many of the draws `0..n` select index `i`.
pub open spec fn hits(row: Seq<u32>, i: int, n: int) -> nat
    decreases n,
{
    if n <= 0 {
        0
    } else {
        hits(row, i, n - 1) + (if spec_weighted_index(row, n - 1) == i { 1nat } else { 0nat })
    }
}

/// Counted over every draw below a bound that reaches the running total
/// after index `i`, the cumulative-weight draw selects `i` exactly `row[i]`
/// times: with percent weights and draws `0..100`, each type comes up as
/// often as its weight says.
pub proof fn lemma_weighted_index_counts(row: Seq<u32>, i: int, n: int)
    requires
        0 <= i < row.len(),
        cumulative(row, i + 1) <= n,
    ensures
        hits(row, i, n) == row[i],
{
    lemma_cumulative_monotonic(row, 0, i);
    lemma_hits_overlap(row, i, n);
}

proof fn lemma_hits_overlap(row: Seq<u32>, i: int, n: int)
    requires
        0 <= i < row.len(),
        n >= 0,
    ensures
        hits(row, i, n) == (if n <= cumulative(row, i) {
            0
        } else if n <= cumulative(row, i + 1) {
            n - cumulative(row, i)
        } else {
            row[i] as int
        }),
    decreases n,
{
    lemma_cumulative_monotonic(row, 0, i);
    if n > 0 {
        lemma_hits_overlap(row, i, n - 1);
        let d = n - 1;
        if spec_weighted_index(row, d) == i {
            lemma_first_over_bounds(row, d, i, 0);
        } else if cumulative(row, i) <= d < cumulative(row, i + 1) {
            lemma_weighted_index_interval(row, d, i);
        }
    }
}

/// The creature of each column of the spawning table: chicken, cat, dog,
/// young-or-old, man, money, battery.
pub open spec fn column_type(idx: int) -> EnemyType {
    if idx == 0 {
        EnemyType::Chicken
    } else if idx == 1 {
        EnemyType::Cat
    } else if idx == 2 {
        EnemyType::Dog
    } else if idx == 3 {
        EnemyType::YoungOld
    } else if idx == 4 {
        EnemyType::Man
    } else if idx == 5 {
        EnemyType::Money
    } else {
        EnemyType::Battery
    }
}

/// The creature that a table index stands for at depth `level`: the
/// column's creature, and for a draw past the row's total, a battery in the
/// sixth depth and money elsewhere.
pub open spec fn spec_type_for_index(level: u32, idx: int) -> EnemyType {
    if 0 <= idx < 7 {
        column_type(idx)
    } else if level == 6 {
        EnemyType::Battery
    } else {
        EnemyType::Money
    }
}

/// The creature that a draw selects at depth `level`: the draw is taken
/// modulo 100 and run against that depth's weights.
pub open spec fn spec_enemy_type_for_draw(level: u32, draw: u32) -> EnemyType {
    spec_type_for_index(level, spec_weighted_index(weight_table(level as int), (draw % 100) as int))
}

/// Maps a draw to a creature type at depth `level`.
pub fn enemy_type_for_draw(level: u32, draw: u32) -> (r: EnemyType)
    requires
        level < WEIGHT_ROWS,
    ensures
        r == spec_enemy_type_for_draw(level, draw),
{
    let row = weight_row(level);
    let idx = weighted_index(&row, draw % 100);
    match idx {
        0 => EnemyType::Chicken,
        1 => EnemyType::Cat,
        2 => EnemyType::Dog,
        3 => EnemyType::YoungOld,
        4 => EnemyType::Man,
        5 => EnemyType::Money,
        6 => EnemyType::Battery,
        _ => {
            if level == 6 {
                EnemyType::Battery
            } else {
                EnemyType::Money
            }
        },
    }
}

/// Each column's creature is drawn exactly as often as its weight: over the
/// draws `0..100`, a column whose running total stays within 100 is selected
/// for as many draws as its weight, and those draws give its creature.
pub proof fn lemma_type_frequency(level: u32, i: int)
    requires
        level < WEIGHT_ROWS,
        0 <= i < 7,
        cumulative(weight_table(level as int), i + 1) <= 100,
    ensures
        hits(weight_table(level as int), i, 100) == weight_table(level as int)[i],
        forall|d: u32| d < 100 && spec_weighted_index(weight_table(level as int), d as int) == i
            ==> #[trigger] spec_enemy_type_for_draw(level, d) == column_type(i),
{
    lemma_weighted_index_counts(weight_table(level as int), i, 100);
}

/// A creature type that some draw selects at depth `level`.
pub open spec fn possible_type(level: u32, t: EnemyType) -> bool {
    exists|d: u32| d < 100 && #[trigger] spec_enemy_type_for_draw(level, d) == t
}

/// Draws a creature type for depth `level` from the weighted table.
pub fn enemy_type(level: u32) -> (r: EnemyType)
    requires
        level < WEIGHT_ROWS,
    ensures
        possible_type(level, r),
        r != EnemyType::EndGame,
{
    let draw = random_u32();
    let r = enemy_type_for_draw(level, draw);
    let d = draw % 100;
    assert(spec_enemy_type_for_draw(level, d) == r);
    r
}

pub open spec fn spec_element_from_index(n: u32) -> Element {
    if n == 0 {
        Element::Fire
    } else if n == 1 {
        Element::Water
    } else if n == 2 {
        Element::Grass
    } else {
        Element::Basic
    }
}

/// The element that a draw in `0..4` stands for.
pub fn element_from_index(n: u32) -> (r: Element)
    ensures
        r == spec_element_from_index(n),
{
    match n {
        0 => Element::Fire,
        1 => Element::Water,
        2 => Element::Grass,
        _ => Element::Basic,
    }
}

/// Draws an element uniformly.
pub fn enemy_elem() -> (r: Element) {
    element_from_index(random_range(0, 4))
}

/// Columns of the sprite atlas.
pub const ATLAS_WIDTH: usize = 49;

/// Starting health of each creature type, in quarter points. Pickups have
/// none: they go on first contact.
pub open spec fn base_health(t: EnemyType) -> u32 {
    match t {
        EnemyType::Chicken => 4,
        EnemyType::Cat => 8,
        EnemyType::Dog => 12,
        EnemyType::YoungOld => 16,
        EnemyType::Man => 20,
        EnemyType::Money => 0,
        EnemyType::Battery => 0,
        EnemyType::EndGame => 4,
    }
}

/// The atlas indices that may show a creature of type `t`.
pub open spec fn sprite_ok(t: EnemyType, idx: usize) -> bool {
    let w = ATLAS_WIDTH as int;
    match t {
        EnemyType::Chicken => 7 * w + 25 <= idx < 7 * w + 27,
        EnemyType::Cat => 7 * w + 29 <= idx < 7 * w + 31,
        EnemyType::Dog => idx == 7 * w + 31,
        EnemyType::YoungOld => 4 * w + 28 <= idx < 4 * w + 30,
        EnemyType::Man => 26 <= idx < 32,
        EnemyType::Money => idx == 10 * w + 33,
        EnemyType::Battery => idx == 22 * w + 8,
        EnemyType::EndGame => idx == 45 + 6 * w || idx == 45 + 7 * w || idx == 45 + 8 * w,
    }
}

/// Picks a sprite for a creature of type `t`.
pub fn enemy_sprite(t: EnemyType) -> (r: usize)
    ensures
        sprite_ok(t, r),
{
    match t {
        EnemyType::Chicken => 7 * ATLAS_WIDTH + 25 + random_range(0, 2) as usize,
        EnemyType::Cat => 7 * ATLAS_WIDTH + 29 + random_range(0, 2) as usize,
        EnemyType::Dog => 7 * ATLAS_WIDTH + 31,
        EnemyType::YoungOld => 4 * ATLAS_WIDTH + 28 + random_range(0, 2) as usize,
        EnemyType::Man => 26 + random_range(0, 6) as usize,
        EnemyType::Money => 10 * ATLAS_WIDTH + 33,
        EnemyType::Battery => 22 * ATLAS_WIDTH + 8,
        EnemyType::EndGame => 45 + random_range(6, 9) as usize * ATLAS_WIDTH,
    }
}

/// Builds the creature at `pos` of type `typ` and element `elem`, with its
/// starting health. Pickups are always basic.
pub fn make_enemy(pos: IVec2, typ: EnemyType, elem: Element) -> (r: Enemy)
    ensures
        r.pos == pos,
        r.typ == typ,
        r.health == base_health(typ),
        r.elem == (if is_pickup(typ) || typ == EnemyType::EndGame { Element::Basic } else { elem }),
{
    let health: u32 = match typ {
        EnemyType::Chicken => 4,
        EnemyType::Cat => 8,
        EnemyType::Dog => 12,
        EnemyType::YoungOld => 16,
        EnemyType::Man => 20,
        EnemyType::Money => 0,
        EnemyType::Battery => 0,
        EnemyType::EndGame => 4,
    };
    let elem = match typ {
        EnemyType::Money | EnemyType::Battery | EnemyType::EndGame => Element::Basic,
        _ => elem,
    };
    Enemy { pos, health, typ, elem }
}

/// Spawns the creature for a marker at `pos` on depth `level`, with its
/// sprite. On the final depth the first spawn is the end-game artifact, and
/// `unique` records that it was placed; every other spawn is drawn from the
/// depth's weights and is never the artifact.
pub fn get_enemy(pos: IVec2, level: u32, unique: &mut bool) -> (r: (Enemy, usize))
    requires
        level < WEIGHT_ROWS,
    ensures
        sprite_ok(r.0.typ, r.1),
        r.0.pos == pos,
        r.0.health == base_health(r.0.typ),
        is_pickup(r.0.typ) ==> r.0.elem == Element::Basic,
        level == FINAL_DEPTH && !*old(unique) ==> {
            &&& r.0.typ == EnemyType::EndGame
            &&& r.0.elem == Element::Basic
            &&& *final(unique)
        },
        !(level == FINAL_DEPTH && !*old(unique)) ==> {
            &&& possible_type(level, r.0.typ)
            &&& r.0.typ != EnemyType::EndGame
            &&& *final(unique) == *old(unique)
        },
{
    if level == FINAL_DEPTH && !*unique {
        *unique = true;
        let e = make_enemy(pos, EnemyType::EndGame, Element::Basic);
        let idx = enemy_sprite(EnemyType::EndGame);
        return (e, idx);
    }
    let typ = enemy_type(level);
    let idx = enemy_sprite(typ);
    let e = make_enemy(pos, typ, enemy_elem());
    (e, idx)
}

/// The remaining charges of an element's attack; basic attacks have no
/// counter.
pub open spec fn spec_uses(s: SaveData, e: Element) -> u32 {
    match e {
        Element::Fire => s.fire_uses,
        Element::Water => s.water_uses,
        Element::Grass => s.grass_uses,
        Element::Basic => 0,
    }
}

/// `s` with one charge of element `e` spent.
pub open spec fn spend_use(s: SaveData, e: Element) -> SaveData {
    match e {
        Element::Fire => SaveData { fire_uses: (s.fire_uses - 1) as u32, ..s },
        Element::Water => SaveData { water_uses: (s.water_uses - 1) as u32, ..s },
        Element::Grass => SaveData { grass_uses: (s.grass_uses - 1) as u32, ..s },
        Element::Basic => s,
    }
}

/// Touching a battery pickup refills a quarter of the capacity, capped at the
/// capacity; other creatures leave the record alone.
pub open spec fn after_pickup(s: SaveData, t: EnemyType) -> SaveData {
    if t == EnemyType::Battery {
        let cap = spec_max_battery(s.battery_level);
        let b = s.battery + cap / 4;
        SaveData { battery: (if b > cap { cap } else { b }) as u32, ..s }
    } else {
        s
    }
}

/// The player's strike against a defender of element `defender`: the record
/// afterwards and the damage, in quarter points, before it is clamped to the
/// defender's health.
///
/// A basic attack always deals the base damage. An elemental attack needs a
/// charge, which it spends; without one it deals nothing. With a charge it
/// deals the base damage, or one and a half times that when super-effective;
/// when resisted it deals nothing and drains the battery by the base damage in
/// whole points, stopping at zero.
pub open spec fn spec_strike(s: SaveData, defender: Element) -> (SaveData, int) {
    let atk = spec_attack(s.attack_level);
    let sel = s.attack_selected;
    if sel == Element::Basic {
        (s, atk)
    } else if spec_uses(s, sel) == 0 {
        (s, 0)
    } else {
        let s1 = spend_use(s, sel);
        match spec_matchup(sel, defender) {
            Matchup::Neutral => (s1, atk),
            Matchup::Super => (s1, atk * 3 / 2),
            Matchup::Resisted => {
                let drain = atk / 4;
                (SaveData { battery: (if s1.battery >= drain { s1.battery - drain } else { 0 }) as u32, ..s1 }, 0)
            },
        }
    }
}

/// Damage never leaves negative health: what remains is the health less the
/// damage clamped to it, which is the health less the damage, or zero.
pub proof fn lemma_damage_clamped(value: int, health: u32)
    requires
        value >= 0,
    ensures
        clamp_damage(value, health) <= health,
        health - clamp_damage(value, health) == (if health - value > 0 { health - value } else { 0 }),
{
}

/// The result of the player hitting a creature.
#[derive(Clone, Copy, Debug, PartialEq, Eq, Structural)]
pub enum DamageOutcome {
    /// The end-game artifact was touched: the game is won.
    GameWon,
    /// Damage was dealt, in quarter points; `killed` when the creature's
    /// health reached zero.
    Hit { dealt: u32, killed: bool },
}

/// The damage actually dealt: the strike clamped to the remaining health.
pub open spec fn clamp_damage(value: int, health: u32) -> u32 {
    (if value < health { value } else { health as int }) as u32
}

/// Applies one hit of the player to `enemy`, updating the record as the
/// strike prescribes. Health never drops below zero: the damage dealt is the
/// strike clamped to the health the creature had.
pub fn resolve_hit(save: &mut SaveData, enemy: &mut Enemy) -> (r: DamageOutcome)
    requires
        old(save).wf(),
    ensures
        old(enemy).typ == EnemyType::EndGame ==> {
            &&& r == DamageOutcome::GameWon
            &&& *final(save) == *old(save)
            &&& *final(enemy) == *old(enemy)
        },
        old(enemy).typ != EnemyType::EndGame ==> {
            let (s2, value) = spec_strike(after_pickup(*old(save), old(enemy).typ), old(enemy).elem);
            let dealt = clamp_damage(value, old(enemy).health);
            &&& *final(save) == s2
            &&& *final(enemy) == Enemy { health: (old(enemy).health - dealt) as u32, ..*old(enemy) }
            &&& r == DamageOutcome::Hit { dealt, killed: old(enemy).health - dealt == 0 }
        },
{
    if let EnemyType::EndGame = enemy.typ {
        return DamageOutcome::GameWon;
    }
    if let EnemyType::Battery = enemy.typ {
        let cap = max_battery(save.battery_level);
        let b = save.battery as u64 + (cap / 4) as u64;
        save.battery = if b > cap as u64 { cap } else { b as u32 };
    }
    let atk = attack(save.attack_level);
    let value: u32 = match save.attack_selected {
        Element::Basic => atk,
        Element::Fire | Element::Water | Element::Grass => {
            let sel = save.attack_selected;
            let has_use = match sel {
                Element::Fire => save.fire_uses > 0,
                Element::Water => save.water_uses > 0,
                _ => save.grass_uses > 0,
            };
            if !has_use {
                0
            } else {
                match sel {
                    Element::Fire => save.fire_uses = save.fire_uses - 1,
                    Element::Water => save.water_uses = save.water_uses - 1,
                    _ => save.grass_uses = save.grass_uses - 1,
                }
                match matchup(sel, enemy.elem) {
                    Matchup::Neutral => atk,
                    Matchup::Super => atk / 2 * 3,
                    Matchup::Resisted => {
                        let drain = atk / 4;
                        save.battery = if save.battery >= drain { save.battery - drain } else { 0 };
                        0
                    },
                }
            }
        },
    };
    let dealt = if value < enemy.health { value } else { enemy.health };
    enemy.health = enemy.health - dealt;
    DamageOutcome::Hit { dealt, killed: enemy.health == 0 }
}

/// The pools of death sounds.
#[derive(Clone, Copy, Debug, PartialEq, Eq, Structural)]
pub enum SoundPool {
    Chicken,
    Cat,
    Dog,
    Man,
    Upgrades,
}

/// The pool of death sounds of a creature type, and its size: people share
/// one, and pickups and the artifact sound like an upgrade.
pub open spec fn spec_sound_pool(t: EnemyType) -> (SoundPool, u32) {
    match t {
        EnemyType::Chicken => (SoundPool::Chicken, 2),
        EnemyType::Cat => (SoundPool::Cat, 3),
        EnemyType::Dog => (SoundPool::Dog, 3),
        EnemyType::YoungOld | EnemyType::Man => (SoundPool::Man, 2),
        EnemyType::Money | EnemyType::Battery | EnemyType::EndGame => (SoundPool::Upgrades, 2),
    }
}

/// The death sound that a draw selects for a creature of type `t`: its
/// pool, and the draw modulo the pool's size as the index in it.
pub fn death_sound_for_draw(t: EnemyType, draw: u32) -> (r: (SoundPool, u32))
    ensures
        r.0 == spec_sound_pool(t).0,
        r.1 == draw % spec_sound_pool(t).1,
{
    let (pool, n): (SoundPool, u32) = match t {
        EnemyType::Chicken => (SoundPool::Chicken, 2),
        EnemyType::Cat => (SoundPool::Cat, 3),
        EnemyType::Dog => (SoundPool::Dog, 3),
        EnemyType::YoungOld | EnemyType::Man => (SoundPool::Man, 2),
        EnemyType::Money | EnemyType::Battery | EnemyType::EndGame => (SoundPool::Upgrades, 2),
    };
    (pool, draw % n)
}

/// Draws the death sound of a creature of type `t`: a random entry of its
/// type's pool.
pub fn death_sound(t: EnemyType) -> (r: (SoundPool, u32))
    ensures
        r.0 == spec_sound_pool(t).0,
        r.1 < spec_sound_pool(t).1,
{
    death_sound_for_draw(t, random_range(0, 3))
}

/// The deepest level for which the money reward of the level fits in a
/// `u32`.
pub const REWARD_DEPTH_LIMIT: u32 = 0x3fff_fffe;

/// The money that a kill of type `t` may give on depth `level`: a range per
/// creature, one that grows with depth for money pickups, and nothing for a
/// battery or the artifact.
pub open spec fn reward_ok(t: EnemyType, level: u32, r: u32) -> bool {
    match t {
        EnemyType::Chicken => 4 <= r < 6,
        EnemyType::Cat => 8 <= r < 11,
        EnemyType::Dog => 14 <= r < 17,
        EnemyType::YoungOld => 18 <= r < 21,
        EnemyType::Man => 24 <= r < 27,
        EnemyType::Money => level + 2 <= r < (level + 1) * 4,
        EnemyType::Battery | EnemyType::EndGame => r == 0,
    }
}

/// Draws the money reward for a kill of type `t` on depth `level`.
pub fn draw_reward(t: EnemyType, level: u32) -> (r: u32)
    requires
        level <= REWARD_DEPTH_LIMIT,
    ensures
        reward_ok(t, level, r),
{
    match t {
        EnemyType::Chicken => random_range(4, 6),
        EnemyType::Cat => random_range(8, 11),
        EnemyType::Dog => random_range(14, 17),
        EnemyType::YoungOld => random_range(18, 21),
        EnemyType::Man => random_range(24, 27),
        EnemyType::Money => random_range(level + 2, (level + 1) * 4),
        EnemyType::Battery | EnemyType::EndGame => 0,
    }
}

/// `a + b`, saturating at `u32::MAX`.
pub open spec fn sat_add(a: u32, b: u32) -> u32 {
    (if a + b > u32::MAX { u32::MAX as int } else { a + b }) as u32
}

/// The record after a kill of type `t` that gave `reward`: the money is
/// added, and every kill but a money pickup counts toward the kill counter.
/// Both counters saturate.
pub open spec fn spec_grant_kill(s: SaveData, t: EnemyType, reward: u32) -> SaveData {
    SaveData {
        money: sat_add(s.money, reward),
        enemies_killed: if t == EnemyType::Money { s.enemies_killed } else { sat_add(s.enemies_killed, 1) },
        ..s
    }
}

/// Credits a kill of type `t` that gave `reward`.
pub fn grant_kill(save: &mut SaveData, t: EnemyType, reward: u32)
    ensures
        *final(save) == spec_grant_kill(*old(save), t, reward),
{
    save.money = if save.money as u64 + reward as u64 > u32::MAX as u64 {
        u32::MAX
    } else {
        save.money + reward
    };
    if t != EnemyType::Money {
        save.enemies_killed = if save.enemies_killed == u32::MAX {
            u32::MAX
        } else {
            save.enemies_killed + 1
        };
    }
}

/// Resolves a hit of the player on creature `idx` of `enemies`. A creature
/// whose health reaches zero is removed from the list, so its death is
/// processed once, and its reward is drawn and credited; the reward is
/// returned beside the outcome, zero when nothing died.
pub fn on_damage(save: &mut SaveData, enemies: &mut Vec<Enemy>, idx: usize) -> (r: (DamageOutcome, u32))
    requires
        old(save).wf(),
        old(save).level <= REWARD_DEPTH_LIMIT,
        idx < old(enemies)@.len(),
    ensures
        ({
            let e = old(enemies)@[idx as int];
            if e.typ == EnemyType::EndGame {
                &&& r == (DamageOutcome::GameWon, 0u32)
                &&& *final(save) == *old(save)
                &&& final(enemies)@ == old(enemies)@
            } else {
                let (s2, value) = spec_strike(after_pickup(*old(save), e.typ), e.elem);
                let dealt = clamp_damage(value, e.health);
                let killed = e.health - dealt == 0;
                &&& r.0 == DamageOutcome::Hit { dealt, killed }
                &&& killed ==> {
                    &&& final(enemies)@ == old(enemies)@.remove(idx as int)
                    &&& reward_ok(e.typ, old(save).level, r.1)
                    &&& *final(save) == spec_grant_kill(s2, e.typ, r.1)
                }
                &&& !killed ==> {
                    &&& final(enemies)@ == old(enemies)@.update(idx as int, Enemy { health: (e.health - dealt) as u32, ..e })
                    &&& r.1 == 0
                    &&& *final(save) == s2
                }
            }
        }),
{
    let mut e = enemies[idx];
    let outcome = resolve_hit(save, &mut e);
    match outcome {
        DamageOutcome::GameWon => (outcome, 0),
        DamageOutcome::Hit { dealt: _, killed } => {
            if killed {
                enemies.remove(idx);
                let reward = draw_reward(e.typ, save.level);
                grant_kill(save, e.typ, reward);
                (outcome, reward)
            } else {
                enemies[idx] = e;
                (outcome, 0)
            }
        },
    }
}

/// How long the enemies' turn lasts, in milliseconds.
pub const ENEMY_TURN_MS: u32 = 200;

/// The timer of the enemies' turn. Enemies only move once it has run for
/// 40% of its duration, so that their steps can be followed.
#[derive(Clone, Copy, Debug)]
pub struct EnemyTurn {
    pub elapsed_ms: u32,
    pub duration_ms: u32,
}

impl EnemyTurn {
    pub open spec fn wf(&self) -> bool {
        self.elapsed_ms <= self.duration_ms && self.duration_ms > 0
    }

    /// The timer of a new enemy turn.
    pub fn new() -> (r: EnemyTurn)
        ensures
            r.elapsed_ms == 0,
            r.duration_ms == ENEMY_TURN_MS,
            r.wf(),
    {
        EnemyTurn { elapsed_ms: 0, duration_ms: ENEMY_TURN_MS }
    }

    /// Advances the timer, saturating at its duration. Returns true on the
    /// one tick at which the timer runs out: the turn then goes back to the
    /// player.
    pub fn tick(&mut self, delta_ms: u32) -> (just_finished: bool)
        requires
            old(self).wf(),
        ensures
            final(self).wf(),
            final(self).duration_ms == old(self).duration_ms,
            final(self).elapsed_ms == (if old(self).elapsed_ms + delta_ms >= old(self).duration_ms {
                old(self).duration_ms as int
            } else {
                old(self).elapsed_ms + delta_ms
            }),
            just_finished == (old(self).elapsed_ms < old(self).duration_ms && final(self).elapsed_ms == final(self).duration_ms),
    {
        let was_running = self.elapsed_ms < self.duration_ms;
        if delta_ms >= self.duration_ms - self.elapsed_ms {
            self.elapsed_ms = self.duration_ms;
        } else {
            self.elapsed_ms = self.elapsed_ms + delta_ms;
        }
        was_running && self.elapsed_ms == self.duration_ms
    }

    /// Whether the enemies may move: 40% of the turn has passed.
    pub fn in_move_phase(&self) -> (r: bool)
        requires
            self.wf(),
        ensures
            r == (self.elapsed_ms * 10 >= self.duration_ms * 4),
    {
        self.elapsed_ms as u64 * 10 >= self.duration_ms as u64 * 4
    }
}

/// What one creature did on the enemies' turn.
#[derive(Clone, Copy, Debug, PartialEq, Eq, Structural)]
pub enum EnemyAction {
    /// It does not act: a pickup, the artifact, one still animating, or a
    /// step toward a tile that is not free ground.
    Skip,
    /// It stays, with an animation in place.
    Idle,
    /// It ran into the player: an attack that leaves it where it was.
    Bump(Direction),
    /// It moved from one tile to the next.
    Move { from: IVec2, to: IVec2 },
}

/// Plays one creature's step. Pickups, the artifact and creatures still
/// animating skip; a creature that chose to idle idles. Otherwise it steps
/// toward `dir` when the target is ground and its own tile is on the map: into
/// the player it only bumps; elsewhere it moves, the target becomes a marker
/// tile and the tile it left becomes ground.
pub fn enemy_step(tiles: &mut Tilemap, enemy: &mut Enemy, player: IVec2, animating: bool, idle: bool, dir: Direction) -> (r: EnemyAction)
    requires
        old(tiles).wf(),
        steppable(old(enemy).pos),
    ensures
        final(tiles).wf(),
        step_rel(*old(tiles), *old(enemy), *final(tiles), *final(enemy), player, animating, idle, dir, r),
{
    match enemy.typ {
        EnemyType::EndGame | EnemyType::Money | EnemyType::Battery => return EnemyAction::Skip,
        _ => {},
    }
    if animating {
        return EnemyAction::Skip;
    }
    if idle {
        return EnemyAction::Idle;
    }
    let from = enemy.pos;
    let to = step(from, dir);
    if !matches!(tiles.get_tile(to), Some(Tile::Ground)) {
        return EnemyAction::Skip;
    }
    if tiles.get_tile(from).is_none() {
        return EnemyAction::Skip;
    }
    if to == player {
        return EnemyAction::Bump(dir);
    }
    tiles.set_tile(to, Tile::Enemy);
    tiles.set_tile(from, Tile::Ground);
    enemy.pos = to;
    EnemyAction::Move { from, to }
}

/// How one creature's step relates the tiles `t0` and the creature `e0`
/// before it to the tiles `t1` and the creature `e1` after it, with action
/// `r`. Pickups, the artifact and creatures still animating skip; a creature
/// that chose to idle idles. Otherwise it steps toward `dir` when the target
/// is ground and its own tile is on the map: into the player it only bumps;
/// elsewhere it moves, the target becomes a marker tile and the tile it left
/// becomes ground. Every other tile stays as it was.
pub open spec fn step_rel(
    t0: Tilemap,
    e0: Enemy,
    t1: Tilemap,
    e1: Enemy,
    player: IVec2,
    animating: bool,
    idle: bool,
    dir: Direction,
    r: EnemyAction,
) -> bool {
    let to = spec_step(e0.pos, dir);
    if is_pickup(e0.typ) || e0.typ == EnemyType::EndGame || animating {
        r == EnemyAction::Skip && t1 == t0 && e1 == e0
    } else if idle {
        r == EnemyAction::Idle && t1 == t0 && e1 == e0
    } else if t0.spec_get(to) != Some(Tile::Ground) || t0.spec_get(e0.pos) is None {
        r == EnemyAction::Skip && t1 == t0 && e1 == e0
    } else if to == player {
        r == EnemyAction::Bump(dir) && t1 == t0 && e1 == e0
    } else {
        &&& r == (EnemyAction::Move { from: e0.pos, to })
        &&& e1 == (Enemy { pos: to, ..e0 })
        &&& t1.spec_get(to) == Some(Tile::Enemy)
        &&& t1.spec_get(e0.pos) == Some(Tile::Ground)
        &&& forall|q: IVec2| q != to && q != e0.pos ==> #[trigger] t1.spec_get(q) == t0.spec_get(q)
    }
}

/// A whole movement pass: the creatures step one after the other, creature
/// `j` with `animating[j]`, `idles[j]` and `dirs[j]`, each on the tiles that
/// the previous steps left.
pub open spec fn pass_rel(
    t0: Tilemap,
    es0: Seq<Enemy>,
    t1: Tilemap,
    es1: Seq<Enemy>,
    player: IVec2,
    animating: Seq<bool>,
    idles: Seq<bool>,
    dirs: Seq<Direction>,
    r: Seq<EnemyAction>,
) -> bool {
    let n = es0.len();
    &&& es1.len() == n && r.len() == n
    &&& exists|ts: Seq<Tilemap>| {
        &&& ts.len() == n + 1
        &&& ts[0] == t0
        &&& ts[n as int] == t1
        &&& forall|j: int| 0 <= j < n ==> #[trigger] step_rel(ts[j], es0[j], ts[j + 1], es1[j], player, animating[j], idles[j], dirs[j], r[j])
    }
}

/// A movement pass under some choice of idling and directions.
pub open spec fn some_pass(
    t0: Tilemap,
    es0: Seq<Enemy>,
    t1: Tilemap,
    es1: Seq<Enemy>,
    player: IVec2,
    animating: Seq<bool>,
    r: Seq<EnemyAction>,
) -> bool {
    exists|idles: Seq<bool>, dirs: Seq<Direction>|
        idles.len() == es0.len() && dirs.len() == es0.len()
        && #[trigger] pass_rel(t0, es0, t1, es1, player, animating, idles, dirs, r)
}

/// The creatures stand on distinct marker tiles, none on the player's tile.
pub open spec fn placement_ok(tiles: Tilemap, es: Seq<Enemy>, player: IVec2) -> bool {
    &&& forall|i: int, j: int| 0 <= i < j < es.len() ==> es[i].pos != es[j].pos
    &&& forall|i: int| 0 <= i < es.len() ==> (#[trigger] es[i]).pos != player
    &&& forall|i: int| 0 <= i < es.len() ==> tiles.spec_get((#[trigger] es[i]).pos) == Some(Tile::Enemy)
}

/// Plays a movement pass with given choices: creature `j` idles when
/// `idles[j]` and otherwise steps toward `dirs[j]`. A pass keeps creatures on
/// distinct marker tiles away from the player.
pub fn update_enemies_with(
    tiles: &mut Tilemap,
    enemies: &mut Vec<Enemy>,
    player: IVec2,
    animating: &Vec<bool>,
    idles: &Vec<bool>,
    dirs: &Vec<Direction>,
) -> (r: Vec<EnemyAction>)
    requires
        old(tiles).wf(),
        animating@.len() == old(enemies)@.len(),
        idles@.len() == old(enemies)@.len(),
        dirs@.len() == old(enemies)@.len(),
        forall|j: int| 0 <= j < old(enemies)@.len() ==> steppable(#[trigger] old(enemies)@[j].pos),
    ensures
        final(tiles).wf(),
        pass_rel(*old(tiles), old(enemies)@, *final(tiles), final(enemies)@, player, animating@, idles@, dirs@, r@),
        placement_ok(*old(tiles), old(enemies)@, player) ==> placement_ok(*final(tiles), final(enemies)@, player),
{
    let ghost orig = enemies@;
    let ghost t0 = *tiles;
    let ghost mut ts: Seq<Tilemap> = seq![*tiles];
    let mut out: Vec<EnemyAction> = Vec::new();
    let mut j: usize = 0;
    while j < enemies.len()
        invariant
            tiles.wf(),
            enemies@.len() == orig.len(),
            animating@.len() == orig.len(),
            idles@.len() == orig.len(),
            dirs@.len() == orig.len(),
            out@.len() == j,
            j <= orig.len(),
            ts.len() == j + 1,
            ts[0] == t0,
            ts[j as int] == *tiles,
            forall|k: int| j <= k < orig.len() ==> enemies@[k] == orig[k],
            forall|k: int| 0 <= k < orig.len() ==> steppable(#[trigger] orig[k].pos),
            forall|k: int| 0 <= k < j ==> #[trigger] step_rel(ts[k], orig[k], ts[k + 1], enemies@[k], player, animating@[k], idles@[k], dirs@[k], out@[k]),
            placement_ok(t0, orig, player) ==> placement_ok(*tiles, enemies@, player),
        decreases orig.len() - j,
    {
        let mut e = enemies[j];
        proof {
            assert(steppable(orig[j as int].pos));
        }
        let ghost before = *tiles;
        let ghost es_before = enemies@;
        let action = enemy_step(tiles, &mut e, player, animating[j], idles[j], dirs[j]);
        enemies[j] = e;
        out.push(action);
        proof {
            ts = ts.push(*tiles);
            assert(step_rel(ts[j as int], orig[j as int], ts[j + 1], enemies@[j as int], player, animating@[j as int], idles@[j as int], dirs@[j as int], out@[j as int]));
            assert forall|k: int| 0 <= k < j + 1 implies #[trigger] step_rel(ts[k], orig[k], ts[k + 1], enemies@[k], player, animating@[k], idles@[k], dirs@[k], out@[k]) by {
                if k < j {
                    assert(enemies@[k] == es_before[k]);
                }
            }
            if placement_ok(t0, orig, player) {
                lemma_step_keeps_placement(before, es_before, *tiles, enemies@, player, j as int, animating@[j as int], idles@[j as int], dirs@[j as int], action);
            }
        }
        j = j + 1;
    }
    proof {
        assert(pass_rel(t0, orig, *tiles, enemies@, player, animating@, idles@, dirs@, out@)) by {
            assert(ts[orig.len() as int] == *tiles);
        }
    }
    out
}

proof fn lemma_step_keeps_placement(
    t0: Tilemap,
    es0: Seq<Enemy>,
    t1: Tilemap,
    es1: Seq<Enemy>,
    player: IVec2,
    j: int,
    animating: bool,
    idle: bool,
    dir: Direction,
    r: EnemyAction,
)
    requires
        0 <= j < es0.len(),
        es1 == es0.update(j, es1[j]),
        step_rel(t0, es0[j], t1, es1[j], player, animating, idle, dir, r),
        placement_ok(t0, es0, player),
    ensures
        placement_ok(t1, es1, player),
{
    let e0 = es0[j];
    let to = spec_step(e0.pos, dir);
    if r is Move {
        assert(t0.spec_get(to) == Some(Tile::Ground));
        assert forall|i: int| 0 <= i < es1.len() && i != j implies es1[i].pos != to && es1[i].pos != e0.pos by {
            assert(es1[i] == es0[i]);
            assert(t0.spec_get(es0[i].pos) == Some(Tile::Enemy));
        }
        assert forall|i: int| 0 <= i < es1.len() implies t1.spec_get((#[trigger] es1[i]).pos) == Some(Tile::Enemy) by {
            if i != j {
                assert(es1[i] == es0[i]);
                assert(t0.spec_get(es0[i].pos) == Some(Tile::Enemy));
            }
        }
        assert forall|i: int, k: int| 0 <= i < k < es1.len() implies es1[i].pos != es1[k].pos by {
            if i != j && k != j {
                assert(es1[i] == es0[i] && es1[k] == es0[k]);
            }
        }
    } else {
        assert(es1 =~= es0);
    }
}

/// The enemies' movement pass: every creature draws, with a 30% chance,
/// whether it idles, and a direction, and takes its step. `animating[j]`
/// tells whether creature `j` is still in an animation. The actions come back
/// in the creatures' order.
pub fn update_enemies(tiles: &mut Tilemap, enemies: &mut Vec<Enemy>, player: IVec2, animating: &Vec<bool>) -> (r: Vec<EnemyAction>)
    requires
        old(tiles).wf(),
        animating@.len() == old(enemies)@.len(),
        forall|j: int| 0 <= j < old(enemies)@.len() ==> steppable(#[trigger] old(enemies)@[j].pos),
    ensures
        final(tiles).wf(),
        some_pass(*old(tiles), old(enemies)@, *final(tiles), final(enemies)@, player, animating@, r@),
        placement_ok(*old(tiles), old(enemies)@, player) ==> placement_ok(*final(tiles), final(enemies)@, player),
{
    let n = enemies.len();
    let mut idles: Vec<bool> = Vec::new();
    let mut dirs: Vec<Direction> = Vec::new();
    let mut j: usize = 0;
    while j < n
        invariant
            idles@.len() == j,
            dirs@.len() == j,
            j <= n,
        decreases n - j,
    {
        idles.push(random_range(0, 10) < 3);
        dirs.push(direction_from_index(random_range(0, 4)));
        j = j + 1;
    }
    let r = update_enemies_with(tiles, enemies, player, animating, &idles, &dirs);
    proof {
        assert(pass_rel(*old(tiles), old(enemies)@, *tiles, enemies@, player, animating@, idles@, dirs@, r@));
    }
    r
}

/// One tick of the enemies' turn: the timer advances, and once 40% of the
/// turn has passed the creatures take a movement pass; before that nothing
/// moves and no action is returned. The flag tells whether the timer ran out
/// on this tick, which hands the turn back to the player.
pub fn enemy_turn_tick(
    timer: &mut EnemyTurn,
    delta_ms: u32,
    tiles: &mut Tilemap,
    enemies: &mut Vec<Enemy>,
    player: IVec2,
    animating: &Vec<bool>,
) -> (r: (bool, Vec<EnemyAction>))
    requires
        old(timer).wf(),
        old(tiles).wf(),
        animating@.len() == old(enemies)@.len(),
        forall|j: int| 0 <= j < old(enemies)@.len() ==> steppable(#[trigger] old(enemies)@[j].pos),
    ensures
        final(timer).wf(),
        final(timer).duration_ms == old(timer).duration_ms,
        final(timer).elapsed_ms == (if old(timer).elapsed_ms + delta_ms >= old(timer).duration_ms {
            old(timer).duration_ms as int
        } else {
            old(timer).elapsed_ms + delta_ms
        }),
        r.0 == (old(timer).elapsed_ms < old(timer).duration_ms && final(timer).elapsed_ms == final(timer).duration_ms),
        final(tiles).wf(),
        !(final(timer).elapsed_ms * 10 >= final(timer).duration_ms * 4) ==> {
            &&& r.1@.len() == 0
            &&& *final(tiles) == *old(tiles)
            &&& final(enemies)@ == old(enemies)@
        },
        final(timer).elapsed_ms * 10 >= final(timer).duration_ms * 4 ==> some_pass(*old(tiles), old(enemies)@, *final(tiles), final(enemies)@, player, animating@, r.1@),
        placement_ok(*old(tiles), old(enemies)@, player) ==> placement_ok(*final(tiles), final(enemies)@, player),
{
    let finished = timer.tick(delta_ms);
    if !timer.in_move_phase() {
        return (finished, Vec::new());
    }
    let actions = update_enemies(tiles, enemies, player, animating);
    (finished, actions)
}

} // verus!
