use vstd::prelude::*;
use crate::score::{best_points, Score, ScoreBoard, Timestamp, NANOS_PER_SEC};

verus! {

/// The screen the game shows.
#[derive(Debug, Clone, Copy, PartialEq, Eq, Structural)]
pub enum Mode {
    MainMenu,
    Playing,
    Paused,
    GameOver,
    Input,
}

/// What the frame loop has to carry out after a screen has decided.
#[derive(Debug, Clone, Copy, PartialEq, Eq, Structural)]
pub enum Command {
    /// Nothing beyond drawing the screen.
    Stay,
    /// End the program.
    Quit,
    /// Clear the enemies, lasers and explosions and put the ship back at
    /// its starting place: a new round begins.
    StartRound,
    /// Write the score board to its file.
    SaveScores,
}

/// Sum of a sequence of point awards.
pub open spec fn total(s: Seq<u32>) -> nat
    decreases s.len(),
{
    if s.len() == 0 {
        0
    } else {
        total(s.drop_last()) + s.last() as nat
    }
}

/// Decides the main menu. `quit` is Escape pressed or Q held, `start` is
/// Space pressed.
pub fn main_menu(mode: &mut Mode, score: &mut u32, quit: bool, start: bool) -> (c: Command)
    ensures
        quit ==> c == Command::Quit && *final(mode) == *old(mode) && *final(score) == *old(score),
        !quit && start ==> c == Command::StartRound && *final(mode) == Mode::Playing
            && *final(score) == 0,
        !quit && !start ==> c == Command::Stay && *final(mode) == *old(mode) && *final(score)
            == *old(score),
{
    if quit {
        return Command::Quit;
    }
    if start {
        *score = 0;
        *mode = Mode::Playing;
        return Command::StartRound;
    }
    Command::Stay
}

/// Decides the pause screen. `resume` is Space pressed, `quit` is Q
/// pressed.
pub fn paused(mode: &mut Mode, resume: bool, quit: bool) -> (c: Command)
    ensures
        c == (if quit { Command::Quit } else { Command::Stay }),
        *final(mode) == (if resume { Mode::Playing } else { *old(mode) }),
{
    if resume {
        *mode = Mode::Playing;
    }
    if quit {
        return Command::Quit;
    }
    Command::Stay
}

/// Decides the game-over screen. `back` is Space or N pressed, `quit` is Q
/// pressed. A score above the points of the board's best entry leads to
/// the name input.
pub fn game_over(mode: &mut Mode, score: u32, score_board: &ScoreBoard, back: bool, quit: bool) -> (c: Command)
    ensures
        c == (if quit { Command::Quit } else { Command::Stay }),
        quit ==> *final(mode) == (if back { Mode::MainMenu } else { *old(mode) }),
        !quit ==> *final(mode) == (if score > best_points(score_board@) {
            Mode::Input
        } else if back {
            Mode::MainMenu
        } else {
            *old(mode)
        }),
{
    if back {
        *mode = Mode::MainMenu;
    }
    if quit {
        return Command::Quit;
    }
    let best = score_board.best();
    if score > best.points {
        *mode = Mode::Input;
    }
    Command::Stay
}

/// Decides the name input. With `save` (the Save button clicked) the score
/// is put on the board under `name`, stamped with the current time, the
/// board is to be written out and the main menu follows.
pub fn input(mode: &mut Mode, score: u32, score_board: &mut ScoreBoard, name: &String, save: bool) -> (c: Command)
    ensures
        save ==> c == Command::SaveScores && *final(mode) == Mode::MainMenu
            && final(score_board)@.len() == old(score_board)@.len() + 1
            && final(score_board)@.drop_last() == old(score_board)@
            && final(score_board)@.last().name == name@
            && final(score_board)@.last().points == score
            && final(score_board)@.last().timestamp.nanos < NANOS_PER_SEC,
        !save ==> c == Command::Stay && *final(mode) == *old(mode) && final(score_board)@
            == old(score_board)@,
{
    if save {
        let entry = Score { name: name.clone(), points: score, timestamp: Timestamp::now() };
        score_board.record(entry);
        *mode = Mode::MainMenu;
        proof {
            assert(final(score_board)@.drop_last() =~= old(score_board)@);
        }
        return Command::SaveScores;
    }
    Command::Stay
}

/// Decides the score and the screen after one frame of play. `new_game` is
/// N held (the score starts over), `pause` is Escape pressed, `player_hit`
/// is whether an enemy touches the ship, and `kills` holds the points of
/// each laser hit on an enemy this frame, in the order they were found.
pub fn playing(mode: &mut Mode, score: &mut u32, new_game: bool, pause: bool, player_hit: bool, kills: &Vec<u32>)
    requires
        (if new_game { 0 } else { *old(score) as nat }) + total(kills@) <= u32::MAX,
    ensures
        *final(score) == (if new_game { 0 } else { *old(score) as nat }) + total(kills@),
        *final(mode) == (if player_hit {
            Mode::GameOver
        } else if pause {
            Mode::Paused
        } else {
            *old(mode)
        }),
{
    if new_game {
        *score = 0;
    }
    if pause {
        *mode = Mode::Paused;
    }
    if player_hit {
        *mode = Mode::GameOver;
    }
    let ghost start = *score as nat;
    let mut i: usize = 0;
    while i < kills.len()
        invariant
            i <= kills@.len(),
            start + total(kills@) <= u32::MAX,
            *score == start + total(kills@.take(i as int)),
        decreases kills@.len() - i,
    {
        proof {
            assert(kills@.take(i as int + 1).drop_last() =~= kills@.take(i as int));
            lemma_total_prefix_bound(kills@, i as int + 1);
        }
        *score = *score + kills[i];
        i = i + 1;
    }
    proof {
        assert(kills@.take(kills@.len() as int) =~= kills@);
    }
}

/// A prefix adds up to no more than the whole.
proof fn lemma_total_prefix_bound(s: Seq<u32>, n: int)
    requires
        0 <= n <= s.len(),
    ensures
        total(s.take(n)) <= total(s),
    decreases s.len(),
{
    if n < s.len() {
        assert(s.drop_last().take(n) =~= s.take(n));
        lemma_total_prefix_bound(s.drop_last(), n);
    } else {
        assert(s.take(n) =~= s);
    }
}

/// Whether a spawn roll brings a new enemy: rolls of 95 and up do.
pub fn enemy_spawns(roll: i32) -> (r: bool)
    ensures
        r == (roll >= 95),
{
    roll >= 95
}

/// `macroquad::rand::gen_range` on `i32`: a pseudo-random integer in
/// `[low, high)`. The bound of one million keeps the floating-point steps of
/// the generator exact, so the result lies in the range. Which value comes
/// is left unsaid: it depends on the generator's hidden state.
#[verifier::external_body]
fn random_in_range(low: i32, high: i32) -> (r: i32)
    requires
        0 <= low < high <= 1_000_000,
    ensures
        low <= r < high,
{
    macroquad::rand::gen_range(low, high)
}

/// The spawn roll of one frame: a pseudo-random integer in `[0, 99)`.
pub fn spawn_roll() -> (r: i32)
    ensures
        0 <= r < 99,
{
    random_in_range(0, 99)
}

/// Rolls in `[0, 99)` whether a new enemy appears this frame.
pub fn roll_enemy_spawn() -> (r: bool) {
    enemy_spawns(spawn_roll())
}

/// What the laser hits of one frame come to.
pub struct Hits {
    /// The enemy of each hit, in the order the hits are found: enemy by
    /// enemy, and for each enemy its lasers in order. An enemy struck by
    /// several lasers appears once for each of them.
    pub kills: Vec<usize>,
    /// For each enemy, whether some laser struck it.
    pub enemy_hit: Vec<bool>,
    /// For each laser, whether it struck some enemy.
    pub laser_hit: Vec<bool>,
}

/// The hits of enemy `e`, given its row of the hit table: `e` once for each
/// laser that strikes it.
pub open spec fn row_kills(e: usize, row: Seq<bool>) -> Seq<usize>
    decreases row.len(),
{
    if row.len() == 0 {
        Seq::empty()
    } else {
        row_kills(e, row.drop_last()) + (if row.last() { seq![e] } else { Seq::empty() })
    }
}

/// All hits of a hit table, enemy by enemy.
pub open spec fn all_kills(table: Seq<Seq<bool>>) -> Seq<usize>
    decreases table.len(),
{
    if table.len() == 0 {
        Seq::empty()
    } else {
        all_kills(table.drop_last()) + row_kills((table.len() - 1) as usize, table.last())
    }
}

/// The hit table as mathematical values: row `e`, column `l` says whether
/// laser `l` touches enemy `e`.
pub open spec fn table_view(hits: &Vec<Vec<bool>>) -> Seq<Seq<bool>> {
    hits@.map_values(|row: Vec<bool>| row@)
}

/// Resolves the laser hits of a frame from the table of which laser touches
/// which enemy (`hits[e][l]`, for `lasers` lasers): each touching pair is a
/// hit, and both the enemy and the laser are struck.
pub fn resolve_hits(hits: &Vec<Vec<bool>>, lasers: usize) -> (r: Hits)
    requires
        forall|e: int| 0 <= e < hits@.len() ==> (#[trigger] hits@[e])@.len() == lasers,
    ensures
        r.kills@ == all_kills(table_view(hits)),
        r.enemy_hit@.len() == hits@.len(),
        forall|e: int|
            0 <= e < hits@.len() ==> #[trigger] r.enemy_hit@[e] == exists|l: int|
                0 <= l < lasers && table_view(hits)[e][l],
        r.laser_hit@.len() == lasers,
        forall|l: int|
            0 <= l < lasers ==> #[trigger] r.laser_hit@[l] == exists|e: int|
                0 <= e < hits@.len() && table_view(hits)[e][l],
{
    let ghost t = table_view(hits);
    let mut kills: Vec<usize> = Vec::new();
    let mut enemy_hit: Vec<bool> = Vec::new();
    let mut laser_hit: Vec<bool> = Vec::new();
    let mut l: usize = 0;
    while l < lasers
        invariant
            l <= lasers,
            laser_hit@.len() == l,
            forall|k: int| 0 <= k < l ==> !(#[trigger] laser_hit@[k]),
        decreases lasers - l,
    {
        laser_hit.push(false);
        l = l + 1;
    }
    let n = hits.len();
    let mut e: usize = 0;
    assert(t.take(0) =~= Seq::<Seq<bool>>::empty());
    while e < n
        invariant
            n == hits@.len(),
            t == table_view(hits),
            t.len() == n,
            forall|i: int| 0 <= i < n ==> (#[trigger] hits@[i])@.len() == lasers,
            e <= n,
            kills@ == all_kills(t.take(e as int)),
            enemy_hit@.len() == e,
            forall|i: int|
                0 <= i < e ==> #[trigger] enemy_hit@[i] == exists|j: int|
                    0 <= j < lasers && t[i][j],
            laser_hit@.len() == lasers,
            forall|k: int|
                0 <= k < lasers ==> #[trigger] laser_hit@[k] == exists|i: int|
                    0 <= i < e && t[i][k],
        decreases n - e,
    {
        let row = &hits[e];
        assert(t[e as int] == row@);
        let ghost before = kills@;
        let ghost lasers_before = laser_hit@;
        let mut any = false;
        let mut j: usize = 0;
        assert(row@.take(0) =~= Seq::<bool>::empty());
        while j < lasers
            invariant
                row@.len() == lasers,
                t[e as int] == row@,
                j <= lasers,
                kills@ == before + row_kills(e, row@.take(j as int)),
                any == exists|m: int| 0 <= m < j && row@[m],
                laser_hit@.len() == lasers,
                forall|k: int|
                    0 <= k < lasers ==> #[trigger] laser_hit@[k] == (lasers_before[k] || (k < j
                        && row@[k])),
            decreases lasers - j,
        {
            assert(row@.take(j as int + 1).drop_last() =~= row@.take(j as int));
            if row[j] {
                kills.push(e);
                any = true;
                laser_hit.set(j, true);
            }
            j = j + 1;
        }
        assert(row@.take(lasers as int) =~= row@);
        enemy_hit.push(any);
        proof {
            assert(t.take(e as int + 1).drop_last() =~= t.take(e as int));
            assert(t.take(e as int + 1).last() == row@);
            assert forall|k: int| 0 <= k < lasers implies #[trigger] laser_hit@[k] == exists|i: int|
                0 <= i < e + 1 && t[i][k] by {
                if laser_hit@[k] && !lasers_before[k] {
                    assert(t[e as int][k]);
                }
                if exists|i: int| 0 <= i < e + 1 && t[i][k] {
                    let i = choose|i: int| 0 <= i < e + 1 && t[i][k];
                    if i < e {
                        assert(lasers_before[k]);
                    }
                }
            }
        }
        e = e + 1;
    }
    assert(t.take(n as int) =~= t);
    Hits { kills, enemy_hit, laser_hit }
}


/// The points each hit scores: the points of the enemy it struck.
pub open spec fn kill_points(kills: Seq<usize>, enemy_points: Seq<u32>) -> Seq<u32> {
    kills.map_values(|e: usize| enemy_points[e as int])
}

/// Every hit of enemy `e`'s row names `e`.
proof fn lemma_row_kills_name_row(e: usize, row: Seq<bool>)
    ensures
        forall|i: int| 0 <= i < row_kills(e, row).len() ==> #[trigger] row_kills(e, row)[i] == e,
    decreases row.len(),
{
    if row.len() > 0 {
        lemma_row_kills_name_row(e, row.drop_last());
        let a = row_kills(e, row.drop_last());
        let b: Seq<usize> = if row.last() { seq![e] } else { Seq::empty() };
        assert forall|i: int| 0 <= i < row_kills(e, row).len() implies #[trigger] row_kills(
            e,
            row,
        )[i] == e by {
            if i < a.len() {
                assert(row_kills(e, row)[i] == a[i]);
            } else {
                assert(row_kills(e, row)[i] == b[i - a.len()]);
            }
        }
    }
}

/// Every hit of a table names one of its enemies.
proof fn lemma_all_kills_in_table(table: Seq<Seq<bool>>)
    ensures
        forall|i: int|
            0 <= i < all_kills(table).len() ==> (#[trigger] all_kills(table)[i] as int) < table.len(),
    decreases table.len(),
{
    if table.len() > 0 {
        let p = table.drop_last();
        let e = (table.len() - 1) as usize;
        lemma_all_kills_in_table(p);
        lemma_row_kills_name_row(e, table.last());
        let a = all_kills(p);
        let b = row_kills(e, table.last());
        assert forall|i: int| 0 <= i < all_kills(table).len() implies (#[trigger] all_kills(
            table,
        )[i] as int) < table.len() by {
            if i < a.len() {
                assert(all_kills(table)[i] == a[i]);
            } else {
                assert(all_kills(table)[i] == b[i - a.len()]);
            }
        }
    }
}

/// One frame of play from the table of which laser touches which enemy
/// (`hits[e][l]`, for `lasers` lasers) and the points each enemy is worth:
/// every touching pair scores its enemy's points, every laser and enemy in
/// such a pair is struck, and the score and screen change as `playing`
/// decides.
pub fn play_frame(
    mode: &mut Mode,
    score: &mut u32,
    new_game: bool,
    pause: bool,
    player_hit: bool,
    hits: &Vec<Vec<bool>>,
    lasers: usize,
    enemy_points: &Vec<u32>,
) -> (r: Hits)
    requires
        enemy_points@.len() == hits@.len(),
        forall|e: int| 0 <= e < hits@.len() ==> (#[trigger] hits@[e])@.len() == lasers,
        (if new_game { 0 } else { *old(score) as nat }) + total(
            kill_points(all_kills(table_view(hits)), enemy_points@),
        ) <= u32::MAX,
    ensures
        r.kills@ == all_kills(table_view(hits)),
        r.enemy_hit@.len() == hits@.len(),
        forall|e: int|
            0 <= e < hits@.len() ==> #[trigger] r.enemy_hit@[e] == exists|l: int|
                0 <= l < lasers && table_view(hits)[e][l],
        r.laser_hit@.len() == lasers,
        forall|l: int|
            0 <= l < lasers ==> #[trigger] r.laser_hit@[l] == exists|e: int|
                0 <= e < hits@.len() && table_view(hits)[e][l],
        *final(score) == (if new_game { 0 } else { *old(score) as nat }) + total(
            kill_points(all_kills(table_view(hits)), enemy_points@),
        ),
        *final(mode) == (if player_hit {
            Mode::GameOver
        } else if pause {
            Mode::Paused
        } else {
            *old(mode)
        }),
{
    let r = resolve_hits(hits, lasers);
    proof {
        lemma_all_kills_in_table(table_view(hits));
    }
    let mut points: Vec<u32> = Vec::new();
    let mut i: usize = 0;
    while i < r.kills.len()
        invariant
            r.kills@ == all_kills(table_view(hits)),
            enemy_points@.len() == hits@.len(),
            table_view(hits).len() == hits@.len(),
            forall|k: int|
                0 <= k < r.kills@.len() ==> (#[trigger] r.kills@[k] as int) < hits@.len(),
            i <= r.kills@.len(),
            points@ == kill_points(r.kills@, enemy_points@).take(i as int),
        decreases r.kills@.len() - i,
    {
        let e = r.kills[i];
        assert(r.kills@[i as int] == e);
        points.push(enemy_points[e]);
        i = i + 1;
        assert(points@ =~= kill_points(r.kills@, enemy_points@).take(i as int));
    }
    assert(points@ =~= kill_points(r.kills@, enemy_points@));
    playing(mode, score, new_game, pause, player_hit, &points);
    r
}

} // verus!
