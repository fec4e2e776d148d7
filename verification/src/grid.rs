//! The grid game of the line-based text protocol: a board of cells with
//! obstacles and a flag, players stepping one cell per tick, and the
//! messages that client and server exchange, one JSON object per line.
//!
//! The objects are turned into JSON text and back by the caller; this
//! module builds and reads the values, frames the lines, and decides what
//! each side does with them.
use vstd::prelude::*;
use vstd::utf8::{decode_utf8, valid_utf8};
use vstd::arithmetic::div_mod::lemma_fundamental_div_mod;
use vstd::set_lib::{lemma_int_range, lemma_len_subset, set_int_range};
use vstd::seq_lib::seq_to_set_is_finite;
use crate::text::{decimal, decimal_string_u64, push_line, texts};

verus! {

/// State of a grid game session.
#[derive(Debug, Clone, Copy, PartialEq, Eq, Structural)]
pub enum GameState {
    Waiting,
    Starting,
    Running,
    Finished,
    Cancelled,
}

/// A blocked cell.
#[derive(Debug, Clone, Copy, PartialEq, Eq, Structural)]
pub struct Obstacle {
    pub row: i32,
    pub column: i32,
}

/// The flag: its cell, its status text and who carries it.
#[derive(Debug, Clone)]
pub struct Flag {
    pub row: i32,
    pub column: i32,
    pub status: String,
    pub carrier_id: Option<String>,
}

/// A player on the grid. A player starts outside the board and walks in.
#[derive(Debug, Clone)]
pub struct PlayerState {
    pub player_id: String,
    pub name: String,
    pub row: i32,
    pub column: i32,
    pub direction: String,
    pub inside_board: bool,
    pub has_flag: bool,
    pub protected: bool,
}

impl Flag {
    /// A copy of the flag.
    pub fn duplicate(&self) -> (r: Self)
        ensures
            r == *self,
    {
        let carrier_id = match &self.carrier_id {
            Some(c) => Some(c.clone()),
            None => None,
        };
        Flag { row: self.row, column: self.column, status: self.status.clone(), carrier_id }
    }
}

impl PlayerState {
    /// A copy of the player.
    pub fn duplicate(&self) -> (r: Self)
        ensures
            r == *self,
    {
        PlayerState {
            player_id: self.player_id.clone(),
            name: self.name.clone(),
            row: self.row,
            column: self.column,
            direction: self.direction.clone(),
            inside_board: self.inside_board,
            has_flag: self.has_flag,
            protected: self.protected,
        }
    }
}

fn copy_obstacles(v: &Vec<Obstacle>) -> (r: Vec<Obstacle>)
    ensures
        r@ == v@,
{
    let mut r: Vec<Obstacle> = Vec::new();
    let mut i: usize = 0;
    while i < v.len()
        invariant
            i <= v@.len(),
            r@ == v@.take(i as int),
        decreases v@.len() - i,
    {
        r.push(v[i]);
        proof { assert(v@.take(i + 1) =~= v@.take(i as int).push(v@[i as int])); }
        i = i + 1;
    }
    proof { assert(v@.take(v@.len() as int) =~= v@); }
    r
}

fn copy_players(v: &Vec<PlayerState>) -> (r: Vec<PlayerState>)
    ensures
        r@ == v@,
{
    let mut r: Vec<PlayerState> = Vec::new();
    let mut i: usize = 0;
    while i < v.len()
        invariant
            i <= v@.len(),
            r@ == v@.take(i as int),
        decreases v@.len() - i,
    {
        r.push(v[i].duplicate());
        proof { assert(v@.take(i + 1) =~= v@.take(i as int).push(v@[i as int])); }
        i = i + 1;
    }
    proof { assert(v@.take(v@.len() as int) =~= v@); }
    r
}

/// The board of a grid game.
#[derive(Debug, Clone)]
pub struct Board {
    pub rows: i32,
    pub columns: i32,
    pub obstacles: Vec<Obstacle>,
    pub flag: Flag,
    pub players: Vec<PlayerState>,
}

// ---------------------------------------------------------------------------
// Movement
// ---------------------------------------------------------------------------

/// Step of a direction as (rows, columns): `UP`, `DOWN`, `LEFT` and `RIGHT`
/// move one cell; any other text stands still.
pub open spec fn step_of(direction: Seq<char>) -> (int, int) {
    if direction == "UP"@ {
        (-1, 0)
    } else if direction == "DOWN"@ {
        (1, 0)
    } else if direction == "LEFT"@ {
        (0, -1)
    } else if direction == "RIGHT"@ {
        (0, 1)
    } else {
        (0, 0)
    }
}

/// The cell a player aims at.
pub open spec fn target_row(p: PlayerState) -> int {
    p.row + step_of(p.direction@).0
}

pub open spec fn target_column(p: PlayerState) -> int {
    p.column + step_of(p.direction@).1
}

/// Whether a player's target cell has coordinates that an `i32` holds.
pub open spec fn target_fits(p: PlayerState) -> bool {
    &&& i32::MIN <= target_row(p) <= i32::MAX
    &&& i32::MIN <= target_column(p) <= i32::MAX
}

pub open spec fn on_board(rows: int, columns: int, row: int, column: int) -> bool {
    0 <= row < rows && 0 <= column < columns
}

/// Whether an obstacle stands on a cell.
pub open spec fn blocked(obstacles: Seq<Obstacle>, row: int, column: int) -> bool {
    exists|i: int| 0 <= i < obstacles.len() && obstacles[i].row == row && obstacles[i].column == column
}

/// A player after one tick. A player inside the board moves to its target
/// only when the target is on the board and free; a player still outside
/// always moves, and is inside from the moment its target is on the board.
pub open spec fn moved(p: PlayerState, rows: int, columns: int, obstacles: Seq<Obstacle>) -> PlayerState {
    let r = target_row(p);
    let c = target_column(p);
    let within = on_board(rows, columns, r, c);
    if (!blocked(obstacles, r, c) && within) || !p.inside_board {
        PlayerState { row: r as i32, column: c as i32, inside_board: p.inside_board || within, ..p }
    } else {
        p
    }
}

/// A player inside the board on a free cell is, one tick later, still
/// inside the board on a free cell; a player who walks onto the board is
/// counted inside from then on.
pub proof fn lemma_inside_players_stay_on_free_cells(p: PlayerState, rows: int, columns: int, obstacles: Seq<Obstacle>)
    requires
        target_fits(p),
    ensures
        p.inside_board && on_board(rows, columns, p.row as int, p.column as int) && !blocked(obstacles, p.row as int, p.column as int)
            ==> {
            let q = moved(p, rows, columns, obstacles);
            &&& q.inside_board
            &&& on_board(rows, columns, q.row as int, q.column as int)
            &&& !blocked(obstacles, q.row as int, q.column as int)
        },
        on_board(rows, columns, moved(p, rows, columns, obstacles).row as int, moved(p, rows, columns, obstacles).column as int)
            && !p.inside_board ==> moved(p, rows, columns, obstacles).inside_board,
{
}

/// Whether an obstacle of the list stands on the cell.
pub fn hits_obstacle(obstacles: &Vec<Obstacle>, row: i32, column: i32) -> (b: bool)
    ensures
        b == blocked(obstacles@, row as int, column as int),
{
    let mut i: usize = 0;
    while i < obstacles.len()
        invariant
            i <= obstacles@.len(),
            forall|j: int| 0 <= j < i ==> !(obstacles@[j].row == row && obstacles@[j].column == column),
        decreases obstacles@.len() - i,
    {
        if obstacles[i].row == row && obstacles[i].column == column {
            return true;
        }
        i = i + 1;
    }
    false
}

/// The step of a direction text.
fn direction_step(direction: &String) -> (r: (i32, i32))
    ensures
        r.0 as int == step_of(direction@).0,
        r.1 as int == step_of(direction@).1,
{
    if *direction == "UP".to_owned() {
        (-1, 0)
    } else if *direction == "DOWN".to_owned() {
        (1, 0)
    } else if *direction == "LEFT".to_owned() {
        (0, -1)
    } else if *direction == "RIGHT".to_owned() {
        (0, 1)
    } else {
        (0, 0)
    }
}

/// Moves every player by one tick, in order: see [`moved`]. Players do not
/// block each other.
pub fn calculate_movements_and_collisions(board: &mut Board)
    requires
        forall|i: int| 0 <= i < old(board).players@.len() ==> target_fits(#[trigger] old(board).players@[i]),
    ensures
        final(board).rows == old(board).rows,
        final(board).columns == old(board).columns,
        final(board).obstacles@ == old(board).obstacles@,
        final(board).flag == old(board).flag,
        final(board).players@.len() == old(board).players@.len(),
        forall|i: int| 0 <= i < old(board).players@.len() ==>
            #[trigger] final(board).players@[i] == moved(old(board).players@[i], old(board).rows as int, old(board).columns as int, old(board).obstacles@),
{
    let n = board.players.len();
    let mut i: usize = 0;
    while i < n
        invariant
            n == old(board).players@.len(),
            i <= n,
            board.rows == old(board).rows,
            board.columns == old(board).columns,
            board.obstacles@ == old(board).obstacles@,
            board.flag == old(board).flag,
            board.players@.len() == n,
            forall|j: int| 0 <= j < n ==> target_fits(#[trigger] old(board).players@[j]),
            forall|j: int| 0 <= j < i ==>
                #[trigger] board.players@[j] == moved(old(board).players@[j], board.rows as int, board.columns as int, board.obstacles@),
            forall|j: int| i <= j < n ==> #[trigger] board.players@[j] == old(board).players@[j],
        decreases n - i,
    {
        let (dr, dc) = direction_step(&board.players[i].direction);
        let next_row = board.players[i].row + dr;
        let next_col = board.players[i].column + dc;
        let within = next_row >= 0 && next_row < board.rows && next_col >= 0 && next_col < board.columns;
        let hits = hits_obstacle(&board.obstacles, next_row, next_col);
        let inside = board.players[i].inside_board;
        if (!hits && within) || !inside {
            board.players[i].row = next_row;
            board.players[i].column = next_col;
            if within && !inside {
                board.players[i].inside_board = true;
            }
        }
        proof {
            let p = old(board).players@[i as int];
            assert(board.players@[i as int] == moved(p, board.rows as int, board.columns as int, board.obstacles@));
        }
        i = i + 1;
    }
}

// ---------------------------------------------------------------------------
// A new board
// ---------------------------------------------------------------------------

/// Calls macroquad's `rand::gen_range(low, high)`, which computes
/// `low + (high - low) * u` in `f64` for a random `u` in [0, 1) with 32
/// random bits, and truncates it: for bounds in this range the computation
/// is exact, so the result lies in [low, high), and is `low` when the bounds
/// are equal. Which value comes out is left open: it is random.
#[verifier::external_body]
fn random_in(low: i32, high: i32) -> (r: i32)
    requires
        0 <= low <= high <= 65536,
    ensures
        low < high ==> low <= r < high,
        low == high ==> r == low,
{
    macroquad::rand::gen_range(low, high)
}

/// Whether a value is one that a draw between the bounds can give.
pub open spec fn drawn_between(v: int, low: int, high: int) -> bool {
    if low < high { low <= v < high } else { v == low }
}

/// Whether a list of obstacles suits a board: every obstacle on the board,
/// none on the flag, no two on one cell.
pub open spec fn obstacles_placed(obstacles: Seq<Obstacle>, rows: int, columns: int, flag_row: int, flag_column: int) -> bool {
    &&& forall|k: int| 0 <= k < obstacles.len() ==> on_board(rows, columns, #[trigger] obstacles[k].row as int, obstacles[k].column as int)
    &&& forall|k: int| 0 <= k < obstacles.len() ==> !(#[trigger] obstacles[k].row == flag_row && obstacles[k].column == flag_column)
    &&& forall|a: int, b: int| 0 <= a < b < obstacles.len() ==>
        !(#[trigger] obstacles[a].row == #[trigger] obstacles[b].row && obstacles[a].column == obstacles[b].column)
}

/// Whether the cell numbered `index` in row-major order (counted from 0)
/// can take a new obstacle: it is on the board, it is not the flag's and no
/// obstacle stands on it.
pub open spec fn free_index(obstacles: Seq<Obstacle>, rows: int, columns: int, flag_row: int, flag_column: int, index: int) -> bool {
    let row = index / columns;
    let column = index % columns;
    &&& 0 <= index < rows * columns
    &&& !(row == flag_row && column == flag_column)
    &&& !blocked(obstacles, row, column)
}

/// The number, in row-major order, of the cell `offset` places after the
/// cell `(row, column)`, going round from the last cell of the board to the
/// first (for an offset below the number of cells).
pub open spec fn cell_after(rows: int, columns: int, row: int, column: int, offset: int) -> int {
    let i = row * columns + column + offset;
    if i < rows * columns { i } else { i - rows * columns }
}

/// A board on which no cell is free holds an obstacle on every cell but
/// the flag's.
proof fn lemma_full_board(obstacles: Seq<Obstacle>, rows: int, columns: int, flag_row: int, flag_column: int)
    requires
        0 < rows,
        0 < columns,
        forall|i: int| 0 <= i < rows * columns ==> !#[trigger] free_index(obstacles, rows, columns, flag_row, flag_column, i),
    ensures
        obstacles.len() >= rows * columns - 1,
{
    let cells = rows * columns;
    let flag_index = flag_row * columns + flag_column;
    let numbers = obstacles.map_values(|o: Obstacle| o.row as int * columns + o.column as int);
    let taken = numbers.to_set();
    let wanted = set_int_range(0, cells).remove(flag_index);
    assert forall|i: int| wanted.contains(i) implies taken.contains(i) by {
        lemma_fundamental_div_mod(i, columns);
        let row = i / columns;
        let column = i % columns;
        assert(0 <= column < columns);
        assert(0 <= row < rows) by (nonlinear_arith)
            requires
                0 <= i < rows * columns,
                i == columns * row + column,
                0 <= column < columns;
        assert(!free_index(obstacles, rows, columns, flag_row, flag_column, i));
        if row == flag_row && column == flag_column {
            assert(i == flag_index) by (nonlinear_arith)
                requires
                    i == columns * row + column,
                    row == flag_row,
                    column == flag_column,
                    flag_index == flag_row * columns + flag_column;
        } else {
            assert(blocked(obstacles, row, column));
            let k = choose|k: int| 0 <= k < obstacles.len() && obstacles[k].row == row && obstacles[k].column == column;
            assert(numbers[k] == row * columns + column);
            assert(row * columns + column == i) by (nonlinear_arith)
                requires
                    i == columns * row + column;
            assert(numbers.contains(i));
        }
    }
    lemma_int_range(0, cells);
    seq_to_set_is_finite(numbers);
    lemma_len_subset(wanted, taken);
    numbers.lemma_cardinality_of_set();
}

/// Places one obstacle for the drawn cell `(row, column)`: on the drawn
/// cell itself where it is free, else on the first free cell after it in
/// row-major order, going round from the last cell to the first. One cell
/// is free, since the obstacles and the flag leave one.
pub fn place_obstacle(
    obstacles: &mut Vec<Obstacle>,
    rows: i32,
    columns: i32,
    flag_row: i32,
    flag_column: i32,
    row: i32,
    column: i32,
)
    requires
        0 < rows <= 65536,
        0 < columns <= 65536,
        on_board(rows as int, columns as int, row as int, column as int),
        on_board(rows as int, columns as int, flag_row as int, flag_column as int),
        obstacles_placed(old(obstacles)@, rows as int, columns as int, flag_row as int, flag_column as int),
        old(obstacles)@.len() + 1 < rows * columns,
    ensures
        obstacles_placed(final(obstacles)@, rows as int, columns as int, flag_row as int, flag_column as int),
        exists|offset: int| #![trigger cell_after(rows as int, columns as int, row as int, column as int, offset)] {
            let index = cell_after(rows as int, columns as int, row as int, column as int, offset);
            &&& 0 <= offset < rows * columns
            &&& free_index(old(obstacles)@, rows as int, columns as int, flag_row as int, flag_column as int, index)
            &&& forall|j: int| 0 <= j < offset ==> !free_index(old(obstacles)@, rows as int, columns as int,
                    flag_row as int, flag_column as int, #[trigger] cell_after(rows as int, columns as int, row as int, column as int, j))
            &&& final(obstacles)@ == old(obstacles)@.push(Obstacle { row: (index / columns as int) as i32, column: (index % columns as int) as i32 })
        },
{
    assert(rows * columns <= 65536 * 65536) by (nonlinear_arith)
        requires
            0 < rows <= 65536,
            0 < columns <= 65536;
    assert(row * columns + column < rows * columns) by (nonlinear_arith)
        requires
            0 <= row < rows,
            0 <= column < columns;
    assert(0 <= row * columns) by (nonlinear_arith)
        requires
            0 <= row,
            0 < columns;
    let cells: u64 = (rows as u64) * (columns as u64);
    let width: u64 = columns as u64;
    let start: u64 = (row as u64) * width + (column as u64);
    let ghost before = obstacles@;
    let mut offset: u64 = 0;
    while offset < cells
        invariant
            0 < rows <= 65536,
            0 < columns <= 65536,
            cells == rows * columns,
            width == columns,
            start == row * columns + column,
            start < cells,
            cells <= 0x1_0000_0000,
            offset <= cells,
            obstacles@ == before,
            before == old(obstacles)@,
            obstacles_placed(before, rows as int, columns as int, flag_row as int, flag_column as int),
            forall|j: int| 0 <= j < offset ==> !free_index(before, rows as int, columns as int,
                flag_row as int, flag_column as int, #[trigger] cell_after(rows as int, columns as int, row as int, column as int, j)),
        decreases cells - offset,
    {
        let sum: u64 = start + offset;
        let index: u64 = if sum < cells { sum } else { sum - cells };
        assert(index == cell_after(rows as int, columns as int, row as int, column as int, offset as int));
        proof {
            lemma_fundamental_div_mod(index as int, columns as int);
            assert(0 <= index / width < rows) by (nonlinear_arith)
                requires
                    0 <= index < rows * columns,
                    index == columns * (index / width) + index % width,
                    width == columns,
                    0 < columns,
                    0 <= index % width;
        }
        let r: i32 = (index / width) as i32;
        let c: i32 = (index % width) as i32;
        if !(r == flag_row && c == flag_column) && !hits_obstacle(obstacles, r, c) {
            assert(free_index(before, rows as int, columns as int, flag_row as int, flag_column as int, index as int));
            obstacles.push(Obstacle { row: r, column: c });
            proof {
                assert forall|a: int, b: int| 0 <= a < b < obstacles@.len() implies
                    !(#[trigger] obstacles@[a].row == #[trigger] obstacles@[b].row && obstacles@[a].column == obstacles@[b].column) by {
                    assert(obstacles@[a] == before[a]);
                    if b < before.len() {
                        assert(obstacles@[b] == before[b]);
                    }
                }
                assert forall|k: int| 0 <= k < obstacles@.len() implies
                    on_board(rows as int, columns as int, #[trigger] obstacles@[k].row as int, obstacles@[k].column as int) by {
                    if k < before.len() {
                        assert(obstacles@[k] == before[k]);
                    }
                }
                assert forall|k: int| 0 <= k < obstacles@.len() implies
                    !(#[trigger] obstacles@[k].row == flag_row && obstacles@[k].column == flag_column) by {
                    if k < before.len() {
                        assert(obstacles@[k] == before[k]);
                    }
                }
                assert(cell_after(rows as int, columns as int, row as int, column as int, offset as int) == index);
            }
            return;
        }
        offset = offset + 1;
    }
    proof {
        assert forall|i: int| 0 <= i < rows * columns implies
            !#[trigger] free_index(before, rows as int, columns as int, flag_row as int, flag_column as int, i) by {
            let j = if i >= start { i - start } else { i + cells - start };
            assert(cell_after(rows as int, columns as int, row as int, column as int, j) == i);
        }
        lemma_full_board(before, rows as int, columns as int, flag_row as int, flag_column as int);
    }
}

impl Board {
    /// A new board of `rows` by `columns` cells, with no players: the flag
    /// stands, available, on a random cell of the central area, which
    /// leaves `row_margin` rows above and below it and `col_margin` columns
    /// on each side; `num_obstacles` obstacles cover random distinct cells
    /// other than the flag's. Each obstacle comes from a random cell of the
    /// board (see [`place_obstacle`]).
    pub fn generate(rows: i32, columns: i32, num_obstacles: i32, row_margin: i32, col_margin: i32) -> (board: Board)
        requires
            0 <= rows <= 65536,
            0 <= columns <= 65536,
            0 <= row_margin <= rows - row_margin,
            0 <= col_margin <= columns - col_margin,
            0 <= num_obstacles,
            num_obstacles == 0 || num_obstacles < rows * columns,
        ensures
            board.rows == rows,
            board.columns == columns,
            board.players@.len() == 0,
            board.flag.status@ == "AVAILABLE"@,
            board.flag.carrier_id is None,
            drawn_between(board.flag.row as int, row_margin as int, rows - row_margin),
            drawn_between(board.flag.column as int, col_margin as int, columns - col_margin),
            obstacles_placed(board.obstacles@, rows as int, columns as int, board.flag.row as int, board.flag.column as int),
            board.obstacles@.len() == num_obstacles,
    {
        let flag_row = random_in(row_margin, rows - row_margin);
        let flag_col = random_in(col_margin, columns - col_margin);
        let flag = Flag { row: flag_row, column: flag_col, status: "AVAILABLE".to_owned(), carrier_id: None };
        let mut obstacles: Vec<Obstacle> = Vec::new();
        while obstacles.len() < num_obstacles as usize
            invariant
                0 <= rows <= 65536,
                0 <= columns <= 65536,
                0 <= row_margin <= rows - row_margin,
                0 <= col_margin <= columns - col_margin,
                drawn_between(flag_row as int, row_margin as int, rows - row_margin),
                drawn_between(flag_col as int, col_margin as int, columns - col_margin),
                0 <= num_obstacles,
                num_obstacles == 0 || num_obstacles < rows * columns,
                obstacles@.len() <= num_obstacles,
                obstacles_placed(obstacles@, rows as int, columns as int, flag_row as int, flag_col as int),
            decreases num_obstacles - obstacles@.len(),
        {
            assert(rows > 0 && columns > 0) by (nonlinear_arith)
                requires
                    num_obstacles > 0,
                    num_obstacles < rows * columns,
                    0 <= rows,
                    0 <= columns;
            let r = random_in(0, rows);
            let c = random_in(0, columns);
            place_obstacle(&mut obstacles, rows, columns, flag_row, flag_col, r, c);
        }
        Board { rows, columns, obstacles, flag, players: Vec::new() }
    }
}

/// The `k`-th (0-based) player of a new game: named after its place, one
/// row above the board in a random column, heading down.
pub open spec fn starting_player(p: PlayerState, k: nat, columns: int) -> bool {
    &&& p.player_id@ == player_tag(k + 1)
    &&& p.name@ == "Player "@ + decimal(k + 1)
    &&& p.row == -1
    &&& drawn_between(p.column as int, 0, columns)
    &&& p.direction@ == "DOWN"@
    &&& !p.inside_board
    &&& !p.has_flag
    &&& !p.protected
}

/// The players of a new game, one for each of `count` connections, in the
/// order of the connections.
pub fn initial_players(count: usize, columns: i32) -> (players: Vec<PlayerState>)
    requires
        0 <= columns <= 65536,
        count < usize::MAX,
    ensures
        players@.len() == count,
        forall|k: int| 0 <= k < count ==> starting_player(#[trigger] players@[k], k as nat, columns as int),
{
    let mut players: Vec<PlayerState> = Vec::new();
    let mut k: usize = 0;
    while k < count
        invariant
            0 <= columns <= 65536,
            count < usize::MAX,
            k <= count,
            players@.len() == k,
            forall|j: int| 0 <= j < k ==> starting_player(#[trigger] players@[j], j as nat, columns as int),
        decreases count - k,
    {
        let number = decimal_string_u64(k as u64 + 1);
        let player = PlayerState {
            player_id: player_tag_text(k as u64 + 1),
            name: String::from_str("Player ").concat(number.as_str()),
            row: -1,
            column: random_in(0, columns),
            direction: "DOWN".to_owned(),
            inside_board: false,
            has_flag: false,
            protected: false,
        };
        players.push(player);
        k = k + 1;
    }
    players
}

/// Starts a game of the text protocol while the session waits for players:
/// a new board (see [`Board::generate`]) with one starting player per
/// connection, the message that announces it, and the session running. In
/// any other state nothing happens.
pub fn start_grid_game(
    state: &mut GameState,
    logs: &mut Vec<String>,
    client_count: usize,
    rows: i32,
    columns: i32,
    num_obstacles: i32,
    row_margin: i32,
    col_margin: i32,
    movement_interval_ms: i32,
    protection_time_ms: i32,
) -> (r: Option<(Board, ServerMessage)>)
    requires
        0 <= rows <= 65536,
        0 <= columns <= 65536,
        0 <= row_margin <= rows - row_margin,
        0 <= col_margin <= columns - col_margin,
        0 <= num_obstacles,
        num_obstacles == 0 || num_obstacles < rows * columns,
        client_count < usize::MAX,
    ensures
        *old(state) != GameState::Waiting ==> r is None && *final(state) == *old(state) && final(logs)@ == old(logs)@,
        *old(state) == GameState::Waiting ==> {
            &&& *final(state) == GameState::Running
            &&& texts(final(logs)@) == texts(old(logs)@).push("[INFO] Starting game sequence..."@)
                .push("[SUCCESS] GAME_STARTED broadcast sent!"@)
            &&& r matches Some((board, message)) && {
                &&& board.rows == rows
                &&& board.columns == columns
                &&& board.flag.status@ == "AVAILABLE"@
                &&& board.flag.carrier_id is None
                &&& obstacles_placed(board.obstacles@, rows as int, columns as int, board.flag.row as int, board.flag.column as int)
                &&& drawn_between(board.flag.row as int, row_margin as int, rows - row_margin)
                &&& drawn_between(board.flag.column as int, col_margin as int, columns - col_margin)
                &&& board.obstacles@.len() == num_obstacles
                &&& board.players@.len() == client_count
                &&& forall|k: int| 0 <= k < client_count ==> starting_player(#[trigger] board.players@[k], k as nat, columns as int)
                &&& message matches ServerMessage::GameStarted {
                        protocol_version, game_id, rows: mr, columns: mc, movement_interval_ms: mi,
                        protection_time_ms: pt, obstacles, flag, players,
                    }
                    && protocol_version@ == text_protocol_version() && game_id@ == grid_game_id()
                    && mr == rows && mc == columns && mi == movement_interval_ms && pt == protection_time_ms
                    && obstacles@ == board.obstacles@ && flag == board.flag && players@ == board.players@
            }
        },
{
    if *state != GameState::Waiting {
        return None;
    }
    push_line(logs, "[INFO] Starting game sequence...".to_owned());
    *state = GameState::Starting;
    let mut board = Board::generate(rows, columns, num_obstacles, row_margin, col_margin);
    let players = initial_players(client_count, columns);
    let message = ServerMessage::game_started(
        "GAME-001",
        board.rows,
        board.columns,
        movement_interval_ms,
        protection_time_ms,
        copy_obstacles(&board.obstacles),
        board.flag.duplicate(),
        copy_players(&players),
    );
    board.players = players;
    *state = GameState::Running;
    push_line(logs, "[SUCCESS] GAME_STARTED broadcast sent!".to_owned());
    Some((board, message))
}

/// One tick of a running game of the text protocol: the tick counter goes
/// up, every player moves (see [`calculate_movements_and_collisions`]), and
/// the returned message carries the new state to the clients.
pub fn advance_grid_game(board: &mut Board, tick: &mut i32) -> (m: ServerMessage)
    requires
        *old(tick) < i32::MAX,
        forall|i: int| 0 <= i < old(board).players@.len() ==> target_fits(#[trigger] old(board).players@[i]),
    ensures
        *final(tick) == *old(tick) + 1,
        final(board).rows == old(board).rows,
        final(board).columns == old(board).columns,
        final(board).obstacles@ == old(board).obstacles@,
        final(board).flag == old(board).flag,
        final(board).players@.len() == old(board).players@.len(),
        forall|i: int| 0 <= i < old(board).players@.len() ==>
            #[trigger] final(board).players@[i] == moved(old(board).players@[i], old(board).rows as int, old(board).columns as int, old(board).obstacles@),
        m matches ServerMessage::GameState { protocol_version, game_id, tick: t, players, flag }
            && protocol_version@ == text_protocol_version() && game_id@ == grid_game_id()
            && t == *final(tick) && players@ == final(board).players@ && flag == final(board).flag,
{
    *tick = *tick + 1;
    calculate_movements_and_collisions(board);
    ServerMessage::game_state("GAME-001", *tick, copy_players(&board.players), board.flag.duplicate())
}

// ---------------------------------------------------------------------------
// Dropping disconnected clients
// ---------------------------------------------------------------------------

/// Whether a position is listed.
pub open spec fn listed(indices: Seq<usize>, k: int) -> bool {
    exists|j: int| 0 <= j < indices.len() && indices[j] as int == k
}

/// The elements whose positions are not listed, in their order.
pub open spec fn without_positions<T>(s: Seq<T>, indices: Seq<usize>) -> Seq<T>
    decreases s.len(),
{
    if s.len() == 0 {
        s
    } else {
        let rest = without_positions(s.drop_last(), indices);
        if listed(indices, s.len() - 1) {
            rest
        } else {
            rest.push(s.last())
        }
    }
}

/// Listing a position a second time changes nothing.
pub proof fn lemma_duplicates_count_once<T>(s: Seq<T>, indices: Seq<usize>, j: usize)
    requires
        listed(indices, j as int),
    ensures
        without_positions(s, indices.push(j)) == without_positions(s, indices),
    decreases s.len(),
{
    if s.len() > 0 {
        lemma_duplicates_count_once(s.drop_last(), indices, j);
        let k = s.len() - 1;
        if listed(indices.push(j), k) {
            let w = choose|w: int| 0 <= w < indices.push(j).len() && indices.push(j)[w] as int == k;
            if w == indices.len() {
                assert(listed(indices, k));
            } else {
                assert(indices[w] == indices.push(j)[w]);
            }
        }
        if listed(indices, k) {
            let w = choose|w: int| 0 <= w < indices.len() && indices[w] as int == k;
            assert(indices.push(j)[w] == indices[w]);
        }
    }
}

/// Whether position `k` is listed.
fn is_listed(indices: &Vec<usize>, k: usize) -> (b: bool)
    ensures
        b == listed(indices@, k as int),
{
    let mut j: usize = 0;
    while j < indices.len()
        invariant
            j <= indices@.len(),
            forall|t: int| 0 <= t < j ==> indices@[t] != k,
        decreases indices@.len() - j,
    {
        if indices[j] == k {
            return true;
        }
        j = j + 1;
    }
    false
}

/// Removes exactly the clients that stood at the listed positions; the
/// others keep their order. A position listed more than once counts once,
/// and a position past the end of the list removes nothing.
pub fn cleanup_disconnected_clients<T>(active_clients: &mut Vec<T>, disconnected_indices: Vec<usize>)
    ensures
        final(active_clients)@ == without_positions(old(active_clients)@, disconnected_indices@),
{
    let ghost orig = active_clients@;
    let n = active_clients.len();
    let mut i: usize = 0;
    proof {
        assert(orig.take(0) =~= Seq::<T>::empty());
        assert(active_clients@ =~= without_positions(orig.take(0), disconnected_indices@) + orig.skip(0));
    }
    while i < n
        invariant
            n == orig.len(),
            i <= n,
            active_clients@ == without_positions(orig.take(i as int), disconnected_indices@) + orig.skip(i as int),
        decreases n - i,
    {
        let ghost kept = without_positions(orig.take(i as int), disconnected_indices@);
        proof {
            assert(orig.take(i + 1).drop_last() =~= orig.take(i as int));
            assert(orig.take(i + 1).last() == orig[i as int]);
            assert(orig.skip(i as int) =~= seq![orig[i as int]] + orig.skip(i + 1));
        }
        let pos = active_clients.len() - (n - i);
        if is_listed(&disconnected_indices, i) {
            active_clients.remove(pos);
            proof {
                assert(active_clients@ =~= kept + orig.skip(i + 1));
            }
        } else {
            proof {
                assert(active_clients@ =~= kept.push(orig[i as int]) + orig.skip(i + 1));
            }
        }
        i = i + 1;
    }
    proof {
        assert(orig.take(n as int) =~= orig);
        assert(active_clients@ =~= without_positions(orig, disconnected_indices@));
    }
}


// ---------------------------------------------------------------------------
// Messages
// ---------------------------------------------------------------------------

/// Version of the text protocol that every message carries.
pub open spec fn text_protocol_version() -> Seq<char> {
    "1.0"@
}

fn protocol_version_string() -> (s: String)
    ensures
        s@ == text_protocol_version(),
{
    "1.0".to_owned()
}

/// Messages from a client to the server.
#[derive(Debug, Clone)]
pub enum ClientMessage {
    Join { protocol_version: String, name: String },
    ChangeDirection { protocol_version: String, game_id: String, player_id: String, direction: String },
    Leave { protocol_version: String, game_id: String, player_id: String },
}

impl ClientMessage {
    /// A request to join under a name.
    pub fn join(name: &str) -> (m: Self)
        ensures
            m matches ClientMessage::Join { protocol_version, name: n }
                && protocol_version@ == text_protocol_version() && n@ == name@,
    {
        ClientMessage::Join { protocol_version: protocol_version_string(), name: name.to_owned() }
    }

    /// A change of direction; the directions that move are `UP`, `DOWN`,
    /// `LEFT` and `RIGHT`.
    pub fn change_direction(game_id: &str, player_id: &str, direction: &str) -> (m: Self)
        ensures
            m matches ClientMessage::ChangeDirection { protocol_version, game_id: g, player_id: p, direction: d }
                && protocol_version@ == text_protocol_version() && g@ == game_id@ && p@ == player_id@ && d@ == direction@,
    {
        ClientMessage::ChangeDirection {
            protocol_version: protocol_version_string(),
            game_id: game_id.to_owned(),
            player_id: player_id.to_owned(),
            direction: direction.to_owned(),
        }
    }

    /// A request to leave the game.
    pub fn leave(game_id: &str, player_id: &str) -> (m: Self)
        ensures
            m matches ClientMessage::Leave { protocol_version, game_id: g, player_id: p }
                && protocol_version@ == text_protocol_version() && g@ == game_id@ && p@ == player_id@,
    {
        ClientMessage::Leave {
            protocol_version: protocol_version_string(),
            game_id: game_id.to_owned(),
            player_id: player_id.to_owned(),
        }
    }
}

/// Messages from the server to a client.
#[derive(Debug, Clone)]
pub enum ServerMessage {
    JoinAccepted { protocol_version: String, player_id: String, game_id: String },
    JoinRejected { protocol_version: String, reason: String },
    GameStarted {
        protocol_version: String,
        game_id: String,
        rows: i32,
        columns: i32,
        movement_interval_ms: i32,
        protection_time_ms: i32,
        obstacles: Vec<Obstacle>,
        flag: Flag,
        players: Vec<PlayerState>,
    },
    GameState { protocol_version: String, game_id: String, tick: i32, players: Vec<PlayerState>, flag: Flag },
    FlagPickedUp { protocol_version: String, game_id: String, tick: i32, player_id: String },
    FlagStolen {
        protocol_version: String,
        game_id: String,
        tick: i32,
        previous_carrier_id: String,
        new_carrier_id: String,
        protection_time_ms: i32,
    },
    PlayerDisconnected { protocol_version: String, game_id: String, player_id: String },
    GameOver { protocol_version: String, game_id: String, winner_id: String, winner_name: String, reason: String },
    Error { protocol_version: String, code: String, description: String },
}

impl ServerMessage {
    /// Acceptance of a join, with the id given to the player.
    pub fn join_accepted(player_id: &str, game_id: &str) -> (m: Self)
        ensures
            m matches ServerMessage::JoinAccepted { protocol_version, player_id: p, game_id: g }
                && protocol_version@ == text_protocol_version() && p@ == player_id@ && g@ == game_id@,
    {
        ServerMessage::JoinAccepted {
            protocol_version: protocol_version_string(),
            player_id: player_id.to_owned(),
            game_id: game_id.to_owned(),
        }
    }

    /// Refusal of a join.
    pub fn join_rejected(reason: &str) -> (m: Self)
        ensures
            m matches ServerMessage::JoinRejected { protocol_version, reason: r }
                && protocol_version@ == text_protocol_version() && r@ == reason@,
    {
        ServerMessage::JoinRejected { protocol_version: protocol_version_string(), reason: reason.to_owned() }
    }

    /// The start of a game, with the whole board.
    pub fn game_started(
        game_id: &str,
        rows: i32,
        columns: i32,
        movement_interval_ms: i32,
        protection_time_ms: i32,
        obstacles: Vec<Obstacle>,
        flag: Flag,
        players: Vec<PlayerState>,
    ) -> (m: Self)
        ensures
            m matches ServerMessage::GameStarted {
                protocol_version, game_id: g, rows: r, columns: c, movement_interval_ms: mi,
                protection_time_ms: pt, obstacles: o, flag: f, players: p,
            }
                && protocol_version@ == text_protocol_version() && g@ == game_id@ && r == rows && c == columns
                && mi == movement_interval_ms && pt == protection_time_ms && o == obstacles && f == flag && p == players,
    {
        ServerMessage::GameStarted {
            protocol_version: protocol_version_string(),
            game_id: game_id.to_owned(),
            rows,
            columns,
            movement_interval_ms,
            protection_time_ms,
            obstacles,
            flag,
            players,
        }
    }

    /// The state of the game at a tick.
    pub fn game_state(game_id: &str, tick: i32, players: Vec<PlayerState>, flag: Flag) -> (m: Self)
        ensures
            m matches ServerMessage::GameState { protocol_version, game_id: g, tick: t, players: p, flag: f }
                && protocol_version@ == text_protocol_version() && g@ == game_id@ && t == tick && p == players && f == flag,
    {
        ServerMessage::GameState { protocol_version: protocol_version_string(), game_id: game_id.to_owned(), tick, players, flag }
    }

    /// A player took the free flag.
    pub fn flag_picked_up(game_id: &str, tick: i32, player_id: &str) -> (m: Self)
        ensures
            m matches ServerMessage::FlagPickedUp { protocol_version, game_id: g, tick: t, player_id: p }
                && protocol_version@ == text_protocol_version() && g@ == game_id@ && t == tick && p@ == player_id@,
    {
        ServerMessage::FlagPickedUp {
            protocol_version: protocol_version_string(),
            game_id: game_id.to_owned(),
            tick,
            player_id: player_id.to_owned(),
        }
    }

    /// A player took the flag from its carrier.
    pub fn flag_stolen(
        game_id: &str,
        tick: i32,
        previous_carrier_id: &str,
        new_carrier_id: &str,
        protection_time_ms: i32,
    ) -> (m: Self)
        ensures
            m matches ServerMessage::FlagStolen {
                protocol_version, game_id: g, tick: t, previous_carrier_id: a, new_carrier_id: b, protection_time_ms: pt,
            }
                && protocol_version@ == text_protocol_version() && g@ == game_id@ && t == tick
                && a@ == previous_carrier_id@ && b@ == new_carrier_id@ && pt == protection_time_ms,
    {
        ServerMessage::FlagStolen {
            protocol_version: protocol_version_string(),
            game_id: game_id.to_owned(),
            tick,
            previous_carrier_id: previous_carrier_id.to_owned(),
            new_carrier_id: new_carrier_id.to_owned(),
            protection_time_ms,
        }
    }

    /// A player left or lost the connection.
    pub fn player_disconnected(game_id: &str, player_id: &str) -> (m: Self)
        ensures
            m matches ServerMessage::PlayerDisconnected { protocol_version, game_id: g, player_id: p }
                && protocol_version@ == text_protocol_version() && g@ == game_id@ && p@ == player_id@,
    {
        ServerMessage::PlayerDisconnected {
            protocol_version: protocol_version_string(),
            game_id: game_id.to_owned(),
            player_id: player_id.to_owned(),
        }
    }

    /// The end of the game.
    pub fn game_over(game_id: &str, winner_id: &str, winner_name: &str, reason: &str) -> (m: Self)
        ensures
            m matches ServerMessage::GameOver { protocol_version, game_id: g, winner_id: w, winner_name: n, reason: r }
                && protocol_version@ == text_protocol_version() && g@ == game_id@ && w@ == winner_id@
                && n@ == winner_name@ && r@ == reason@,
    {
        ServerMessage::GameOver {
            protocol_version: protocol_version_string(),
            game_id: game_id.to_owned(),
            winner_id: winner_id.to_owned(),
            winner_name: winner_name.to_owned(),
            reason: reason.to_owned(),
        }
    }

    /// An error report.
    pub fn error(code: &str, description: &str) -> (m: Self)
        ensures
            m matches ServerMessage::Error { protocol_version, code: c, description: d }
                && protocol_version@ == text_protocol_version() && c@ == code@ && d@ == description@,
    {
        ServerMessage::Error {
            protocol_version: protocol_version_string(),
            code: code.to_owned(),
            description: description.to_owned(),
        }
    }
}

/// A message line: the JSON text of a message and the newline that ends it.
pub fn json_line(json: &str) -> (s: String)
    ensures
        s@ == json@ + "\n"@,
{
    String::from_str(json).concat("\n")
}

// ---------------------------------------------------------------------------
// Lines
// ---------------------------------------------------------------------------

pub open spec fn newline_free(s: Seq<char>) -> bool {
    forall|i: int| 0 <= i < s.len() ==> s[i] != '\n'
}

/// The pieces of a text between its newlines, in order: one more piece
/// than there are newlines.
pub open spec fn split_pieces(s: Seq<char>) -> Seq<Seq<char>>
    decreases s.len(),
{
    if s.len() == 0 {
        seq![Seq::<char>::empty()]
    } else {
        let prev = split_pieces(s.drop_last());
        if s.last() == '\n' {
            prev.push(Seq::<char>::empty())
        } else {
            prev.update(prev.len() - 1, prev.last().push(s.last()))
        }
    }
}

/// The pieces of the text after trimming, leaving out those that are empty.
pub open spec fn kept_lines(pieces: Seq<Seq<char>>) -> Seq<Seq<char>>
    decreases pieces.len(),
{
    if pieces.len() == 0 {
        pieces
    } else {
        let rest = kept_lines(pieces.drop_last());
        let t = crate::server::trimmed(pieces.last());
        if t.len() > 0 { rest.push(t) } else { rest }
    }
}

/// The texts of a list of strings.
pub open spec fn line_texts(v: Seq<String>) -> Seq<Seq<char>> {
    v.map_values(|s: String| s@)
}

/// The pieces of a text between its newlines.
pub fn split_at_newlines(text: &str) -> (pieces: Vec<String>)
    ensures
        line_texts(pieces@) == split_pieces(text@),
{
    let n = text.unicode_len();
    let mut pieces: Vec<String> = Vec::new();
    let mut start: usize = 0;
    let mut i: usize = 0;
    proof {
        assert(text@.take(0) =~= Seq::<char>::empty());
        assert(line_texts(pieces@) =~= Seq::<Seq<char>>::empty());
        assert(text@.subrange(0, 0) =~= Seq::<char>::empty());
    }
    while i < n
        invariant
            n == text@.len(),
            start <= i <= n,
            split_pieces(text@.take(i as int)) == line_texts(pieces@).push(text@.subrange(start as int, i as int)),
        decreases n - i,
    {
        let c = text.get_char(i);
        proof {
            assert(text@.take(i + 1).drop_last() =~= text@.take(i as int));
            assert(text@.take(i + 1).last() == c);
        }
        if c == '\n' {
            let ghost before = pieces@;
            pieces.push(text.substring_char(start, i).to_owned());
            proof {
                assert(line_texts(pieces@) =~= line_texts(before).push(text@.subrange(start as int, i as int)));
                assert(text@.subrange(i + 1, i + 1) =~= Seq::<char>::empty());
            }
            start = i + 1;
        } else {
            proof {
                assert(text@.subrange(start as int, i + 1) =~= text@.subrange(start as int, i as int).push(c));
            }
        }
        i = i + 1;
    }
    let ghost before = pieces@;
    pieces.push(text.substring_char(start, n).to_owned());
    proof {
        assert(text@.take(n as int) =~= text@);
        assert(line_texts(pieces@) =~= line_texts(before).push(text@.subrange(start as int, n as int)));
    }
    pieces
}

/// What `String::from_utf8_lossy` makes of the bytes: their text, with a
/// replacement character for each part that is not valid UTF-8.
pub uninterp spec fn lossy_text(bytes: Seq<u8>) -> Seq<char>;

/// Calls `String::from_utf8_lossy`, which std documents to give the text
/// of valid UTF-8 unchanged. What it gives for other bytes is left to the
/// name [`lossy_text`].
#[verifier::external_body]
fn decode_lossy(bytes: &[u8]) -> (s: String)
    ensures
        s@ == lossy_text(bytes@),
        valid_utf8(bytes@) ==> s@ == decode_utf8(bytes@),
{
    String::from_utf8_lossy(bytes).into_owned()
}

/// The message lines of a text: its pieces between newlines, trimmed, the
/// empty ones left out.
pub fn message_lines(text: &str) -> (lines: Vec<String>)
    ensures
        line_texts(lines@) == kept_lines(split_pieces(text@)),
{
    let pieces = split_at_newlines(text);
    let ghost all = split_pieces(text@);
    let mut lines: Vec<String> = Vec::new();
    let mut k: usize = 0;
    proof {
        assert(all.take(0) =~= Seq::<Seq<char>>::empty());
        assert(line_texts(lines@) =~= Seq::<Seq<char>>::empty());
    }
    while k < pieces.len()
        invariant
            k <= pieces@.len(),
            line_texts(pieces@) == all,
            line_texts(lines@) == kept_lines(all.take(k as int)),
        decreases pieces@.len() - k,
    {
        let t = crate::server::trim_text(pieces[k].as_str());
        proof {
            assert(all.take(k + 1).drop_last() =~= all.take(k as int));
            assert(all.take(k + 1).last() == pieces@[k as int]@);
        }
        if t.unicode_len() > 0 {
            let ghost before = lines@;
            lines.push(t);
            proof {
                assert(line_texts(lines@) =~= line_texts(before).push(lines@.last()@));
            }
        }
        k = k + 1;
    }
    proof {
        assert(all.take(pieces@.len() as int) =~= all);
    }
    lines
}

/// The message lines of bytes read from a client.
pub fn incoming_lines(bytes: &[u8]) -> (lines: Vec<String>)
    ensures
        line_texts(lines@) == kept_lines(split_pieces(lossy_text(bytes@))),
{
    let text = decode_lossy(bytes);
    message_lines(text.as_str())
}

// ---------------------------------------------------------------------------
// The server's side
// ---------------------------------------------------------------------------

/// What the server does about one event of a client: a line for its log, a
/// reply to the client, and whether the client is dropped.
#[derive(Debug, Clone)]
pub struct ClientReaction {
    pub log: Option<String>,
    pub reply: Option<ServerMessage>,
    pub disconnect: bool,
}

/// Id given to the player of the n-th connection: `P` and the number in at
/// least two digits.
pub open spec fn player_tag(n: nat) -> Seq<char> {
    "P"@ + if n < 10 { "0"@ + decimal(n) } else { decimal(n) }
}

/// The player id of the n-th connection.
pub fn player_tag_text(n: u64) -> (s: String)
    ensures
        s@ == player_tag(n as nat),
{
    let digits = decimal_string_u64(n);
    if n < 10 {
        let r = String::from_str("P").concat("0").concat(digits.as_str());
        assert(r@ =~= player_tag(n as nat));
        r
    } else {
        String::from_str("P").concat(digits.as_str())
    }
}

/// Game id of the text protocol's single game.
pub open spec fn grid_game_id() -> Seq<char> {
    "GAME-001"@
}

/// Whether the server takes new connections in a state: only while waiting.
pub fn accepts_connections(state: GameState) -> (b: bool)
    ensures
        b == (state == GameState::Waiting),
{
    state == GameState::Waiting
}

/// What the server does about a message line of the client at `index`
/// (0-based), given the outcome of reading it as a client message (the
/// parser's error text otherwise). A join is answered with an id while the
/// game waits for players, and refused after; a change of direction is
/// logged; a leave drops the client; an unreadable line is logged.
pub fn client_reaction(index: usize, parsed: Result<ClientMessage, String>, state: GameState) -> (r: ClientReaction)
    requires
        index < usize::MAX,
    ensures
        match parsed {
            Ok(ClientMessage::Join { name, .. }) => if state == GameState::Waiting {
                &&& r.log matches Some(l) && l@ == "[INFO] JOIN from: "@ + name@
                &&& r.reply matches Some(ServerMessage::JoinAccepted { protocol_version, player_id, game_id })
                    && protocol_version@ == text_protocol_version()
                    && player_id@ == player_tag(index as nat + 1)
                    && game_id@ == grid_game_id()
                &&& !r.disconnect
            } else {
                &&& r.log is None
                &&& r.reply matches Some(ServerMessage::JoinRejected { protocol_version, reason })
                    && protocol_version@ == text_protocol_version()
                    && reason@ == "GAME_ALREADY_STARTED"@
                &&& !r.disconnect
            },
            Ok(ClientMessage::ChangeDirection { direction, .. }) => {
                &&& r.log matches Some(l) && l@ == "[INFO] Direction change: "@ + direction@
                &&& r.reply is None
                &&& !r.disconnect
            },
            Ok(ClientMessage::Leave { .. }) => {
                &&& r.log matches Some(l) && l@ == "[INFO] Client "@ + decimal(index as nat + 1) + " sent LEAVE."@
                &&& r.reply is None
                &&& r.disconnect
            },
            Err(e) => {
                &&& r.log matches Some(l) && l@ == "[WARN] Unrecognized message: "@ + e@
                &&& r.reply is None
                &&& !r.disconnect
            },
        },
{
    match parsed {
        Ok(ClientMessage::Join { name, .. }) => {
            if state == GameState::Waiting {
                let log = String::from_str("[INFO] JOIN from: ").concat(name.as_str());
                let player_id = player_tag_text(index as u64 + 1);
                let reply = ServerMessage::join_accepted(player_id.as_str(), "GAME-001");
                ClientReaction { log: Some(log), reply: Some(reply), disconnect: false }
            } else {
                let reply = ServerMessage::join_rejected("GAME_ALREADY_STARTED");
                ClientReaction { log: None, reply: Some(reply), disconnect: false }
            }
        },
        Ok(ClientMessage::ChangeDirection { direction, .. }) => {
            let log = String::from_str("[INFO] Direction change: ").concat(direction.as_str());
            ClientReaction { log: Some(log), reply: None, disconnect: false }
        },
        Ok(ClientMessage::Leave { .. }) => {
            let number = decimal_string_u64(index as u64 + 1);
            let log = String::from_str("[INFO] Client ").concat(number.as_str()).concat(" sent LEAVE.");
            ClientReaction { log: Some(log), reply: None, disconnect: true }
        },
        Err(e) => {
            let log = String::from_str("[WARN] Unrecognized message: ").concat(e.as_str());
            ClientReaction { log: Some(log), reply: None, disconnect: false }
        },
    }
}

/// What the server does when the client at `index` closed its connection:
/// it logs it and drops the client.
pub fn client_closed(index: usize) -> (r: ClientReaction)
    requires
        index < usize::MAX,
    ensures
        r.log matches Some(l) && l@ == "[INFO] Client "@ + decimal(index as nat + 1) + " disconnected."@,
        r.reply is None,
        r.disconnect,
{
    let number = decimal_string_u64(index as u64 + 1);
    let log = String::from_str("[INFO] Client ").concat(number.as_str()).concat(" disconnected.");
    ClientReaction { log: Some(log), reply: None, disconnect: true }
}

/// What the server does when reading from a client failed: it logs the
/// error and drops the client.
pub fn client_lost(error: &str) -> (r: ClientReaction)
    ensures
        r.log matches Some(l) && l@ == "[ERROR] Lost client connection: "@ + error@,
        r.reply is None,
        r.disconnect,
{
    let log = String::from_str("[ERROR] Lost client connection: ").concat(error);
    ClientReaction { log: Some(log), reply: None, disconnect: true }
}

// ---------------------------------------------------------------------------
// The client's side
// ---------------------------------------------------------------------------

/// A client of the text protocol: its log, the ids the server gave it, the
/// text received and not yet read as lines, and whether it has sent its
/// first direction.
#[derive(Debug, Clone)]
pub struct GridClient {
    pub logs: Vec<String>,
    pub player_id: String,
    pub game_id: String,
    pub buffer: String,
    pub direction_sent: bool,
}

impl GridClient {
    /// A client that has received nothing.
    pub fn new() -> (c: Self)
        ensures
            c.logs@.len() == 0,
            c.player_id@.len() == 0,
            c.game_id@.len() == 0,
            c.buffer@.len() == 0,
            !c.direction_sent,
    {
        GridClient {
            logs: Vec::new(),
            player_id: String::new(),
            game_id: String::new(),
            buffer: String::new(),
            direction_sent: false,
        }
    }

    /// Appends bytes received from the server, which must be UTF-8, to the
    /// text waiting to be read.
    pub fn receive_bytes(&mut self, bytes: &[u8])
        requires
            valid_utf8(bytes@),
        ensures
            final(self).buffer@ == old(self).buffer@ + decode_utf8(bytes@),
            final(self).logs@ == old(self).logs@,
            final(self).player_id@ == old(self).player_id@,
            final(self).game_id@ == old(self).game_id@,
            final(self).direction_sent == old(self).direction_sent,
    {
        let text = crate::codec::string_from_utf8(vstd::slice::slice_to_vec(bytes));
        match text {
            Some(t) => {
                proof {
                    vstd::utf8::encode_utf8_decode_utf8(t@);
                }
                self.buffer.append(t.as_str());
            },
            None => {},
        }
    }

    /// Takes the first complete line out of the received text, without its
    /// newline; none while the text holds no newline.
    pub fn next_line(&mut self) -> (line: Option<String>)
        ensures
            final(self).logs@ == old(self).logs@,
            final(self).player_id@ == old(self).player_id@,
            final(self).game_id@ == old(self).game_id@,
            final(self).direction_sent == old(self).direction_sent,
            match line {
                Some(l) => newline_free(l@) && old(self).buffer@ == l@ + seq!['\n'] + final(self).buffer@,
                None => newline_free(old(self).buffer@) && final(self).buffer@ == old(self).buffer@,
            },
    {
        let n = self.buffer.as_str().unicode_len();
        let mut i: usize = 0;
        while i < n
            invariant
                *self == *old(self),
                n == self.buffer@.len(),
                i <= n,
                newline_free(self.buffer@.take(i as int)),
            decreases n - i,
        {
            let c = self.buffer.as_str().get_char(i);
            if c == '\n' {
                let line = self.buffer.as_str().substring_char(0, i).to_owned();
                let rest = self.buffer.as_str().substring_char(i + 1, n).to_owned();
                proof {
                    assert(self.buffer@ =~= line@ + seq!['\n'] + rest@);
                    assert(line@ =~= self.buffer@.take(i as int));
                }
                self.buffer = rest;
                return Some(line);
            }
            proof {
                assert forall|j: int| 0 <= j < i + 1 implies #[trigger] self.buffer@.take(i + 1)[j] != '\n' by {
                    if j < i {
                        assert(self.buffer@.take(i + 1)[j] == self.buffer@.take(i as int)[j]);
                    }
                }
            }
            i = i + 1;
        }
        proof {
            assert(self.buffer@.take(n as int) =~= self.buffer@);
        }
        None
    }

    /// Handles a line from the server, given the outcome of reading it as a
    /// server message (the parser's error text otherwise): an acceptance
    /// sets the client's ids; every line is logged.
    pub fn handle_reply(&mut self, parsed: Result<ServerMessage, String>)
        ensures
            final(self).buffer@ == old(self).buffer@,
            final(self).direction_sent == old(self).direction_sent,
            match parsed {
                Ok(ServerMessage::JoinAccepted { player_id, game_id, .. }) => {
                    &&& texts(final(self).logs@) == texts(old(self).logs@).push("[SUCCESS] 3. Received JOIN_ACCEPTED message."@)
                    &&& final(self).player_id@ == player_id@
                    &&& final(self).game_id@ == game_id@
                },
                Ok(ServerMessage::GameState { .. }) => {
                    &&& texts(final(self).logs@) == texts(old(self).logs@).push("[SUCCESS] 5. Received GAME_STATE message."@)
                    &&& final(self).player_id@ == old(self).player_id@
                    &&& final(self).game_id@ == old(self).game_id@
                },
                Ok(_) => {
                    &&& texts(final(self).logs@) == texts(old(self).logs@).push("[SUCCESS] Received other message type."@)
                    &&& final(self).player_id@ == old(self).player_id@
                    &&& final(self).game_id@ == old(self).game_id@
                },
                Err(e) => {
                    &&& texts(final(self).logs@) == texts(old(self).logs@).push("[WARN] Failed to parse message: "@ + e@)
                    &&& final(self).player_id@ == old(self).player_id@
                    &&& final(self).game_id@ == old(self).game_id@
                },
            },
    {
        match parsed {
            Ok(ServerMessage::JoinAccepted { player_id, game_id, .. }) => {
                push_line(&mut self.logs, "[SUCCESS] 3. Received JOIN_ACCEPTED message.".to_owned());
                self.player_id = player_id;
                self.game_id = game_id;
            },
            Ok(ServerMessage::GameState { .. }) => {
                push_line(&mut self.logs, "[SUCCESS] 5. Received GAME_STATE message.".to_owned());
            },
            Ok(_) => {
                push_line(&mut self.logs, "[SUCCESS] Received other message type.".to_owned());
            },
            Err(e) => {
                push_line(&mut self.logs, String::from_str("[WARN] Failed to parse message: ").concat(e.as_str()));
            },
        }
    }

    /// Once the client has an id and has not yet chosen a direction, the
    /// message that sends it off to the right; it is logged and sent once.
    pub fn initial_direction(&mut self) -> (m: Option<ClientMessage>)
        ensures
            final(self).buffer@ == old(self).buffer@,
            final(self).player_id@ == old(self).player_id@,
            final(self).game_id@ == old(self).game_id@,
            if old(self).player_id@.len() > 0 && !old(self).direction_sent {
                &&& m matches Some(ClientMessage::ChangeDirection { protocol_version, game_id, player_id, direction })
                    && protocol_version@ == text_protocol_version()
                    && game_id@ == old(self).game_id@
                    && player_id@ == old(self).player_id@
                    && direction@ == "RIGHT"@
                &&& texts(final(self).logs@) == texts(old(self).logs@).push("[SUCCESS] 4. Sent CHANGE_DIRECTION message."@)
                &&& final(self).direction_sent
            } else {
                &&& m is None
                &&& final(self).logs@ == old(self).logs@
                &&& final(self).direction_sent == old(self).direction_sent
            },
    {
        if self.player_id.as_str().unicode_len() > 0 && !self.direction_sent {
            let m = ClientMessage::change_direction(self.game_id.as_str(), self.player_id.as_str(), "RIGHT");
            push_line(&mut self.logs, "[SUCCESS] 4. Sent CHANGE_DIRECTION message.".to_owned());
            self.direction_sent = true;
            Some(m)
        } else {
            None
        }
    }

    /// Logs that the server closed the connection.
    pub fn connection_closed(&mut self)
        ensures
            texts(final(self).logs@) == texts(old(self).logs@).push("[SUCCESS] Server closed the connection."@),
            final(self).buffer@ == old(self).buffer@,
            final(self).player_id@ == old(self).player_id@,
            final(self).game_id@ == old(self).game_id@,
            final(self).direction_sent == old(self).direction_sent,
    {
        push_line(&mut self.logs, "[SUCCESS] Server closed the connection.".to_owned());
    }

    /// Logs a failed read.
    pub fn read_failed(&mut self, error: &str)
        ensures
            texts(final(self).logs@) == texts(old(self).logs@).push("[ERROR] "@ + error@),
            final(self).buffer@ == old(self).buffer@,
            final(self).player_id@ == old(self).player_id@,
            final(self).game_id@ == old(self).game_id@,
            final(self).direction_sent == old(self).direction_sent,
    {
        push_line(&mut self.logs, String::from_str("[ERROR] ").concat(error));
    }
}

} // verus!
