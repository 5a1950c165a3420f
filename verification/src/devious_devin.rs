//! The duelling snake: a fixed-horizon search over both snakes' moves with
//! alpha-beta pruning.

use vstd::prelude::*;
use crate::api::{AboutMe, BattlesnakeAI, MoveOutput};
use crate::minimax_model::{
    best_direction, best_option, best_option_upto, children_spec,
    full_window_lists_every_step, lemma_duel_turn, lemma_scan_done, lemma_scan_step,
    lemma_step_keeps_duel, minimax_value, options_ok, scan_ok, search_result_ok, turn_snake,
    within_window, NEUTRAL_SCORE, SCORE_BOUND,
};
use crate::moves::{advance_state, revert_undoes_advance, SnakeMove};
use crate::scoring::{duel_at, score, score_spec, MAX_BODY_LEN, MAX_DEPTH};
use crate::types::{
    direction_name, find_snake, has_snake, possible_moves, snake_index, Coordinate, Direction,
    GameError, GameState,
};

verus! {

/// Picks the first best of `options`.
pub fn pick_best(options: &Vec<(i64, Option<Direction>)>, is_maximizing: bool) -> (best: (
    i64,
    Option<Direction>,
))
    ensures
        best == best_option(options@, is_maximizing),
{
    if options.len() == 0 {
        return (NEUTRAL_SCORE, Some(Direction::UP));
    }
    let mut best: (i64, Option<Direction>) = options[0];
    let mut i: usize = 1;
    while i < options.len()
        invariant
            1 <= i <= options.len(),
            best == best_option_upto(options@, is_maximizing, i as int),
        decreases options.len() - i,
    {
        let o: (i64, Option<Direction>) = options[i];
        if (is_maximizing && o.0 > best.0) || (!is_maximizing && o.0 < best.0) {
            best = o;
        }
        i += 1;
    }
    best
}

/// The steps open to the first snake of `node` that carries
/// `turn_snake_id`: those from its head that end on the board. Fails when no
/// snake carries `turn_snake_id`, or when the snake that does has no body.
pub fn children(node: &GameState, turn_snake_id: &String) -> (r: Result<
    Vec<(Direction, Coordinate)>,
    GameError,
>)
    ensures
        match r {
            Ok(moves) => {
                let snake = node@.board.snakes[snake_index(node@.board.snakes, turn_snake_id@)];
                &&& has_snake(node@.board.snakes, turn_snake_id@)
                &&& snake.body.len() > 0
                &&& moves@ == possible_moves(node@.board, snake.body[0])
            },
            Err(e) => {
                if has_snake(node@.board.snakes, turn_snake_id@) {
                    &&& e == GameError::NoBody
                    &&& node@.board.snakes[snake_index(
                        node@.board.snakes,
                        turn_snake_id@,
                    )].body.len() == 0
                } else {
                    e == GameError::SnakeNotFound
                }
            },
        },
{
    let i: usize = match find_snake(&node.board.snakes, turn_snake_id) {
        Some(i) => i,
        None => {
            return Err(GameError::SnakeNotFound);
        },
    };
    if node.board.snakes[i].body.len() == 0 {
        return Err(GameError::NoBody);
    }
    Ok(node.board.snakes[i].body[0].possbile_moves(&node.board))
}

/// Searches the duel `node` at ply `depth` within the window `(alpha, beta)`
/// and returns the best value found with the direction of the step that
/// gave it. The snapshot is the same after the search as before it.
pub fn minimax(
    node: &mut GameState,
    depth: usize,
    is_maximizing: bool,
    alpha: i64,
    beta: i64,
) -> (best: (i64, Option<Direction>))
    requires
        depth <= MAX_DEPTH,
        duel_at(old(node)@, depth as int),
        alpha < beta,
    ensures
        final(node)@ == old(node)@,
        search_result_ok(
            old(node)@,
            depth as int,
            is_maximizing,
            alpha as int,
            beta as int,
            best,
        ),
    decreases MAX_DEPTH - depth, 3int,
{
    let options = minimax_options(node, depth, is_maximizing, alpha, beta);
    pick_best(&options, is_maximizing)
}

/// Searches the duel `node` at ply `depth` within the window `(alpha, beta)`
/// and returns every option it looked at with the score it found for it.
/// The snapshot is the same after the search as before it.
pub fn minimax_options(
    node: &mut GameState,
    depth: usize,
    is_maximizing: bool,
    alpha: i64,
    beta: i64,
) -> (options: Vec<(i64, Option<Direction>)>)
    requires
        depth <= MAX_DEPTH,
        duel_at(old(node)@, depth as int),
        alpha < beta,
    ensures
        final(node)@ == old(node)@,
        options_ok(old(node)@, depth as int, is_maximizing, alpha as int, beta as int, options@),
        search_result_ok(
            old(node)@,
            depth as int,
            is_maximizing,
            alpha as int,
            beta as int,
            best_option(options@, is_maximizing),
        ),
    decreases MAX_DEPTH - depth, 2int,
{
    if let Some(s) = score(node, depth as i64) {
        let options: Vec<(i64, Option<Direction>)> = vec![(s, None)];
        assert(options@ =~= seq![(s, None::<Direction>)]);
        return options;
    }
    if is_maximizing {
        options_for_me(node, depth, alpha, beta)
    } else {
        options_for_opponent(node, depth, alpha, beta)
    }
}

/// Plays the step onto `coor` for the snake `id`, searches the position
/// that it leads to, and takes the step back.
fn try_step(
    node: &mut GameState,
    depth: usize,
    is_maximizing: bool,
    id: &String,
    coor: &Coordinate,
    alpha: i64,
    beta: i64,
) -> (value: i64)
    requires
        depth < MAX_DEPTH,
        duel_at(old(node)@, depth as int),
        id@ == turn_snake(old(node)@, is_maximizing).id,
        alpha < beta,
    ensures
        final(node)@ == old(node)@,
        -SCORE_BOUND <= value <= SCORE_BOUND,
        within_window(
            minimax_value(
                advance_state(old(node)@, *coor, id@),
                depth + 1,
                !is_maximizing,
            ),
            alpha as int,
            beta as int,
            value as int,
        ),
    decreases MAX_DEPTH - depth, 0int,
{
    let ghost g = node@;
    proof {
        lemma_duel_turn(g, depth as int, is_maximizing);
        lemma_step_keeps_duel(g, depth as int, is_maximizing, *coor);
        revert_undoes_advance(g, *coor, id@);
    }
    let stepped: Result<SnakeMove<String>, GameError> = node.move_to(coor, id);
    let last_move: SnakeMove<String> = stepped.unwrap();
    let value: i64 = minimax(node, depth + 1, !is_maximizing, alpha, beta).0;
    node.reverse_move(last_move);
    value
}

/// The options of `you`, searched in order until the window closes.
fn options_for_me(node: &mut GameState, depth: usize, alpha: i64, beta: i64) -> (options: Vec<
    (i64, Option<Direction>),
>)
    requires
        depth <= MAX_DEPTH,
        duel_at(old(node)@, depth as int),
        score_spec(old(node)@, depth as int).is_none(),
        alpha < beta,
    ensures
        final(node)@ == old(node)@,
        options_ok(old(node)@, depth as int, true, alpha as int, beta as int, options@),
        search_result_ok(
            old(node)@,
            depth as int,
            true,
            alpha as int,
            beta as int,
            best_option(options@, true),
        ),
    decreases MAX_DEPTH - depth, 1int,
{
    let ghost g = node@;
    let ghost d = depth as int;
    let alpha_in: i64 = alpha;
    let mut alpha: i64 = alpha;
    let mut options: Vec<(i64, Option<Direction>)> = Vec::new();
    let me_at: usize = if node.board.snakes[0].id == node.you.id {
        0
    } else {
        1
    };
    proof {
        lemma_duel_turn(g, d, true);
    }
    let mut best: (i64, Option<Direction>) = (i64::MIN, None);
    let me: String = node.board.snakes[me_at].id.clone();
    let kids: Vec<(Direction, Coordinate)> = children(node, &me).unwrap();
    let mut cut: bool = false;
    let mut i: usize = 0;
    while i < kids.len() && !cut
        invariant
            node@ == g,
            d == depth as int,
            depth < MAX_DEPTH,
            duel_at(g, d),
            kids@ == children_spec(g, true),
            me@ == turn_snake(g, true).id,
            options@.len() == i,
            scan_ok(
                g,
                d,
                true,
                alpha_in as int,
                beta as int,
                options@,
                best,
                alpha as int,
                beta as int,
                cut,
            ),
        decreases kids.len() - i,
    {
        let (dir, coor) = kids[i];
        let value: i64 = try_step(node, depth, true, &me, &coor, alpha, beta);
        proof {
            lemma_scan_step(
                g,
                d,
                true,
                alpha_in as int,
                beta as int,
                options@,
                best,
                alpha as int,
                beta as int,
                value,
                dir,
            );
        }
        options.push((value, Some(dir)));
        if value > best.0 {
            best = (value, Some(dir));
        }
        alpha = if alpha > best.0 {
            alpha
        } else {
            best.0
        };
        if beta <= alpha {
            cut = true;
        }
        i += 1;
    }
    proof {
        lemma_scan_done(
            g,
            d,
            true,
            alpha_in as int,
            beta as int,
            options@,
            best,
            alpha as int,
            beta as int,
            cut,
        );
    }
    options
}

/// The options of the opponent, searched in order until the window closes.
fn options_for_opponent(node: &mut GameState, depth: usize, alpha: i64, beta: i64) -> (options:
    Vec<(i64, Option<Direction>)>)
    requires
        depth <= MAX_DEPTH,
        duel_at(old(node)@, depth as int),
        score_spec(old(node)@, depth as int).is_none(),
        alpha < beta,
    ensures
        final(node)@ == old(node)@,
        options_ok(old(node)@, depth as int, false, alpha as int, beta as int, options@),
        search_result_ok(
            old(node)@,
            depth as int,
            false,
            alpha as int,
            beta as int,
            best_option(options@, false),
        ),
    decreases MAX_DEPTH - depth, 1int,
{
    let ghost g = node@;
    let ghost d = depth as int;
    let beta_in: i64 = beta;
    let mut beta: i64 = beta;
    let mut options: Vec<(i64, Option<Direction>)> = Vec::new();
    let me_at: usize = if node.board.snakes[0].id == node.you.id {
        0
    } else {
        1
    };
    proof {
        lemma_duel_turn(g, d, false);
    }
    let mut best: (i64, Option<Direction>) = (i64::MAX, None);
    let not_me: String = node.board.snakes[1 - me_at].id.clone();
    let kids: Vec<(Direction, Coordinate)> = children(node, &not_me).unwrap();
    let mut cut: bool = false;
    let mut i: usize = 0;
    while i < kids.len() && !cut
        invariant
            node@ == g,
            d == depth as int,
            depth < MAX_DEPTH,
            duel_at(g, d),
            kids@ == children_spec(g, false),
            not_me@ == turn_snake(g, false).id,
            options@.len() == i,
            scan_ok(
                g,
                d,
                false,
                alpha as int,
                beta_in as int,
                options@,
                best,
                alpha as int,
                beta as int,
                cut,
            ),
        decreases kids.len() - i,
    {
        let (dir, coor) = kids[i];
        let value: i64 = try_step(node, depth, false, &not_me, &coor, alpha, beta);
        proof {
            lemma_scan_step(
                g,
                d,
                false,
                alpha as int,
                beta_in as int,
                options@,
                best,
                alpha as int,
                beta as int,
                value,
                dir,
            );
        }
        options.push((value, Some(dir)));
        if value < best.0 {
            best = (value, Some(dir));
        }
        beta = if beta < best.0 {
            beta
        } else {
            best.0
        };
        if beta <= alpha {
            cut = true;
        }
        i += 1;
    }
    proof {
        lemma_scan_done(
            g,
            d,
            false,
            alpha as int,
            beta_in as int,
            options@,
            best,
            alpha as int,
            beta as int,
            cut,
        );
    }
    options
}

/// Tells whether `state` is a duel that the search can start from.
pub fn check_duel(state: &GameState) -> (ok: bool)
    ensures
        ok == duel_at(state@, 0),
{
    if state.board.snakes.len() != 2 {
        return false;
    }
    let first = &state.board.snakes[0];
    let second = &state.board.snakes[1];
    proof {
        assert(state@.board.snakes.len() == 2);
        assert(state@.board.snakes[0] == first@);
        assert(state@.board.snakes[1] == second@);
        assert(state.board.food@.len() == state.board.food.len());
        assert(state@.board.food.len() <= usize::MAX);
    }
    !(first.id == second.id) && (state.you.id == first.id || state.you.id == second.id)
        && first.body.len() > 0 && first.body.len() <= MAX_BODY_LEN && second.body.len() > 0
        && second.body.len() <= MAX_BODY_LEN
}

/// The value of the duel `node` for `you`, and the direction to take: the
/// plain minimax value over [`MAX_DEPTH`] plies, found with alpha-beta
/// pruning, and [`best_direction`]. The snapshot is the same afterwards.
pub fn best_move(node: &mut GameState) -> (best: (i64, Direction))
    requires
        duel_at(old(node)@, 0),
    ensures
        final(node)@ == old(node)@,
        best.0 == minimax_value(old(node)@, 0, true),
        best.1 == best_direction(old(node)@),
{
    let (value, dir) = minimax(node, 0, true, i64::MIN, i64::MAX);
    let direction: Direction = match dir {
        Some(d) => d,
        None => Direction::UP,
    };
    (value, direction)
}

/// The duelling snake.
pub struct DeviousDevin {}

/// One option at the root of the search, and the score found for it.
#[derive(Clone, Copy, Debug)]
pub struct MoveOption {
    pub dir: Option<Direction>,
    pub score: i64,
}

/// The options at the root of the search.
#[derive(Clone, Debug)]
pub struct EvaluateOutput {
    pub options: Vec<MoveOption>,
}

/// The options of an [`EvaluateOutput`] as pairs of score and direction.
pub open spec fn option_pairs(options: Seq<MoveOption>) -> Seq<(i64, Option<Direction>)> {
    Seq::new(options.len(), |i: int| (options[i].score, options[i].dir))
}

impl DeviousDevin {
    /// Every option of `you` in `game_state` with the score the search found
    /// for it: what [`minimax_options`] lists at the root with the widest
    /// window. Refuses a state that is not a duel.
    pub fn explain_move(&self, game_state: GameState) -> (r: Result<EvaluateOutput, GameError>)
        ensures
            match r {
                Ok(out) => {
                    &&& duel_at(game_state@, 0)
                    &&& options_ok(
                        game_state@,
                        0,
                        true,
                        i64::MIN as int,
                        i64::MAX as int,
                        option_pairs(out.options@),
                    )
                    &&& score_spec(game_state@, 0).is_none() ==> out.options@.len()
                        == children_spec(game_state@, true).len()
                },
                Err(e) => e == GameError::NotADuel && !duel_at(game_state@, 0),
            },
    {
        if !check_duel(&game_state) {
            return Err(GameError::NotADuel);
        }
        let mut game_state = game_state;
        let found: Vec<(i64, Option<Direction>)> = minimax_options(
            &mut game_state,
            0,
            true,
            i64::MIN,
            i64::MAX,
        );
        let mut options: Vec<MoveOption> = Vec::new();
        let mut i: usize = 0;
        while i < found.len()
            invariant
                i <= found.len(),
                options.len() == i,
                forall|j: int|
                    0 <= j < i ==> (#[trigger] options@[j]).score == found@[j].0 && options@[j].dir
                        == found@[j].1,
            decreases found.len() - i,
        {
            let (score, dir) = found[i];
            options.push(MoveOption { score, dir });
            i += 1;
        }
        proof {
            assert(option_pairs(options@) =~= found@);
            if score_spec(game_state@, 0).is_none() {
                full_window_lists_every_step(game_state@, 0, true, found@);
            }
        }
        Ok(EvaluateOutput { options })
    }
}

impl BattlesnakeAI for DeviousDevin {
    fn name(&self) -> (name: String)
        ensures
            name@ == "devious-devin"@,
    {
        "devious-devin".to_owned()
    }

    fn about(&self) -> (about: AboutMe)
        ensures
            about.apiversion@ == "1"@,
            about.author matches Some(a) && a@ == "coreyja"@,
            about.color matches Some(c) && c@ == "#99cc00"@,
            about.head matches Some(h) && h@ == "snail"@,
            about.tail matches Some(t) && t@ == "rbc-necktie"@,
            about.version.is_none(),
    {
        AboutMe {
            apiversion: "1".to_owned(),
            author: Some("coreyja".to_owned()),
            color: Some("#99cc00".to_owned()),
            head: Some("snail".to_owned()),
            tail: Some("rbc-necktie".to_owned()),
            version: None,
        }
    }

    /// The name of [`best_direction`] in `game_state`, without a shout.
    /// Refuses a state that is not a duel.
    fn make_move(&self, game_state: GameState) -> (r: Result<MoveOutput, GameError>)
        ensures
            match r {
                Ok(out) => {
                    &&& duel_at(game_state@, 0)
                    &&& out.chosen_move@ == direction_name(best_direction(game_state@))
                    &&& out.shout.is_none()
                },
                Err(e) => e == GameError::NotADuel && !duel_at(game_state@, 0),
            },
    {
        if !check_duel(&game_state) {
            return Err(GameError::NotADuel);
        }
        let mut game_state = game_state;
        let (_score, dir) = best_move(&mut game_state);
        Ok(MoveOutput { chosen_move: dir.value(), shout: None })
    }
}

} // verus!
