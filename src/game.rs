//! The simulation engine: the game state and its one-step transition.
use crate::types::{delta, opposite, Direction, GameConfig, GameStatus, Point, TickResult};
use rand::{Rng, SeedableRng};
use rand_chacha::ChaCha8Rng;
use std::collections::VecDeque;
use vstd::prelude::*;

verus! {

#[verifier::external_type_specification]
#[verifier::external_body]
pub struct ExChaCha8Rng(ChaCha8Rng);

/// Relies on rand_core's `SeedableRng::seed_from_u64`: builds a ChaCha8
/// generator from a 64-bit seed.
#[verifier::external_body]
fn rng_from_seed(seed: u64) -> (r: ChaCha8Rng) {
    ChaCha8Rng::seed_from_u64(seed)
}

/// Relies on rand's `Rng::random_range`: a value drawn from `0..bound`
/// (it panics on an empty range, hence the `requires`).
#[verifier::external_body]
fn draw_below(rng: &mut ChaCha8Rng, bound: i32) -> (r: i32)
    requires
        0 < bound,
    ensures
        0 <= r < bound,
{
    rng.random_range(0..bound)
}

/// The point with the given integer coordinates.
pub open spec fn at(x: int, y: int) -> Point {
    Point { x: x as i32, y: y as i32 }
}

/// One coordinate after a single unit move, carried onto the opposite edge
/// when it left `0..n`.
pub open spec fn wrap_coord(v: int, n: int) -> int {
    if v < 0 {
        n - 1
    } else if v >= n {
        0
    } else {
        v
    }
}

/// The snake a fresh game starts with: `max(1, initial_len)` segments in a
/// horizontal line ending at the board's centre, head first, facing right.
pub open spec fn initial_snake(cfg: GameConfig) -> Seq<Point> {
    let n = if cfg.initial_len == 0 { 1 } else { cfg.initial_len as int };
    Seq::new(n as nat, |i: int| at(cfg.width / 2 - i, cfg.height / 2))
}

/// `after` is `before`, or `before` with one fresh cell that is on the board
/// and outside `snake`: what a bounded run of random draws for a free cell
/// leaves behind, whether or not one of them hit.
pub open spec fn at_most_one_added(before: Set<Point>, after: Set<Point>, snake: Seq<Point>, cfg: GameConfig) -> bool {
    ||| after == before
    ||| exists|p: Point|
        cfg.contains(p) && !snake.contains(p) && !before.contains(p) && after == before.insert(p)
}

pub struct GameState {
    cfg: GameConfig,
    snake: VecDeque<Point>,
    dir: Direction,
    /// Applied at the start of the next tick unless it is a 180° turn.
    pending_dir: Option<Direction>,
    /// Distinct cells, each on the board and off the snake. A list rather
    /// than a hash set: vstd models hash-set membership only for integer
    /// keys, so with `Point` keys no contract about the food could be proved.
    food: Vec<Point>,
    rng: ChaCha8Rng,
    status: GameStatus,
    score: u32,
}

impl GameState {
    pub closed spec fn cfg_view(&self) -> GameConfig {
        self.cfg
    }

    /// The snake, head first.
    pub closed spec fn snake_view(&self) -> Seq<Point> {
        self.snake@
    }

    pub closed spec fn food_seq(&self) -> Seq<Point> {
        self.food@
    }

    pub closed spec fn dir_view(&self) -> Direction {
        self.dir
    }

    pub closed spec fn pending_view(&self) -> Option<Direction> {
        self.pending_dir
    }

    pub closed spec fn status_view(&self) -> GameStatus {
        self.status
    }

    pub closed spec fn score_view(&self) -> u32 {
        self.score
    }

    /// The food generator; it moves only when food is placed.
    pub closed spec fn rng_view(&self) -> ChaCha8Rng {
        self.rng
    }

    /// The cells that hold food.
    pub open spec fn food_view(&self) -> Set<Point> {
        self.food_seq().to_set()
    }

    pub open spec fn head_view(&self) -> Point {
        self.snake_view()[0]
    }

    /// The state's invariant.
    pub open spec fn wf(&self) -> bool {
        &&& self.cfg_view().valid()
        &&& self.snake_view().len() >= 1
        &&& self.cfg_view().contains(self.head_view())
        &&& self.snake_view().no_duplicates()
        &&& forall|i: int|
            0 <= i < self.snake_view().len() ==> self.cfg_view().contains(#[trigger] self.snake_view()[i])
        &&& self.food_seq().no_duplicates()
        &&& forall|i: int|
            0 <= i < self.food_seq().len() ==> {
                &&& self.cfg_view().contains(#[trigger] self.food_seq()[i])
                &&& !self.snake_view().contains(self.food_seq()[i])
            }
    }

    /// The heading a step commits to: the queued one, unless it reverses.
    pub open spec fn next_dir(&self) -> Direction {
        match self.pending_view() {
            Some(d) => if opposite(d, self.dir_view()) {
                self.dir_view()
            } else {
                d
            },
            None => self.dir_view(),
        }
    }

    /// The head moved one unit along the committed heading, before wrapping.
    pub open spec fn raw_next(&self) -> (int, int) {
        (self.head_view().x + delta(self.next_dir()).0, self.head_view().y + delta(self.next_dir()).1)
    }

    /// The step would leave a board whose edges do not wrap.
    pub open spec fn leaves_board(&self) -> bool {
        &&& !self.cfg_view().wrap_edges
        &&& !self.cfg_view().contains(at(self.raw_next().0, self.raw_next().1))
    }

    /// The cell the head moves to.
    pub open spec fn target(&self) -> Point {
        if self.cfg_view().wrap_edges {
            at(
                wrap_coord(self.raw_next().0, self.cfg_view().width as int),
                wrap_coord(self.raw_next().1, self.cfg_view().height as int),
            )
        } else {
            at(self.raw_next().0, self.raw_next().1)
        }
    }

    pub open spec fn eats(&self) -> bool {
        self.food_view().contains(self.target())
    }

    /// The target hits the body; the tail does not count unless the snake
    /// grows this step.
    pub open spec fn blocked(&self) -> bool {
        if self.eats() {
            self.snake_view().contains(self.target())
        } else {
            self.snake_view().drop_last().contains(self.target())
        }
    }

    /// The step eats, so the snake grows and the score goes up.
    pub open spec fn grows(&self) -> bool {
        &&& self.status_view() == GameStatus::Running
        &&& !self.leaves_board()
        &&& !self.blocked()
        &&& self.eats()
    }

    /// `post` and `r` are what one step from `pre` gives.
    pub open spec fn stepped(pre: GameState, post: GameState, r: TickResult) -> bool {
        &&& post.cfg_view() == pre.cfg_view()
        &&& if pre.status_view() == GameStatus::Dead {
            &&& post == pre
            &&& post.snake_view() == pre.snake_view()
            &&& post.food_view() == pre.food_view()
            &&& post.dir_view() == pre.dir_view()
            &&& post.pending_view() == pre.pending_view()
            &&& post.status_view() == GameStatus::Dead
            &&& post.score_view() == pre.score_view()
            &&& r == TickResult { ate_food: false, status: GameStatus::Dead, score: pre.score_view() }
        } else {
            &&& post.dir_view() == pre.next_dir()
            &&& post.pending_view() == None::<Direction>
            &&& if pre.leaves_board() {
                &&& post.rng_view() == pre.rng_view()
                &&& post.snake_view() == pre.snake_view()
                &&& post.food_view() == pre.food_view()
                &&& post.status_view() == GameStatus::Dead
                &&& post.score_view() == pre.score_view()
                &&& r == TickResult { ate_food: false, status: GameStatus::Dead, score: pre.score_view() }
            } else if pre.blocked() {
                &&& post.rng_view() == pre.rng_view()
                &&& post.snake_view() == pre.snake_view()
                &&& post.food_view() == pre.food_view()
                &&& post.status_view() == GameStatus::Running
                &&& post.score_view() == pre.score_view()
                &&& r == TickResult { ate_food: false, status: GameStatus::Running, score: pre.score_view() }
            } else if pre.eats() {
                &&& post.snake_view() == seq![pre.target()] + pre.snake_view()
                &&& at_most_one_added(pre.food_view().remove(pre.target()), post.food_view(), post.snake_view(), pre.cfg_view())
                &&& post.status_view() == GameStatus::Running
                &&& post.score_view() == pre.score_view() + 1
                &&& r == TickResult { ate_food: true, status: GameStatus::Running, score: post.score_view() }
            } else {
                &&& post.rng_view() == pre.rng_view()
                &&& post.snake_view() == seq![pre.target()] + pre.snake_view().drop_last()
                &&& post.food_view() == pre.food_view()
                &&& post.status_view() == GameStatus::Running
                &&& post.score_view() == pre.score_view()
                &&& r == TickResult { ate_food: false, status: GameStatus::Running, score: pre.score_view() }
            }
        }
    }

    /// `post` is `pre` with `d` queued for the next step.
    pub open spec fn queued(pre: GameState, post: GameState, d: Direction) -> bool {
        &&& post.pending_view() == Some(d)
        &&& post.cfg_view() == pre.cfg_view()
        &&& post.snake_view() == pre.snake_view()
        &&& post.food_seq() == pre.food_seq()
        &&& post.dir_view() == pre.dir_view()
        &&& post.status_view() == pre.status_view()
        &&& post.score_view() == pre.score_view()
        &&& post.rng_view() == pre.rng_view()
    }

    /// A fresh layout of `cfg`: running, score zero, heading right, nothing
    /// queued, the initial snake, and at most one food cell.
    pub open spec fn is_fresh(&self, cfg: GameConfig) -> bool {
        &&& self.cfg_view() == cfg
        &&& self.status_view() == GameStatus::Running
        &&& self.score_view() == 0
        &&& self.dir_view() == Direction::Right
        &&& self.pending_view() == None::<Direction>
        &&& self.snake_view() == initial_snake(cfg)
        &&& at_most_one_added(Set::empty(), self.food_view(), self.snake_view(), cfg)
    }
}

/// Removing a present entry from a list without repeats removes exactly that
/// value from its set.
proof fn lemma_remove_distinct(s: Seq<Point>, i: int)
    requires
        s.no_duplicates(),
        0 <= i < s.len(),
    ensures
        s.remove(i).to_set() == s.to_set().remove(s[i]),
        s.remove(i).no_duplicates(),
{
    let t = s.remove(i);
    assert forall|p: Point| t.to_set().contains(p) <==> s.to_set().remove(s[i]).contains(p) by {
        if t.contains(p) {
            let j = choose|j: int| 0 <= j < t.len() && t[j] == p;
            if j < i {
                assert(s[j] == p);
            } else {
                assert(s[j + 1] == p);
            }
        }
        if s.contains(p) && p != s[i] {
            let j = choose|j: int| 0 <= j < s.len() && s[j] == p;
            if j < i {
                assert(t[j] == p);
            } else {
                assert(t[j - 1] == p);
            }
        }
    }
    assert(t.to_set() =~= s.to_set().remove(s[i]));
}

/// Appending a new value to a list without repeats adds it to its set.
proof fn lemma_push_distinct(s: Seq<Point>, p: Point)
    requires
        s.no_duplicates(),
        !s.contains(p),
    ensures
        s.push(p).to_set() == s.to_set().insert(p),
        s.push(p).no_duplicates(),
{
    let t = s.push(p);
    assert forall|q: Point| t.to_set().contains(q) <==> s.to_set().insert(p).contains(q) by {
        if t.contains(q) {
            let j = choose|j: int| 0 <= j < t.len() && t[j] == q;
            if j < s.len() {
                assert(s[j] == q);
            }
        }
        if s.contains(q) {
            let j = choose|j: int| 0 <= j < s.len() && s[j] == q;
            assert(t[j] == q);
        }
        assert(t[s.len() as int] == p);
    }
    assert(t.to_set() =~= s.to_set().insert(p));
}

/// The snake after a move, its new head `h` in front of what is kept of the
/// old body, is still free of repeats and of food.
proof fn lemma_moved_snake(body: Seq<Point>, kept: Seq<Point>, h: Point, food: Seq<Point>, cfg: GameConfig)
    requires
        body.no_duplicates(),
        body.len() >= 1,
        kept == body || kept == body.drop_last(),
        !kept.contains(h),
        !food.contains(h),
        cfg.contains(h),
        forall|i: int| 0 <= i < body.len() ==> cfg.contains(#[trigger] body[i]),
        forall|i: int| 0 <= i < food.len() ==> cfg.contains(#[trigger] food[i]) && !body.contains(food[i]),
    ensures
        (seq![h] + kept).no_duplicates(),
        forall|i: int| 0 <= i < (seq![h] + kept).len() ==> cfg.contains(#[trigger] (seq![h] + kept)[i]),
        forall|i: int|
            0 <= i < food.len() ==> {
                &&& cfg.contains(#[trigger] food[i])
                &&& !(seq![h] + kept).contains(food[i])
            },
{
    let t = seq![h] + kept;
    assert forall|i: int| 0 <= i < t.len() implies cfg.contains(#[trigger] t[i]) by {
        if i > 0 {
            assert(t[i] == body[i - 1]);
        }
    }
    assert forall|a: int, b: int| 0 <= a < b < t.len() implies t[a] != t[b] by {
        if a == 0 {
            assert(kept[b - 1] == t[b]);
        } else {
            assert(kept[a - 1] == t[a] && kept[b - 1] == t[b]);
        }
    }
    assert forall|i: int| 0 <= i < food.len() implies {
        &&& cfg.contains(#[trigger] food[i])
        &&& !t.contains(food[i])
    } by {
        let q = food[i];
        assert(cfg.contains(food[i]) && !body.contains(food[i]));
        if t.contains(q) {
            let m = choose|m: int| 0 <= m < t.len() && t[m] == q;
            if m > 0 {
                assert(kept[m - 1] == q);
                assert(body[m - 1] == q);
            } else {
                assert(food.contains(q));
            }
        }
    }
}

impl GameState {
    /// A game on `cfg` whose food placement is driven by a ChaCha8 generator
    /// seeded with `seed`.
    pub fn with_seed(cfg: GameConfig, seed: u64) -> (r: Self)
        requires
            cfg.valid(),
        ensures
            r.wf(),
            r.is_fresh(cfg),
    {
        Self::with_rng(cfg, rng_from_seed(seed))
    }

    /// A game on `cfg` that draws food cells from `rng`.
    pub fn with_rng(cfg: GameConfig, rng: ChaCha8Rng) -> (r: Self)
        requires
            cfg.valid(),
        ensures
            r.wf(),
            r.is_fresh(cfg),
    {
        let mut game = GameState {
            cfg,
            snake: VecDeque::new(),
            dir: Direction::Right,
            pending_dir: None,
            food: Vec::new(),
            rng,
            status: GameStatus::Running,
            score: 0,
        };
        game.reset();
        game
    }

    pub fn config(&self) -> (r: &GameConfig)
        ensures
            *r == self.cfg_view(),
    {
        &self.cfg
    }

    pub fn status(&self) -> (r: GameStatus)
        ensures
            r == self.status_view(),
    {
        self.status
    }

    pub fn score(&self) -> (r: u32)
        ensures
            r == self.score_view(),
    {
        self.score
    }

    /// The committed heading.
    pub fn direction(&self) -> (r: Direction)
        ensures
            r == self.dir_view(),
    {
        self.dir
    }

    /// The snake's segments, head first.
    pub fn snake_segments(&self) -> (r: Vec<Point>)
        ensures
            r@ == self.snake_view(),
    {
        let mut out: Vec<Point> = Vec::new();
        let mut i: usize = 0;
        while i < self.snake.len()
            invariant
                i <= self.snake@.len(),
                out@ == self.snake@.subrange(0, i as int),
            decreases self.snake@.len() - i,
        {
            out.push(self.snake[i]);
            i += 1;
            proof {
                assert(out@ =~= self.snake@.subrange(0, i as int));
            }
        }
        proof {
            assert(out@ =~= self.snake@);
        }
        out
    }

    /// The food cells, each once, in no particular order.
    pub fn food_positions(&self) -> (r: Vec<Point>)
        ensures
            r@ == self.food_seq(),
            r@.to_set() == self.food_view(),
    {
        self.food.clone()
    }

    pub fn head(&self) -> (r: Point)
        requires
            self.wf(),
        ensures
            r == self.head_view(),
    {
        self.snake[0]
    }

    /// Removes every food item.
    pub fn clear_food(&mut self)
        requires
            old(self).wf(),
        ensures
            final(self).wf(),
            final(self).food_view() == Set::<Point>::empty(),
            final(self).cfg_view() == old(self).cfg_view(),
            final(self).snake_view() == old(self).snake_view(),
            final(self).dir_view() == old(self).dir_view(),
            final(self).pending_view() == old(self).pending_view(),
            final(self).status_view() == old(self).status_view(),
            final(self).score_view() == old(self).score_view(),
            final(self).rng_view() == old(self).rng_view(),
    {
        self.food.clear();
        proof {
            assert(self.food@.to_set() =~= Set::<Point>::empty());
        }
    }

    /// Puts food on `p` when `p` is a free cell of the board; tells whether
    /// it did.
    pub fn place_food(&mut self, p: Point) -> (ok: bool)
        requires
            old(self).wf(),
        ensures
            final(self).wf(),
            ok == (old(self).cfg_view().contains(p) && !old(self).snake_view().contains(p)
                && !old(self).food_view().contains(p)),
            final(self).food_view() == if ok {
                old(self).food_view().insert(p)
            } else {
                old(self).food_view()
            },
            final(self).cfg_view() == old(self).cfg_view(),
            final(self).snake_view() == old(self).snake_view(),
            final(self).dir_view() == old(self).dir_view(),
            final(self).pending_view() == old(self).pending_view(),
            final(self).status_view() == old(self).status_view(),
            final(self).score_view() == old(self).score_view(),
            final(self).rng_view() == old(self).rng_view(),
    {
        if self.out_of_bounds(p) || self.collides_with_body(p, false) || self.food_index(p).is_some() {
            return false;
        }
        proof {
            lemma_push_distinct(self.food@, p);
        }
        self.food.push(p);
        proof {
            assert forall|i: int| 0 <= i < self.food@.len() implies {
                &&& self.cfg.contains(#[trigger] self.food@[i])
                &&& !self.snake@.contains(self.food@[i])
            } by {
                if i < old(self).food@.len() {
                    assert(self.food@[i] == old(self).food@[i]);
                }
            }
        }
        true
    }

    /// Lays the snake out on `segments`, head first, heading `dir`, when the
    /// segments are distinct free cells of the board; tells whether it did.
    pub fn place_snake(&mut self, segments: &Vec<Point>, dir: Direction) -> (ok: bool)
        requires
            old(self).wf(),
        ensures
            final(self).wf(),
            ok == (segments@.len() >= 1 && segments@.no_duplicates() && forall|i: int|
                0 <= i < segments@.len() ==> old(self).cfg_view().contains(#[trigger] segments@[i])
                    && !old(self).food_view().contains(segments@[i])),
            final(self).snake_view() == if ok {
                segments@
            } else {
                old(self).snake_view()
            },
            final(self).dir_view() == if ok {
                dir
            } else {
                old(self).dir_view()
            },
            final(self).cfg_view() == old(self).cfg_view(),
            final(self).food_seq() == old(self).food_seq(),
            final(self).pending_view() == old(self).pending_view(),
            final(self).status_view() == old(self).status_view(),
            final(self).score_view() == old(self).score_view(),
            final(self).rng_view() == old(self).rng_view(),
    {
        let n = segments.len();
        if n == 0 {
            return false;
        }
        let mut i: usize = 0;
        while i < n
            invariant
                *self == *old(self),
                self.wf(),
                n == segments@.len(),
                i <= n,
                forall|j: int|
                    0 <= j < i ==> self.cfg.contains(#[trigger] segments@[j]) && !self.food@.to_set().contains(
                        segments@[j],
                    ),
                forall|j: int, k: int| 0 <= j < k < i ==> segments@[j] != segments@[k],
            decreases n - i,
        {
            let p = segments[i];
            if self.out_of_bounds(p) || self.food_index(p).is_some() {
                return false;
            }
            let mut j: usize = 0;
            while j < i
                invariant
                    *self == *old(self),
                    self.wf(),
                    n == segments@.len(),
                    i < n,
                    j <= i,
                    p == segments@[i as int],
                    forall|k: int| 0 <= k < j ==> segments@[k] != p,
                decreases i - j,
            {
                if segments[j] == p {
                    proof {
                        assert(!segments@.no_duplicates()) by {
                            assert(segments@[j as int] == segments@[i as int]);
                        }
                    }
                    return false;
                }
                j += 1;
            }
            i += 1;
        }
        proof {
            assert(segments@.no_duplicates()) by {
                assert forall|a: int, b: int| 0 <= a < segments@.len() && 0 <= b < segments@.len() && a != b implies segments@[a]
                    != segments@[b] by {
                    if a < b {
                        assert(segments@[a] != segments@[b]);
                    } else {
                        assert(segments@[b] != segments@[a]);
                    }
                }
            }
        }
        self.snake.clear();
        let mut k: usize = 0;
        while k < n
            invariant
                self.cfg == old(self).cfg,
                self.food@ == old(self).food@,
                self.dir == old(self).dir,
                self.pending_dir == old(self).pending_dir,
                self.status == old(self).status,
                self.score == old(self).score,
                self.rng == old(self).rng,
                n == segments@.len(),
                k <= n,
                self.snake@ == segments@.subrange(0, k as int),
            decreases n - k,
        {
            self.snake.push_back(segments[k]);
            proof {
                assert(self.snake@ =~= segments@.subrange(0, k + 1));
            }
            k += 1;
        }
        proof {
            assert(self.snake@ =~= segments@);
            assert forall|i: int| 0 <= i < self.food@.len() implies {
                &&& self.cfg.contains(#[trigger] self.food@[i])
                &&& !self.snake@.contains(self.food@[i])
            } by {
                let q = self.food@[i];
                assert(old(self).cfg.contains(old(self).food@[i]));
                if self.snake@.contains(q) {
                    let m = choose|m: int| 0 <= m < segments@.len() && segments@[m] == q;
                    assert(self.food@.to_set().contains(q));
                    assert(self.cfg.contains(segments@[m]));
                }
            }
            assert forall|i: int| 0 <= i < self.snake@.len() implies self.cfg.contains(#[trigger] self.snake@[i]) by {
                assert(self.cfg.contains(segments@[i]));
            }
        }
        self.dir = dir;
        true
    }

    /// Queues a heading for the next step; a later call replaces it.
    pub fn queue_direction(&mut self, dir: Direction)
        ensures
            Self::queued(*old(self), *final(self), dir),
    {
        self.pending_dir = Some(dir);
    }

    /// Starts over on the same configuration, going on with the same
    /// generator.
    pub fn reset(&mut self)
        requires
            old(self).cfg_view().valid(),
        ensures
            final(self).wf(),
            final(self).is_fresh(old(self).cfg_view()),
    {
        self.status = GameStatus::Running;
        self.score = 0;
        self.snake.clear();
        self.food.clear();
        self.dir = Direction::Right;
        self.pending_dir = None;

        let cx = self.cfg.width / 2;
        let cy = self.cfg.height / 2;
        let init_len: usize = if self.cfg.initial_len == 0 { 1 } else { self.cfg.initial_len };
        let n = init_len as i32;
        let mut i: i32 = 0;
        while i < n
            invariant
                self.cfg == old(self).cfg,
                self.cfg.valid(),
                n as int == init_len as int,
                init_len == (if self.cfg.initial_len == 0 { 1 } else { self.cfg.initial_len as int }),
                cx == self.cfg.width / 2,
                cy == self.cfg.height / 2,
                0 <= i <= n,
                self.snake@ =~= Seq::new(i as nat, |j: int| at(cx as int - j, cy as int)),
                self.food@.len() == 0,
                self.status == GameStatus::Running,
                self.score == 0,
                self.dir == Direction::Right,
                self.pending_dir == None::<Direction>,
            decreases n - i,
        {
            self.snake.push_back(Point::new(cx - i, cy));
            i += 1;
        }
        proof {
            assert(self.snake@ =~= initial_snake(self.cfg));
            assert(self.food@.to_set() =~= Set::<Point>::empty());
            assert forall|a: int, b: int| 0 <= a < b < self.snake@.len() implies self.snake@[a] != self.snake@[b] by {}
        }
        self.spawn_food();
    }

    /// Tries to place one food cell on a free square, giving up after a
    /// bounded number of draws; each drawn cell is kept or refused as
    /// `place_food` says.
    fn spawn_food(&mut self)
        requires
            old(self).wf(),
        ensures
            final(self).wf(),
            final(self).cfg == old(self).cfg,
            final(self).snake@ == old(self).snake@,
            final(self).dir == old(self).dir,
            final(self).pending_dir == old(self).pending_dir,
            final(self).status == old(self).status,
            final(self).score == old(self).score,
            at_most_one_added(old(self).food_view(), final(self).food_view(), old(self).snake@, old(self).cfg),
    {
        let w = self.cfg.width;
        let h = self.cfg.height;
        let cells: usize = match (w as usize).checked_mul(h as usize) {
            Some(c) => c,
            None => usize::MAX,
        };
        let twice: usize = match cells.checked_mul(2) {
            Some(c) => c,
            None => usize::MAX,
        };
        let max_attempts: usize = if twice < 8 { 8 } else { twice };
        let mut k: usize = 0;
        while k < max_attempts
            invariant
                self.wf(),
                self.cfg == old(self).cfg,
                w == self.cfg.width,
                h == self.cfg.height,
                self.snake@ == old(self).snake@,
                self.food_view() == old(self).food_view(),
                self.dir == old(self).dir,
                self.pending_dir == old(self).pending_dir,
                self.status == old(self).status,
                self.score == old(self).score,
            decreases max_attempts - k,
        {
            let x = draw_below(&mut self.rng, w);
            let y = draw_below(&mut self.rng, h);
            if self.place_food(Point::new(x, y)) {
                return;
            }
            k += 1;
        }
        // Every draw hit an occupied cell: the board is taken as full.
    }

    /// Where the head goes along the committed heading, before wrapping.
    fn next_head_position(&self) -> (r: Point)
        requires
            self.wf(),
        ensures
            r.x == self.head_view().x + delta(self.dir).0,
            r.y == self.head_view().y + delta(self.dir).1,
    {
        let (dx, dy) = self.dir.dx_dy();
        let h = self.head();
        Point::new(h.x + dx, h.y + dy)
    }

    fn out_of_bounds(&self, p: Point) -> (r: bool)
        ensures
            r == !self.cfg.contains(p),
    {
        p.x < 0 || p.x >= self.cfg.width || p.y < 0 || p.y >= self.cfg.height
    }

    fn wrap(&self, p: Point) -> (r: Point)
        requires
            self.cfg.valid(),
        ensures
            r == at(wrap_coord(p.x as int, self.cfg.width as int), wrap_coord(p.y as int, self.cfg.height as int)),
    {
        let mut x = p.x;
        let mut y = p.y;
        if x < 0 {
            x = self.cfg.width - 1;
        } else if x >= self.cfg.width {
            x = 0;
        }
        if y < 0 {
            y = self.cfg.height - 1;
        } else if y >= self.cfg.height {
            y = 0;
        }
        Point::new(x, y)
    }

    /// Whether `p` is on the body; the tail is left out when it is about to
    /// move off.
    fn collides_with_body(&self, p: Point, tail_will_move_off: bool) -> (r: bool)
        ensures
            r == if tail_will_move_off && self.snake@.len() > 0 {
                self.snake@.drop_last().contains(p)
            } else {
                self.snake@.contains(p)
            },
    {
        let n: usize = if tail_will_move_off && self.snake.len() > 0 {
            self.snake.len() - 1
        } else {
            self.snake.len()
        };
        let mut i: usize = 0;
        while i < n
            invariant
                n == (if tail_will_move_off && self.snake@.len() > 0 {
                    self.snake@.len() - 1
                } else {
                    self.snake@.len() as int
                }),
                i <= n,
                forall|j: int| 0 <= j < i ==> self.snake@[j] != p,
            decreases n - i,
        {
            if self.snake[i] == p {
                proof {
                    assert(self.snake@.subrange(0, n as int)[i as int] == p);
                    if n < self.snake@.len() {
                        assert(self.snake@.drop_last() =~= self.snake@.subrange(0, n as int));
                    } else {
                        assert(self.snake@ =~= self.snake@.subrange(0, n as int));
                    }
                }
                return true;
            }
            i += 1;
        }
        proof {
            if n < self.snake@.len() {
                assert(self.snake@.drop_last() =~= self.snake@.subrange(0, n as int));
            }
        }
        false
    }

    /// The position of `p` among the food cells, if it is one.
    fn food_index(&self, p: Point) -> (r: Option<usize>)
        ensures
            match r {
                Some(i) => i < self.food@.len() && self.food@[i as int] == p,
                None => !self.food@.contains(p),
            },
            r.is_some() == self.food@.to_set().contains(p),
    {
        let mut i: usize = 0;
        while i < self.food.len()
            invariant
                i <= self.food@.len(),
                forall|j: int| 0 <= j < i ==> self.food@[j] != p,
            decreases self.food@.len() - i,
        {
            if self.food[i] == p {
                return Some(i);
            }
            i += 1;
        }
        None
    }

    /// Advances the game by one step.
    #[verifier::rlimit(40)]
    pub fn tick(&mut self) -> (r: TickResult)
        requires
            old(self).wf(),
            old(self).grows() ==> old(self).score_view() < u32::MAX,
        ensures
            final(self).wf(),
            Self::stepped(*old(self), *final(self), r),
    {
        if self.status == GameStatus::Dead {
            return TickResult { ate_food: false, status: self.status, score: self.score };
        }

        match self.pending_dir {
            Some(next) => {
                if !next.is_opposite(self.dir) {
                    self.dir = next;
                }
            },
            None => {},
        }
        self.pending_dir = None;

        let next_head = self.next_head_position();

        if !self.cfg.wrap_edges && self.out_of_bounds(next_head) {
            self.status = GameStatus::Dead;
            return TickResult { ate_food: false, status: self.status, score: self.score };
        }

        let next_head = if self.cfg.wrap_edges {
            self.wrap(next_head)
        } else {
            next_head
        };
        assert(next_head == old(self).target());

        // The tail may be entered when it moves off this step, i.e. unless
        // the snake grows.
        let found = self.food_index(next_head);
        let is_eating = found.is_some();
        if self.collides_with_body(next_head, !is_eating) {
            self.status = GameStatus::Running;
            return TickResult { ate_food: false, status: self.status, score: self.score };
        }

        self.snake.push_front(next_head);

        match found {
            Some(i) => {
                proof {
                    lemma_remove_distinct(self.food@, i as int);
                }
                self.food.remove(i);
                self.score = self.score + 1;
                proof {
                    assert(self.snake@ =~= seq![next_head] + old(self).snake@);
                    lemma_moved_snake(old(self).snake@, old(self).snake@, next_head, self.food@, self.cfg);
                }
                self.spawn_food();
                TickResult { ate_food: true, status: self.status, score: self.score }
            },
            None => {
                self.snake.pop_back();
                proof {
                    assert(self.snake@ =~= seq![next_head] + old(self).snake@.drop_last());
                    lemma_moved_snake(old(self).snake@, old(self).snake@.drop_last(), next_head, self.food@, self.cfg);
                }
                TickResult { ate_food: false, status: self.status, score: self.score }
            },
        }
    }
}

/// The committed heading points straight at the nearest edge from a head on
/// the board's last cell in that direction.
pub open spec fn heads_outward(s: GameState) -> bool {
    let h = s.head_view();
    let c = s.cfg_view();
    match s.next_dir() {
        Direction::Right => h.x == c.width - 1,
        Direction::Left => h.x == 0,
        Direction::Up => h.y == 0,
        Direction::Down => h.y == c.height - 1,
    }
}

/// On a board whose edges do not wrap, a step that carries the head over an
/// edge kills the snake and leaves every segment where it was.
pub proof fn lemma_edge_kills(pre: GameState, post: GameState, r: TickResult)
    requires
        pre.wf(),
        !pre.cfg_view().wrap_edges,
        pre.status_view() == GameStatus::Running,
        heads_outward(pre),
        GameState::stepped(pre, post, r),
    ensures
        post.status_view() == GameStatus::Dead,
        r.status == GameStatus::Dead,
        !r.ate_food,
        post.snake_view() == pre.snake_view(),
{
    assert(pre.leaves_board());
}

/// On a board whose edges wrap, a step over an edge keeps the snake alive,
/// and, unless its body blocks the cell, puts the head on the opposite edge
/// in the same row or column.
pub proof fn lemma_edge_wraps(pre: GameState, post: GameState, r: TickResult)
    requires
        pre.wf(),
        pre.cfg_view().wrap_edges,
        pre.status_view() == GameStatus::Running,
        heads_outward(pre),
        GameState::stepped(pre, post, r),
    ensures
        post.status_view() == GameStatus::Running,
        r.status == GameStatus::Running,
        !pre.blocked() ==> {
            let h = pre.head_view();
            let n = post.head_view();
            &&& post.snake_view().len() >= 1
            &&& pre.next_dir() == Direction::Right ==> n.x == 0 && n.y == h.y
            &&& pre.next_dir() == Direction::Left ==> n.x == pre.cfg_view().width - 1 && n.y == h.y
            &&& pre.next_dir() == Direction::Down ==> n.y == 0 && n.x == h.x
            &&& pre.next_dir() == Direction::Up ==> n.y == pre.cfg_view().height - 1 && n.x == h.x
        },
{
}

/// Queuing the reverse of the committed heading and stepping leaves the
/// heading as it was.
pub proof fn lemma_reverse_ignored(
    pre: GameState,
    mid: GameState,
    post: GameState,
    d: Direction,
    r: TickResult,
)
    requires
        pre.wf(),
        opposite(d, pre.dir_view()),
        GameState::queued(pre, mid, d),
        GameState::stepped(mid, post, r),
    ensures
        post.dir_view() == pre.dir_view(),
{
}

/// A step that eats adds exactly one to the score and one segment to the
/// snake; any other step keeps both.
pub proof fn lemma_growth(pre: GameState, post: GameState, r: TickResult)
    requires
        pre.wf(),
        pre.grows() ==> pre.score_view() < u32::MAX,
        GameState::stepped(pre, post, r),
    ensures
        r.ate_food ==> post.score_view() == pre.score_view() + 1 && post.snake_view().len() == pre.snake_view().len() + 1,
        !r.ate_food ==> post.score_view() == pre.score_view() && post.snake_view().len() == pre.snake_view().len(),
        r.score == post.score_view(),
{
}

/// After eating, the head stands on the cell that held the food, that cell
/// holds food no more, and besides the eaten one the food set lost nothing
/// and gained at most one cell, which lies on the board and off the snake.
pub proof fn lemma_eaten_food_gone(pre: GameState, post: GameState, r: TickResult)
    requires
        pre.wf(),
        post.wf(),
        GameState::stepped(pre, post, r),
        r.ate_food,
    ensures
        pre.food_view().contains(post.head_view()),
        !post.food_view().contains(post.head_view()),
        at_most_one_added(pre.food_view().remove(post.head_view()), post.food_view(), post.snake_view(), pre.cfg_view()),
        forall|p: Point| #[trigger]
            post.food_view().contains(p) ==> post.cfg_view().contains(p) && !post.snake_view().contains(p),
{
    assert(post.snake_view()[0] == pre.target());
    assert forall|p: Point| #[trigger] post.food_view().contains(p) implies post.cfg_view().contains(p)
        && !post.snake_view().contains(p) by {
        let i = choose|i: int| 0 <= i < post.food_seq().len() && post.food_seq()[i] == p;
        assert(post.cfg_view().contains(post.food_seq()[i]));
    }
    assert(post.snake_view().contains(post.head_view()));
}

/// Running into the body, not counting the tail, without eating is a step
/// that changes nothing but the heading: the snake stays alive and in place.
pub proof fn lemma_body_blocks(pre: GameState, post: GameState, r: TickResult)
    requires
        pre.wf(),
        pre.status_view() == GameStatus::Running,
        !pre.leaves_board(),
        !pre.eats(),
        pre.snake_view().drop_last().contains(pre.target()),
        GameState::stepped(pre, post, r),
    ensures
        post.status_view() == GameStatus::Running,
        post.snake_view() == pre.snake_view(),
        post.food_view() == pre.food_view(),
        post.score_view() == pre.score_view(),
        !r.ate_food,
        r.status == GameStatus::Running,
{
}

} // verus!
