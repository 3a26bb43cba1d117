//! The per-session state machine: seats, scores, phase, and all command
//! validation and turn progression.

use vstd::prelude::*;

use crate::board::Board;
use crate::board::BoardIndex;
use crate::board::Shape;

verus! {

/// Every way a command can be refused. All of these are recoverable,
/// user-facing outcomes: a session is never changed when one is produced.
#[derive(Clone, Copy, PartialEq, Eq, Structural, Debug)]
pub enum GameError {
    /// A coordinate lies outside the grid.
    OutOfBounds,
    /// The target cell already holds a mark.
    AlreadyOccupied,
    /// Reserved for board lookups through an invalid index.
    UnknownIndex,
    /// An internal consistency expectation was violated; this signals a
    /// defect rather than user misuse.
    IllegalState,
    /// The issuing identity is not authorized for the attempted action in
    /// the current phase.
    Permission,
    /// A required command payload was absent.
    NoData,
    /// The token names no command valid in the current phase, or a `place`
    /// payload was malformed.
    UnknownCommand,
}

impl GameError {
    /// A short, user-facing description of the failure.
    pub fn describe(&self) -> (r: &'static str)
    {
        match self {
            GameError::OutOfBounds => "The cell is out of bounds",
            GameError::AlreadyOccupied => "This cell is already occupied",
            GameError::UnknownIndex => "Unknown cell",
            GameError::IllegalState => "Something went wrong: Illegal state",
            GameError::Permission => "You don't have permission to do that",
            GameError::NoData => "No data",
            GameError::UnknownCommand => "Command doesn't exist or is not appliable to current state",
        }
    }
}

/// An external participant: an opaque, comparable identifier plus a display
/// label. Two players are the same participant exactly when their
/// identifiers are equal; the label plays no part in identity.
#[derive(Debug)]
pub struct Player {
    pub id: u64,
    pub name: String,
}

impl Clone for Player {
    /// An exact copy.
    fn clone(&self) -> (r: Player)
        ensures
            r == *self,
    {
        Player { id: self.id, name: self.name.clone() }
    }
}

/// One line of the score table: how many rounds the identified participant
/// has won in this session. The count never decreases and survives
/// restarts; it saturates at the machine's limit rather than wrap.
#[derive(Debug)]
pub struct ScoreEntry {
    pub id: u64,
    pub name: String,
    pub wins: u64,
}

impl Clone for ScoreEntry {
    /// An exact copy.
    fn clone(&self) -> (r: ScoreEntry)
        ensures
            r == *self,
    {
        ScoreEntry { id: self.id, name: self.name.clone(), wins: self.wins }
    }
}

/// How a finished round ended.
#[derive(Clone, Copy, PartialEq, Eq, Structural, Debug)]
pub enum GameResult {
    Victory { winner: Shape },
    Draw,
}

/// The phase of a session: waiting for seats to fill, one mark's turn, or
/// a finished round (from which a restart loops back to play).
#[derive(Clone, Copy, PartialEq, Eq, Structural, Debug)]
pub enum GameState {
    Waiting,
    Turn(Shape),
    Finished(GameResult),
}

/// Some entry of `s` carries the identifier `id`.
pub open spec fn has_entry(s: Seq<ScoreEntry>, id: u64) -> bool {
    exists|i: int| 0 <= i < s.len() && s[i].id == id
}

/// Appending an entry keeps every identifier that was present.
proof fn lemma_has_entry_push(s: Seq<ScoreEntry>, e: ScoreEntry, id: u64)
    requires
        has_entry(s, id),
    ensures
        has_entry(s.push(e), id),
{
    let i = choose|i: int| 0 <= i < s.len() && s[i].id == id;
    assert(s.push(e)[i].id == id);
}

/// No two entries of `s` carry the same identifier.
pub open spec fn score_ids_unique(s: Seq<ScoreEntry>) -> bool {
    forall|i: int, j: int| 0 <= i < j < s.len() ==> s[i].id != s[j].id
}

/// One more win, held at the top of the counter's range.
pub open spec fn inc_wins(w: u64) -> u64 {
    if w < u64::MAX {
        (w + 1) as u64
    } else {
        w
    }
}

/// The entry for `id` gained one win and nothing else moved.
pub open spec fn bumped(s0: Seq<ScoreEntry>, s1: Seq<ScoreEntry>, id: u64) -> bool {
    exists|i: int|
        0 <= i < s0.len() && s0[i].id == id && s1 == s0.update(
            i,
            (ScoreEntry { id, name: s0[i].name, wins: inc_wins(s0[i].wins) }),
        )
}

/// One session's full state: the board, who sits at each mark, the win
/// counts per participant, and the phase.
pub struct Game {
    pub board: Board,
    pub player_x: Option<Player>,
    pub player_o: Option<Player>,
    pub score: Vec<ScoreEntry>,
    pub state: GameState,
}

impl Game {
    /// Who sits at mark `m`.
    pub open spec fn seat(self, m: Shape) -> Option<Player> {
        match m {
            Shape::X => self.player_x,
            Shape::O => self.player_o,
        }
    }

    /// The identified participant holds one of the seats.
    pub open spec fn seated(self, id: u64) -> bool {
        ||| match self.player_x {
            Some(p) => p.id == id,
            None => false,
        }
        ||| match self.player_o {
            Some(p) => p.id == id,
            None => false,
        }
    }

    /// Both seats are taken.
    pub open spec fn both_seated(self) -> bool {
        self.player_x is Some && self.player_o is Some
    }

    /// A round is running or just ended.
    pub open spec fn in_play(self) -> bool {
        !(self.state is Waiting)
    }

    /// The session invariant. Every public operation preserves it:
    /// the board has its nine cells; score identifiers are unique, belong
    /// to seated participants, and every seated participant has an entry
    /// (so there are at most two entries); the two seats never hold the
    /// same participant; play only happens with both seats taken; and the
    /// board is untouched while seats are still filling.
    pub open spec fn wf(self) -> bool {
        &&& self.board.wf()
        &&& score_ids_unique(self.score@)
        &&& match (self.player_x, self.player_o) {
            (Some(px), Some(po)) => px.id != po.id,
            _ => true,
        }
        &&& match self.player_x {
            Some(p) => has_entry(self.score@, p.id),
            None => true,
        }
        &&& match self.player_o {
            Some(p) => has_entry(self.score@, p.id),
            None => true,
        }
        &&& forall|i: int|
            0 <= i < self.score@.len() ==> self.seated(#[trigger] self.score@[i].id)
        &&& self.score@.len() <= 2
        &&& (self.in_play() ==> self.both_seated())
        &&& (self.state is Waiting ==> self.board.is_empty_board())
    }

    /// A session as first created: empty board, no seats, no scores,
    /// waiting for players.
    pub open spec fn is_fresh(self) -> bool {
        &&& self.board.wf() && self.board.is_empty_board()
        &&& self.player_x is None && self.player_o is None
        &&& self.score@.len() == 0
        &&& self.state == GameState::Waiting
    }

    /// Seats the participant at the first unseated mark (`X` before `O`),
    /// opening a zero score entry; refuses a participant who is already
    /// seated, and refuses everyone once both seats are taken.
    pub fn add_user(&mut self, user: Player) -> (r: Result<(), GameError>)
        requires
            old(self).wf(),
        ensures
            final(self).wf(),
            r is Err ==> *final(self) == *old(self),
            old(self).both_seated() ==> r == Err::<(), GameError>(GameError::IllegalState),
            !old(self).both_seated() && old(self).seated(user.id) ==> r == Err::<(),
                GameError,
            >(GameError::Permission),
            !old(self).both_seated() && !old(self).seated(user.id) ==> r == Ok::<(),
                GameError,
            >(()) && seated_effect(*old(self), *final(self), user),
    {
        let free_x = self.player_x.is_none();
        let free_o = self.player_o.is_none();
        if !free_x && !free_o {
            return Err(GameError::IllegalState);
        }
        match &self.player_x {
            Some(p) => {
                if p.id == user.id {
                    return Err(GameError::Permission);
                }
            },
            None => {},
        }
        match &self.player_o {
            Some(p) => {
                if p.id == user.id {
                    return Err(GameError::Permission);
                }
            },
            None => {},
        }
        proof {
            if self.score@.len() >= 2 {
                assert(self.seated(self.score@[0].id));
                assert(self.seated(self.score@[1].id));
                assert(self.score@[0].id != self.score@[1].id);
                assert(false);
            }
            assert forall|j: int| 0 <= j < self.score@.len() implies self.score@[j].id
                != user.id by {
                assert(self.seated(self.score@[j].id));
            }
        }
        self.score.push(ScoreEntry { id: user.id, name: user.name.clone(), wins: 0 });
        if free_x {
            self.player_x = Some(user);
        } else {
            self.player_o = Some(user);
        }
        proof {
            let s0 = old(self).score@;
            let s1 = self.score@;
            assert(s1[s0.len() as int].id == user.id);
            assert(has_entry(s1, user.id));
            assert forall|i: int, j: int| 0 <= i < j < s1.len() implies s1[i].id != s1[j].id by {
                if j < s0.len() as int {
                    assert(s0[i].id != s0[j].id);
                } else {
                    assert(s1[i].id == s0[i].id);
                }
            }
            assert forall|i: int| 0 <= i < s1.len() implies self.seated(
                #[trigger] s1[i].id,
            ) by {
                if i < s0.len() as int {
                    assert(old(self).seated(s0[i].id));
                }
            }
            match old(self).player_x {
                Some(p) => lemma_has_entry_push(
                    s0,
                    ScoreEntry { id: user.id, name: user.name, wins: 0 },
                    p.id,
                ),
                None => {},
            }
            match old(self).player_o {
                Some(p) => lemma_has_entry_push(
                    s0,
                    ScoreEntry { id: user.id, name: user.name, wins: 0 },
                    p.id,
                ),
                None => {},
            }
        }
        Ok(())
    }
}

/// What a successful `Join` does: the participant takes the first free
/// mark and opens a zero score entry; nothing else of the session moves.
pub open spec fn seated_effect(g0: Game, g1: Game, user: Player) -> bool {
    &&& g1.board == g0.board
    &&& g1.state == g0.state
    &&& g1.score@ == g0.score@.push((ScoreEntry { id: user.id, name: user.name, wins: 0 }))
    &&& if g0.player_x is None {
        g1.player_x == Some(user) && g1.player_o == g0.player_o
    } else {
        g1.player_x == g0.player_x && g1.player_o == Some(user)
    }
}

/// The token a command carries, if one came at all.
pub open spec fn token_view(data: Option<&Vec<u8>>) -> Option<Seq<u8>> {
    match data {
        Some(t) => Some(t@),
        None => None,
    }
}

/// What a command does to a session waiting for players: only `Join` is
/// accepted, and once the second seat fills the round starts on a fresh
/// board with mark `X` to move.
pub open spec fn waiting_post(
    g0: Game,
    g1: Game,
    from: Player,
    tok: Option<Seq<u8>>,
    r: Result<(), GameError>,
) -> bool {
    match tok {
        None => r == Err::<(), GameError>(GameError::NoData) && g1 == g0,
        Some(t) => match crate::callback_data::decode_spec(t) {
            None => r == Err::<(), GameError>(GameError::UnknownCommand) && g1 == g0,
            Some(c) => if c != crate::callback_data::CallbackData::Join {
                r == Err::<(), GameError>(GameError::UnknownCommand) && g1 == g0
            } else if g0.both_seated() {
                r == Err::<(), GameError>(GameError::IllegalState) && g1 == g0
            } else if g0.seated(from.id) {
                r == Err::<(), GameError>(GameError::Permission) && g1 == g0
            } else {
                r == Ok::<(), GameError>(()) && joined_effect(g0, g1, from)
            },
        },
    }
}

/// A `Join` that went through: the seat is taken as in [`seated_effect`],
/// and if that filled the second seat, play begins.
pub open spec fn joined_effect(g0: Game, g1: Game, from: Player) -> bool {
    &&& g1.score@ == g0.score@.push((ScoreEntry { id: from.id, name: from.name, wins: 0 }))
    &&& if g0.player_x is None {
        g1.player_x == Some(from) && g1.player_o == g0.player_o
    } else {
        g1.player_x == g0.player_x && g1.player_o == Some(from)
    }
    &&& if g0.player_x is Some || g0.player_o is Some {
        g1.state == GameState::Turn(Shape::X) && g1.board.wf() && g1.board.is_empty_board()
    } else {
        g1.state == g0.state && g1.board == g0.board
    }
}

/// What a command does while it is mark `m`'s turn: only a placement by
/// the participant seated at `m`, on a free cell within bounds, is
/// accepted.
pub open spec fn turn_post(
    g0: Game,
    g1: Game,
    m: Shape,
    from: Player,
    tok: Option<Seq<u8>>,
    r: Result<(), GameError>,
) -> bool {
    match tok {
        None => r == Err::<(), GameError>(GameError::NoData) && g1 == g0,
        Some(t) => match crate::callback_data::decode_spec(t) {
            None => r == Err::<(), GameError>(GameError::UnknownCommand) && g1 == g0,
            Some(c) => match c {
                crate::callback_data::CallbackData::Place { x, y } => match g0.seat(m) {
                    // An unseated mark during a turn cannot arise under
                    // the session invariant; the code still guards it.
                    None => r == Err::<(), GameError>(GameError::IllegalState) && g1 == g0,
                    Some(p) => if p.id != from.id {
                        r == Err::<(), GameError>(GameError::Permission) && g1 == g0
                    } else if x > 2 || y > 2 {
                        r == Err::<(), GameError>(GameError::OutOfBounds) && g1 == g0
                    } else if g0.board.cell(x as int, y as int) is Some {
                        r == Err::<(), GameError>(GameError::AlreadyOccupied) && g1 == g0
                    } else {
                        r == Ok::<(), GameError>(()) && placed_effect(g0, g1, m, x as int, y as int)
                    },
                },
                _ => r == Err::<(), GameError>(GameError::UnknownCommand) && g1 == g0,
            },
        },
    }
}

/// A placement that went through: the mark lands on the chosen cell and
/// the phase advances — a completed line finishes the round as a victory
/// and credits the winner's seated participant before anything else can
/// move the seats; a full board without one is a draw; otherwise the turn
/// passes to the other mark.
pub open spec fn placed_effect(g0: Game, g1: Game, m: Shape, x: int, y: int) -> bool {
    &&& g1.player_x == g0.player_x
    &&& g1.player_o == g0.player_o
    &&& g1.board.wf()
    &&& g1.board.cell(x, y) == Some(m)
    &&& forall|a: int, b: int|
        0 <= a < 3 && 0 <= b < 3 && !(a == x && b == y) ==> g1.board.cell(a, b)
            == g0.board.cell(a, b)
    &&& if exists|w: Shape| g1.board.winning(w) {
        exists|w: Shape|
            {
                &&& g1.board.winning(w)
                &&& g1.state == GameState::Finished(GameResult::Victory { winner: w })
                &&& match g0.seat(w) {
                    Some(p) => bumped(g0.score@, g1.score@, p.id),
                    // Unreachable under the session invariant: during a
                    // turn both marks are seated.
                    None => g1.score@ == g0.score@,
                }
            }
    } else if g1.board.full() {
        g1.state == GameState::Finished(GameResult::Draw) && g1.score@ == g0.score@
    } else {
        g1.state == GameState::Turn(m.spec_other()) && g1.score@ == g0.score@
    }
}

/// What a command does to a finished round: only `Restart`, issued by one
/// of the two seated participants, is accepted; it swaps the seats, wipes
/// the board and hands the first move to mark `X`.
pub open spec fn finished_post(
    g0: Game,
    g1: Game,
    from: Player,
    tok: Option<Seq<u8>>,
    r: Result<(), GameError>,
) -> bool {
    match tok {
        None => r == Err::<(), GameError>(GameError::NoData) && g1 == g0,
        Some(t) => match crate::callback_data::decode_spec(t) {
            None => r == Err::<(), GameError>(GameError::UnknownCommand) && g1 == g0,
            Some(c) => if c != crate::callback_data::CallbackData::Restart {
                r == Err::<(), GameError>(GameError::UnknownCommand) && g1 == g0
            } else if !g0.seated(from.id) {
                r == Err::<(), GameError>(GameError::Permission) && g1 == g0
            } else if !g0.both_seated() {
                // Unreachable under the session invariant: a finished
                // round has both seats taken.
                r == Err::<(), GameError>(GameError::IllegalState) && g1 == g0
            } else {
                r == Ok::<(), GameError>(()) && restarted_effect(g0, g1)
            },
        },
    }
}

/// A restart that went through: the two seats trade participants — the
/// scores stay keyed by participant, so no history moves — the board is
/// wiped, and mark `X` moves first again.
pub open spec fn restarted_effect(g0: Game, g1: Game) -> bool {
    &&& g1.player_x == g0.player_o
    &&& g1.player_o == g0.player_x
    &&& g1.score@ == g0.score@
    &&& g1.board.wf() && g1.board.is_empty_board()
    &&& g1.state == GameState::Turn(Shape::X)
}

/// The full transition relation of one command against one session: what
/// [`Game::process_callback`] promises, phase by phase.
pub open spec fn callback_post(
    g0: Game,
    g1: Game,
    from: Player,
    tok: Option<Seq<u8>>,
    r: Result<(), GameError>,
) -> bool {
    match g0.state {
        GameState::Waiting => waiting_post(g0, g1, from, tok, r),
        GameState::Turn(m) => turn_post(g0, g1, m, from, tok, r),
        GameState::Finished(_) => finished_post(g0, g1, from, tok, r),
    }
}

/// The wins recorded for `id`: those of the first entry carrying it, or
/// zero where none does.
pub open spec fn wins_of(s: Seq<ScoreEntry>, id: u64) -> int
    decreases s.len(),
{
    if s.len() == 0 {
        0
    } else if s[0].id == id {
        s[0].wins as int
    } else {
        wins_of(s.subrange(1, s.len() as int), id)
    }
}

/// An identifier that no entry carries records zero wins.
proof fn lemma_wins_of_absent(s: Seq<ScoreEntry>, id: u64)
    requires
        !has_entry(s, id),
    ensures
        wins_of(s, id) == 0,
    decreases s.len(),
{
    if s.len() > 0 {
        let rest = s.subrange(1, s.len() as int);
        assert forall|i: int| 0 <= i < rest.len() implies rest[i].id != id by {
            assert(rest[i] == s[i + 1]);
        }
        lemma_wins_of_absent(rest, id);
    }
}

/// Appending an entry never touches the wins already recorded, and gives
/// a newcomer its own count.
proof fn lemma_wins_of_push(s: Seq<ScoreEntry>, e: ScoreEntry, id: u64)
    ensures
        has_entry(s, id) ==> wins_of(s.push(e), id) == wins_of(s, id),
        !has_entry(s, id) && e.id == id ==> wins_of(s.push(e), id) == e.wins,
        !has_entry(s, id) && e.id != id ==> wins_of(s.push(e), id) == 0,
    decreases s.len(),
{
    if s.len() == 0 {
        assert(s.push(e)[0] == e);
        assert(s.push(e).subrange(1, 1) =~= Seq::<ScoreEntry>::empty());
        assert(wins_of(Seq::<ScoreEntry>::empty(), id) == 0);
        assert(!has_entry(s, id));
    } else {
        assert(s.push(e)[0] == s[0]);
        if s[0].id == id {
            assert(has_entry(s, id));
        } else {
            let rest = s.subrange(1, s.len() as int);
            assert(s.push(e).subrange(1, s.len() as int + 1) =~= rest.push(e));
            lemma_wins_of_push(rest, e, id);
            assert(has_entry(s, id) <==> has_entry(rest, id)) by {
                if has_entry(s, id) {
                    let i = choose|i: int| 0 <= i < s.len() && s[i].id == id;
                    assert(rest[i - 1].id == id);
                }
                if has_entry(rest, id) {
                    let i = choose|i: int| 0 <= i < rest.len() && rest[i].id == id;
                    assert(s[i + 1].id == id);
                }
            }
        }
    }
}

/// Replacing the one entry at `i` (keeping its identifier) moves that
/// identifier's count to the replacement's and no other identifier's.
proof fn lemma_wins_of_update(s: Seq<ScoreEntry>, i: int, e2: ScoreEntry, id2: u64)
    requires
        0 <= i < s.len(),
        forall|j: int| 0 <= j < s.len() && j != i ==> s[j].id != s[i].id,
        e2.id == s[i].id,
    ensures
        id2 == s[i].id ==> wins_of(s.update(i, e2), id2) == e2.wins,
        id2 != s[i].id ==> wins_of(s.update(i, e2), id2) == wins_of(s, id2),
        wins_of(s, s[i].id) == s[i].wins,
    decreases s.len(),
{
    let s1 = s.update(i, e2);
    if i == 0 {
        assert(s1[0] == e2);
        if id2 != s[0].id {
            assert(s1.subrange(1, s1.len() as int) =~= s.subrange(1, s.len() as int));
        }
    } else {
        assert(s1[0] == s[0]);
        assert(s[0].id != s[i].id);
        let rest = s.subrange(1, s.len() as int);
        assert(s1.subrange(1, s1.len() as int) =~= rest.update(i - 1, e2));
        assert(rest[i - 1] == s[i]);
        assert forall|j: int| 0 <= j < rest.len() && j != i - 1 implies (#[trigger] rest[j]).id
            != rest[i - 1].id by {
            assert(rest[j] == s[j + 1]);
        }
        lemma_wins_of_update(rest, i - 1, e2, id2);
    }
}

/// Win counts never decrease: whatever one command does to a session, the
/// count recorded for any participant stays or grows — scores persist
/// across restarts and survive every refusal untouched.
pub proof fn lemma_score_monotone(
    g0: Game,
    g1: Game,
    from: Player,
    tok: Option<Seq<u8>>,
    r: Result<(), GameError>,
    id: u64,
)
    requires
        g0.wf(),
        callback_post(g0, g1, from, tok, r),
    ensures
        wins_of(g1.score@, id) >= wins_of(g0.score@, id),
{
    if g1.score@ == g0.score@ {
    } else {
        match g0.state {
            GameState::Waiting => {
                // Only a completed join changes the table: one entry with
                // zero wins is appended.
                let e = ScoreEntry { id: from.id, name: from.name, wins: 0 };
                assert(g1.score@ == g0.score@.push(e));
                lemma_wins_of_push(g0.score@, e, id);
                if !has_entry(g0.score@, id) {
                    lemma_wins_of_absent(g0.score@, id);
                }
            },
            GameState::Turn(m) => {
                // Only a winning placement changes the table: the winner's
                // entry is bumped.
                let w = choose|w: Shape|
                    {
                        &&& g1.board.winning(w)
                        &&& g1.state == GameState::Finished(
                            GameResult::Victory { winner: w },
                        )
                        &&& match g0.seat(w) {
                            Some(p) => bumped(g0.score@, g1.score@, p.id),
                            None => g1.score@ == g0.score@,
                        }
                    };
                match g0.seat(w) {
                    Some(p) => {
                        let i = choose|i: int|
                            0 <= i < g0.score@.len() && g0.score@[i].id == p.id && g1.score@
                                == g0.score@.update(
                                i,
                                (ScoreEntry {
                                    id: p.id,
                                    name: g0.score@[i].name,
                                    wins: inc_wins(g0.score@[i].wins),
                                }),
                            );
                        assert forall|j: int|
                            0 <= j < g0.score@.len() && j != i implies g0.score@[j].id
                            != g0.score@[i].id by {}
                        lemma_wins_of_update(
                            g0.score@,
                            i,
                            ScoreEntry {
                                id: p.id,
                                name: g0.score@[i].name,
                                wins: inc_wins(g0.score@[i].wins),
                            },
                            id,
                        );
                    },
                    None => {},
                }
            },
            GameState::Finished(_) => {
                // A restart never touches the table.
            },
        }
    }
}

/// Finds the score entry carrying `id`.
fn find_entry(score: &Vec<ScoreEntry>, id: u64) -> (r: Option<usize>)
    ensures
        match r {
            Some(i) => i < score@.len() && score@[i as int].id == id,
            None => !has_entry(score@, id),
        },
{
    let mut i: usize = 0;
    while i < score.len()
        invariant
            i <= score@.len(),
            forall|j: int| 0 <= j < i ==> score@[j].id != id,
        decreases score@.len() - i,
    {
        if score[i].id == id {
            return Some(i);
        }
        i = i + 1;
    }
    None
}

/// Adds one win to the entry carrying `id`, leaving every other entry and
/// the order untouched.
fn bump_entry(score: &mut Vec<ScoreEntry>, id: u64)
    requires
        has_entry(old(score)@, id),
    ensures
        bumped(old(score)@, final(score)@, id),
        final(score)@.len() == old(score)@.len(),
        forall|j: int|
            0 <= j < old(score)@.len() ==> final(score)@[j].id == old(score)@[j].id,
{
    let mut i: usize = 0;
    while i < score.len()
        invariant
            i <= score@.len(),
            score@ == old(score)@,
            has_entry(score@, id),
            forall|j: int| 0 <= j < i ==> score@[j].id != id,
        decreases score@.len() - i,
    {
        if score[i].id == id {
            let name = score[i].name.clone();
            let w0 = score[i].wins;
            let nw: u64 = if w0 < u64::MAX {
                w0 + 1
            } else {
                w0
            };
            score[i] = ScoreEntry { id, name, wins: nw };
            proof {
                let e = ScoreEntry { id, name: old(score)@[i as int].name, wins: inc_wins(
                    old(score)@[i as int].wins,
                ) };
                assert(score@ =~= old(score)@.update(i as int, e));
            }
            return;
        }
        i = i + 1;
    }
    proof {
        assert(false);
    }
}

/// Identifier presence survives pointwise identifier-preserving updates.
proof fn lemma_same_ids_has_entry(s0: Seq<ScoreEntry>, s1: Seq<ScoreEntry>, id: u64)
    requires
        s1.len() == s0.len(),
        forall|j: int| 0 <= j < s0.len() ==> s1[j].id == s0[j].id,
        has_entry(s0, id),
    ensures
        has_entry(s1, id),
{
    let i = choose|i: int| 0 <= i < s0.len() && s0[i].id == id;
    assert(s1[i].id == id);
}

impl Game {
    /// Validates and applies one command from `from` against the current
    /// phase, as [`callback_post`] lays down; a refused command leaves the
    /// session exactly as it was.
    pub fn process_callback(&mut self, from: &Player, data: Option<&Vec<u8>>) -> (r: Result<
        (),
        GameError,
    >)
        requires
            old(self).wf(),
        ensures
            final(self).wf(),
            r is Err ==> *final(self) == *old(self),
            callback_post(*old(self), *final(self), *from, token_view(data), r),
    {
        match self.state {
            GameState::Waiting => self.process_callback_waiting(from, data),
            GameState::Turn(turn) => self.process_callback_turn(turn, from, data),
            GameState::Finished(_) => self.process_callback_finished(from, data),
        }
    }

    /// The waiting phase: a `Join` seats the sender; the second seat
    /// starts the round on a fresh board, mark `X` to move.
    fn process_callback_waiting(&mut self, from: &Player, data: Option<&Vec<u8>>) -> (r: Result<
        (),
        GameError,
    >)
        requires
            old(self).wf(),
            old(self).state == GameState::Waiting,
        ensures
            final(self).wf(),
            r is Err ==> *final(self) == *old(self),
            waiting_post(*old(self), *final(self), *from, token_view(data), r),
    {
        let t = match data {
            Some(t) => t,
            None => {
                return Err(GameError::NoData);
            },
        };
        let c = match crate::callback_data::CallbackData::decode(t) {
            Ok(c) => c,
            Err(e) => {
                return Err(e);
            },
        };
        if c != crate::callback_data::CallbackData::Join {
            return Err(GameError::UnknownCommand);
        }
        let user = Player { id: from.id, name: from.name.clone() };
        let added = self.add_user(user);
        match added {
            Err(e) => {
                return Err(e);
            },
            Ok(_) => {},
        }
        if self.player_x.is_some() && self.player_o.is_some() {
            self.board = Board::empty();
            self.state = GameState::Turn(Shape::X);
        }
        Ok(())
    }

    /// Mark `m`'s turn: a placement by the seated participant on a free
    /// cell lands the mark and advances the phase.
    fn process_callback_turn(&mut self, turn: Shape, from: &Player, data: Option<&Vec<u8>>) -> (r:
        Result<(), GameError>)
        requires
            old(self).wf(),
            old(self).state == GameState::Turn(turn),
        ensures
            final(self).wf(),
            r is Err ==> *final(self) == *old(self),
            turn_post(*old(self), *final(self), turn, *from, token_view(data), r),
    {
        let t = match data {
            Some(t) => t,
            None => {
                return Err(GameError::NoData);
            },
        };
        let c = match crate::callback_data::CallbackData::decode(t) {
            Ok(c) => c,
            Err(e) => {
                return Err(e);
            },
        };
        let (x, y) = match c {
            crate::callback_data::CallbackData::Place { x, y } => (x, y),
            _ => {
                return Err(GameError::UnknownCommand);
            },
        };
        let seat_id_opt: Option<u64> = match turn {
            Shape::X => match &self.player_x {
                Some(p) => Some(p.id),
                None => None,
            },
            Shape::O => match &self.player_o {
                Some(p) => Some(p.id),
                None => None,
            },
        };
        let seat_id = match seat_id_opt {
            Some(sid) => sid,
            None => {
                return Err(GameError::IllegalState);
            },
        };
        if seat_id != from.id {
            return Err(GameError::Permission);
        }
        let index = match crate::board::BoardIndex::new(x, y) {
            Ok(i) => i,
            Err(e) => {
                return Err(e);
            },
        };
        match self.board.get_ref(&index) {
            Some(_) => {
                return Err(GameError::AlreadyOccupied);
            },
            None => {},
        }
        self.board.set_cell(&index, turn);
        let winner = self.board.check_winner();
        match winner {
            Some(w) => {
                let wid_opt: Option<u64> = match w {
                    Shape::X => match &self.player_x {
                        Some(p) => Some(p.id),
                        None => None,
                    },
                    Shape::O => match &self.player_o {
                        Some(p) => Some(p.id),
                        None => None,
                    },
                };
                match wid_opt {
                    Some(wid) => {
                        bump_entry(&mut self.score, wid);
                        proof {
                            lemma_same_ids_has_entry(
                                old(self).score@,
                                self.score@,
                                old(self).player_x->Some_0.id,
                            );
                            lemma_same_ids_has_entry(
                                old(self).score@,
                                self.score@,
                                old(self).player_o->Some_0.id,
                            );
                        }
                    },
                    None => {},
                }
                self.state = GameState::Finished(GameResult::Victory { winner: w });
                proof {
                    assert(self.board.winning(w));
                    assert(placed_effect(
                        *old(self),
                        *self,
                        turn,
                        index.0 as int,
                        index.1 as int,
                    ));
                }
            },
            None => {
                if self.board.check_draw() {
                    self.state = GameState::Finished(GameResult::Draw);
                } else {
                    self.state = GameState::Turn(turn.other());
                }
            },
        }
        Ok(())
    }

    /// A finished round: a `Restart` from one of the two participants
    /// loops back into play with the seats swapped.
    fn process_callback_finished(&mut self, from: &Player, data: Option<&Vec<u8>>) -> (r: Result<
        (),
        GameError,
    >)
        requires
            old(self).wf(),
            old(self).state matches GameState::Finished(_),
        ensures
            final(self).wf(),
            r is Err ==> *final(self) == *old(self),
            finished_post(*old(self), *final(self), *from, token_view(data), r),
    {
        let t = match data {
            Some(t) => t,
            None => {
                return Err(GameError::NoData);
            },
        };
        let c = match crate::callback_data::CallbackData::decode(t) {
            Ok(c) => c,
            Err(e) => {
                return Err(e);
            },
        };
        if c != crate::callback_data::CallbackData::Restart {
            return Err(GameError::UnknownCommand);
        }
        let mut is_participant = false;
        match &self.player_x {
            Some(p) => {
                if p.id == from.id {
                    is_participant = true;
                }
            },
            None => {},
        }
        match &self.player_o {
            Some(p) => {
                if p.id == from.id {
                    is_participant = true;
                }
            },
            None => {},
        }
        if !is_participant {
            return Err(GameError::Permission);
        }
        self.reset()
    }

    /// Trades the participants of the two seats; scores are keyed by
    /// participant and do not move.
    fn swap_shapes(&mut self) -> (r: Result<(), GameError>)
        ensures
            r is Err ==> *final(self) == *old(self),
            !old(self).both_seated() ==> r == Err::<(), GameError>(GameError::IllegalState),
            old(self).both_seated() ==> r == Ok::<(), GameError>(())
                && final(self).player_x == old(self).player_o
                && final(self).player_o == old(self).player_x
                && final(self).board == old(self).board
                && final(self).score == old(self).score
                && final(self).state == old(self).state,
    {
        if self.player_x.is_none() || self.player_o.is_none() {
            return Err(GameError::IllegalState);
        }
        let tx = self.player_x.take();
        self.player_x = self.player_o.take();
        self.player_o = tx;
        Ok(())
    }

    /// Starts the next round: seats swapped, board wiped, mark `X` first.
    fn reset(&mut self) -> (r: Result<(), GameError>)
        requires
            old(self).wf(),
        ensures
            final(self).wf(),
            r is Err ==> *final(self) == *old(self),
            !old(self).both_seated() ==> r == Err::<(), GameError>(GameError::IllegalState),
            old(self).both_seated() ==> r == Ok::<(), GameError>(()) && restarted_effect(
                *old(self),
                *final(self),
            ),
    {
        let sw = self.swap_shapes();
        match sw {
            Err(e) => {
                return Err(e);
            },
            Ok(_) => {},
        }
        self.board = Board::empty();
        self.state = GameState::Turn(Shape::default());
        proof {
            assert forall|i: int| 0 <= i < self.score@.len() implies self.seated(
                #[trigger] self.score@[i].id,
            ) by {
                assert(old(self).seated(self.score@[i].id));
            }
        }
        Ok(())
    }
}

/// The display side of the render model handed outward: what the
/// transport layer should say about the session.
#[derive(Debug)]
pub enum MessageModel {
    /// No seat taken yet.
    WaitingForPlayers,
    /// One participant waits for an opponent.
    WaitingForOpponent { host: Player },
    /// Whose turn it is; the player is absent only in states the session
    /// invariant rules out.
    TurnOf { mark: Shape, player: Option<Player> },
    /// How the round ended, who won it, and the standings, best first,
    /// ties in seating order.
    Finished { result: GameResult, winner: Option<Player>, standings: Vec<ScoreEntry> },
}

/// The action side of the render model: what the transport layer should
/// offer the participants.
#[derive(Debug)]
pub enum ActionSurface {
    /// Offer to join.
    Join,
    /// Offer the cells still free to place on.
    Place { cells: Vec<BoardIndex> },
    /// Offer to restart.
    Restart,
}

/// The position of a cell in row-major reading order.
pub open spec fn row_major(ix: BoardIndex) -> int {
    ix.1 * 3 + ix.0
}

/// Some listed cell addresses column `x`, row `y`.
pub open spec fn contains_index(cells: Seq<BoardIndex>, x: int, y: int) -> bool {
    exists|i: int| 0 <= i < cells.len() && cells[i].0 == x && cells[i].1 == y
}

/// `cells` lists exactly the unset cells of `b`, in row-major order.
pub open spec fn open_cells_ok(b: Board, cells: Seq<BoardIndex>) -> bool {
    &&& forall|i: int|
        0 <= i < cells.len() ==> (#[trigger] cells[i]).in_bounds() && b.cell(
            cells[i].0 as int,
            cells[i].1 as int,
        ) is None
    &&& forall|x: int, y: int|
        0 <= x < 3 && 0 <= y < 3 && b.cell(x, y) is None ==> contains_index(cells, x, y)
    &&& forall|i: int, j: int|
        0 <= i < j < cells.len() ==> row_major(cells[i]) < row_major(cells[j])
}

/// The standings: the score table ordered by wins, best first. With at
/// most two entries, the stable descending order is the table itself
/// unless the second entry strictly leads.
pub open spec fn standings_spec(s: Seq<ScoreEntry>) -> Seq<ScoreEntry> {
    if s.len() == 2 && s[0].wins < s[1].wins {
        seq![s[1], s[0]]
    } else {
        s
    }
}

impl Game {
    /// The seated participant's display label, if the mark is seated.
    pub fn player_name(&self, shape: Shape) -> (r: Option<String>)
        ensures
            r == match self.seat(shape) {
                Some(p) => Some(p.name),
                None => None::<String>,
            },
    {
        match shape {
            Shape::X => match &self.player_x {
                Some(p) => Some(p.name.clone()),
                None => None,
            },
            Shape::O => match &self.player_o {
                Some(p) => Some(p.name.clone()),
                None => None,
            },
        }
    }

    /// The board, read-only.
    pub fn get_board(&self) -> (r: &Board)
        ensures
            *r == self.board,
    {
        &self.board
    }

    /// The cells still free to place on, in row-major order.
    fn open_cells(&self) -> (r: Vec<BoardIndex>)
        requires
            self.board.wf(),
        ensures
            open_cells_ok(self.board, r@),
    {
        let mut cells: Vec<BoardIndex> = Vec::new();
        let mut i: usize = 0;
        while i < 9
            invariant
                self.board.wf(),
                i <= 9,
                forall|k: int|
                    0 <= k < cells@.len() ==> (#[trigger] cells@[k]).in_bounds()
                        && self.board.cell(cells@[k].0 as int, cells@[k].1 as int) is None
                        && row_major(cells@[k]) < i,
                forall|x: int, y: int|
                    0 <= x < 3 && 0 <= y < 3 && y * 3 + x < i && self.board.cell(x, y) is None
                        ==> contains_index(cells@, x, y),
                forall|k: int, l: int|
                    0 <= k < l < cells@.len() ==> row_major(cells@[k]) < row_major(cells@[l]),
            decreases 9 - i,
        {
            let x = i % 3;
            let y = i / 3;
            let ix = BoardIndex(x, y);
            if self.board.get_ref(&ix).is_none() {
                let ghost before = cells@;
                cells.push(ix);
                proof {
                    assert forall|a: int, b: int|
                        0 <= a < 3 && 0 <= b < 3 && b * 3 + a < i + 1 && self.board.cell(
                            a,
                            b,
                        ) is None implies contains_index(cells@, a, b) by {
                        if b * 3 + a < i {
                            assert(contains_index(before, a, b));
                            let w = choose|w: int|
                                0 <= w < before.len() && before[w].0 == a && before[w].1 == b;
                            assert(cells@[w] == before[w]);
                            assert(cells@[w].0 == a && cells@[w].1 == b);
                        } else {
                            assert(b * 3 + a == i);
                            assert(ix.0 == a && ix.1 == b);
                            assert(cells@[before.len() as int] == ix);
                        }
                    }
                }
            }
            i = i + 1;
        }
        cells
    }

    /// The render model the transport layer turns into user-facing output:
    /// a message about the phase and the actions to offer. In a finished
    /// round the standings come ordered by wins, best first, ties keeping
    /// their seating order.
    pub fn as_message(&self) -> (r: (MessageModel, ActionSurface))
        requires
            self.wf(),
        ensures
            match self.state {
                GameState::Waiting => r.1 == ActionSurface::Join && match (
                    self.player_x,
                    self.player_o,
                ) {
                    (None, None) => r.0 == MessageModel::WaitingForPlayers,
                    (Some(p), _) => r.0 == (MessageModel::WaitingForOpponent { host: p }),
                    (None, Some(p)) => r.0 == (MessageModel::WaitingForOpponent { host: p }),
                },
                GameState::Turn(m) => {
                    &&& r.0 == (MessageModel::TurnOf { mark: m, player: self.seat(m) })
                    &&& r.1 matches ActionSurface::Place { cells } && open_cells_ok(
                        self.board,
                        cells@,
                    )
                },
                GameState::Finished(res) => {
                    &&& r.0 matches MessageModel::Finished { result, winner, standings }
                        && result == res && standings@ == standings_spec(self.score@)
                        && winner == match res {
                        GameResult::Victory { winner: w } => self.seat(w),
                        GameResult::Draw => None::<Player>,
                    }
                    &&& r.1 == ActionSurface::Restart
                },
            },
    {
        match self.state {
            GameState::Waiting => {
                let message = match &self.player_x {
                    Some(p) => MessageModel::WaitingForOpponent { host: p.clone() },
                    None => match &self.player_o {
                        Some(p) => MessageModel::WaitingForOpponent { host: p.clone() },
                        None => MessageModel::WaitingForPlayers,
                    },
                };
                (message, ActionSurface::Join)
            },
            GameState::Turn(m) => {
                let player = match m {
                    Shape::X => match &self.player_x {
                        Some(p) => Some(p.clone()),
                        None => None,
                    },
                    Shape::O => match &self.player_o {
                        Some(p) => Some(p.clone()),
                        None => None,
                    },
                };
                let cells = self.open_cells();
                (MessageModel::TurnOf { mark: m, player }, ActionSurface::Place { cells })
            },
            GameState::Finished(res) => {
                let winner = match res {
                    GameResult::Victory { winner: w } => match w {
                        Shape::X => match &self.player_x {
                            Some(p) => Some(p.clone()),
                            None => None,
                        },
                        Shape::O => match &self.player_o {
                            Some(p) => Some(p.clone()),
                            None => None,
                        },
                    },
                    GameResult::Draw => None,
                };
                let mut standings: Vec<ScoreEntry> = Vec::new();
                if self.score.len() == 2 && self.score[0].wins < self.score[1].wins {
                    standings.push(self.score[1].clone());
                    standings.push(self.score[0].clone());
                } else {
                    let mut i: usize = 0;
                    while i < self.score.len()
                        invariant
                            i <= self.score@.len(),
                            standings@.len() == i,
                            forall|j: int| 0 <= j < i ==> standings@[j] == self.score@[j],
                        decreases self.score@.len() - i,
                    {
                        standings.push(self.score[i].clone());
                        i = i + 1;
                    }
                }
                proof {
                    assert(standings@ =~= standings_spec(self.score@));
                }
                (
                    MessageModel::Finished { result: res, winner, standings },
                    ActionSurface::Restart,
                )
            },
        }
    }
}

impl Default for Game {
    /// A fresh session: empty board, both seats free, no scores, waiting.
    fn default() -> (r: Game)
        ensures
            r.wf(),
            r.is_fresh(),
    {
        Game {
            board: Board::empty(),
            player_x: None,
            player_o: None,
            score: Vec::new(),
            state: GameState::Waiting,
        }
    }
}

} // verus!
