//! The wire model of the remote game service: the payloads and responses
//! the service exchanges, and the decisions the engine takes on them.
//!
//! These types carry plain values only. The surrounding application owns
//! the serialisable copies and converts in both directions at the network
//! boundary.

#![allow(non_snake_case)]

use vstd::prelude::*;
use crate::mv::FiveInRowMove;

verus! {

#[derive(Debug, Clone)]
pub struct Coordinate {
    pub playerId: String,
    pub x: i32,
    pub y: i32,
}

#[derive(Debug, Clone)]
pub struct StatusPayload {
    pub userToken: String,
    pub gameToken: String,
}

#[derive(Debug, Clone)]
pub struct StatusResponse {
    pub statusCode: u16,
    pub playerCrossId: Option<String>,
    pub playerCircleId: Option<String>,
    pub actualPlayerId: Option<String>,
    pub winnerId: Option<String>,
    pub coordinates: Vec<Coordinate>,
}

#[derive(Debug, Clone)]
pub struct ConnectPayload {
    pub userToken: String,
}

#[derive(Debug, Clone)]
pub struct ConnectResponse {
    pub statusCode: u16,
    pub gameToken: String,
    pub gameId: String,
}

#[derive(Debug, Clone)]
pub struct RegisterPayload {
    pub nickname: String,
    pub email: String,
}

#[derive(Debug, Clone)]
pub struct RegisterResponse {
    pub statusCode: u16,
    pub userId: String,
    pub userToken: String,
}

#[derive(Debug, Clone)]
pub struct PlayPayload {
    pub userToken: String,
    pub gameToken: String,
    pub positionX: i32,
    pub positionY: i32,
}

#[derive(Debug, Clone)]
pub struct Payload {
    pub user_id: String,
}

#[derive(Debug, Clone)]
pub struct Response {
    pub id: String,
    pub name: String,
    pub score: Option<i32>,
}

impl FiveInRowMove {
    /// The move a service coordinate stands for: ours when its player id
    /// is the configured id, the rival's otherwise.
    pub open spec fn tagged_spec(c: Coordinate, user: Seq<char>) -> FiveInRowMove {
        if c.playerId@ == user {
            FiveInRowMove::Mine(c.x, c.y)
        } else {
            FiveInRowMove::Rivals(c.x, c.y)
        }
    }

    pub fn from_api_coordinates(current_user_id: &String, c: &Coordinate) -> (r: FiveInRowMove)
        ensures
            r == FiveInRowMove::tagged_spec(*c, current_user_id@),
    {
        if c.playerId.eq(current_user_id) {
            FiveInRowMove::Mine(c.x, c.y)
        } else {
            FiveInRowMove::Rivals(c.x, c.y)
        }
    }
}

/// Whether a status report ends the wait for our turn: either both players
/// are connected and it is our move, or the game has a winner.
pub open spec fn turn_reached_spec(status: StatusResponse, player_id: Seq<char>) -> bool {
    ||| {
        &&& status.actualPlayerId matches Some(cur) && cur@ == player_id
        &&& status.playerCrossId is Some
        &&& status.playerCircleId is Some
    }
    ||| status.winnerId is Some
}

/// The decision of the long-poll loop: stop polling when the status says
/// it is our turn or the game is over.
pub fn turn_reached(status: &StatusResponse, player_id: &String) -> (r: bool)
    ensures
        r == turn_reached_spec(*status, player_id@),
{
    let mut ready: bool = false;
    if let (Some(cur), Some(_), Some(_)) = (
        &status.actualPlayerId,
        &status.playerCrossId,
        &status.playerCircleId,
    ) {
        if cur.eq(player_id) {
            ready = true;
        }
    }
    if !ready {
        if let Some(_) = &status.winnerId {
            ready = true;
        }
    }
    ready
}

/// What a status report carries for the engine: the rival's last move, if
/// the report lists one, and the winner, if the game is over.
pub fn extract_turn(status: &StatusResponse, user_id: &String) -> (r: (
    Option<FiveInRowMove>,
    Option<String>,
))
    ensures
        r.0 == if status.coordinates@.len() > 0 {
            Some(FiveInRowMove::tagged_spec(status.coordinates@[0], user_id@))
        } else {
            None::<FiveInRowMove>
        },
        r.1 == status.winnerId,
{
    let rivals_move: Option<FiveInRowMove> = if status.coordinates.len() > 0 {
        Some(FiveInRowMove::from_api_coordinates(user_id, &status.coordinates[0]))
    } else {
        None
    };
    let winner: Option<String> = match &status.winnerId {
        Some(w) => Some(w.clone()),
        None => None,
    };
    (rivals_move, winner)
}

/// The pause the rate limit calls for before the next request: with at
/// least a second owed between calls, the time still missing plus a small
/// margin, or nothing once the second has passed.
pub fn throttle_pause(elapsed_ms: i64, last_call_ms: i64) -> (r: Option<i64>)
    requires
        0 <= last_call_ms <= elapsed_ms,
    ensures
        r == if 1000 - (elapsed_ms - last_call_ms) > 0 {
            Some((1000 - (elapsed_ms - last_call_ms) + 100) as i64)
        } else {
            None::<i64>
        },
{
    let remaining: i64 = 1000 - (elapsed_ms - last_call_ms);
    if remaining > 0 {
        Some(remaining + 100)
    } else {
        None
    }
}


/// What the first capture group of `pattern` matches in `text`: a pure
/// function of the two, named rather than spelled out.
pub uninterp spec fn regex_capture(pattern: Seq<char>, text: Seq<char>) -> Option<Seq<char>>;

/// Relies on regex: `Regex::new` compiles `pattern` and `captures` finds
/// its first match in `text`; what the first capture group holds depends
/// on the pattern and the text alone.
#[verifier::external_body]
fn capture_group(pattern: &str, text: &str) -> (r: Option<String>)
    ensures
        (r matches Some(s) ==> regex_capture(pattern@, text@) == Some(s@)),
        (r is None ==> regex_capture(pattern@, text@) is None),
{
    match regex::Regex::new(pattern) {
        Ok(re) => re.captures(text).and_then(|c| c.get(1)).map(|m| String::from(m.as_str())),
        Err(_) => None,
    }
}

/// The value of a decimal digit string, read left to right.
pub open spec fn digits_val(s: Seq<char>) -> int
    decreases s.len(),
{
    if s.len() == 0 {
        0
    } else {
        digits_val(s.drop_last()) * 10 + (s.last() as int - 48)
    }
}

/// Every character is a decimal digit.
pub open spec fn all_digits(s: Seq<char>) -> bool {
    forall|i: int| 0 <= i < s.len() ==> 48 <= (#[trigger] s[i]) as int <= 57
}

/// Reads a nonempty decimal digit string as an `i32`: `None` when the
/// string is empty, holds a non-digit, or overflows the type.
pub fn parse_score_digits(s: &str) -> (r: Option<i32>)
    ensures
        r == if s@.len() > 0 && all_digits(s@) && digits_val(s@) <= i32::MAX as int {
            Some(digits_val(s@) as i32)
        } else {
            None::<i32>
        },
{
    let n: usize = s.unicode_len();
    if n == 0 {
        return None;
    }
    let mut val: i64 = 0;
    let mut i: usize = 0;
    while i < n
        invariant
            0 <= i <= n,
            n == s@.len(),
            all_digits(s@.take(i as int)),
            val == digits_val(s@.take(i as int)),
            0 <= val <= i32::MAX,
        decreases n - i,
    {
        let c: char = s.get_char(i);
        let d: u32 = c as u32;
        proof {
            assert(s@.take(i + 1).drop_last() =~= s@.take(i as int));
            assert(s@.take(i + 1).last() == s@[i as int]);
        }
        if d < 48 || d > 57 {
            proof {
                assert(!all_digits(s@));
            }
            return None;
        }
        let next: i64 = val * 10 + ((d - 48) as i64);
        if next > i32::MAX as i64 {
            proof {
                lemma_digits_val_grows(s@, i + 1);
            }
            return None;
        }
        val = next;
        i = i + 1;
    }
    proof {
        assert(s@.take(n as int) =~= s@);
    }
    Some(val as i32)
}

/// A digit string's value never shrinks as it extends to the right.
proof fn lemma_digits_val_grows(s: Seq<char>, k: int)
    requires
        0 <= k <= s.len(),
        all_digits(s.take(k)),
    ensures
        digits_val(s) >= digits_val(s.take(k)) || !all_digits(s),
    decreases s.len() - k,
{
    if k < s.len() {
        if all_digits(s.take(k + 1)) {
            assert(s.take(k + 1).drop_last() =~= s.take(k));
            assert(digits_val(s.take(k + 1)) == digits_val(s.take(k)) * 10 + (s.take(k + 1).last() as int
                - 48));
            assert(digits_val(s.take(k)) >= 0) by {
                lemma_digits_val_nonneg(s.take(k));
            }
            lemma_digits_val_grows(s, k + 1);
        } else {
            assert(!all_digits(s)) by {
                let j = choose|j: int| 0 <= j < k + 1 && !(48 <= (#[trigger] s.take(k + 1)[j]) as int <= 57);
                assert(!(48 <= s[j] as int <= 57));
            }
        }
    } else {
        assert(s.take(k) =~= s);
    }
}

proof fn lemma_digits_val_nonneg(s: Seq<char>)
    requires
        all_digits(s),
    ensures
        digits_val(s) >= 0,
    decreases s.len(),
{
    if s.len() > 0 {
        assert(all_digits(s.drop_last())) by {
            assert forall|i: int| 0 <= i < s.drop_last().len() implies 48 <= (
            #[trigger] s.drop_last()[i]) as int <= 57 by {
                assert(48 <= s[i] as int <= 57);
            }
        }
        lemma_digits_val_nonneg(s.drop_last());
    }
}

/// The player-profile page, reduced to the engine's view of it: the
/// player's name from the page heading, and the score total when the
/// page lists one.
pub fn parse_player_page(body: &str, user_id: &String) -> (r: Result<Response, crate::error::FetchError>)
    ensures
        (match regex_capture("<h1>Player: ([^<]*)</h1>"@, body@) {
            Some(name) => r matches Ok(resp) && resp.id@ == user_id@ && resp.name@ == name
                && (match regex_capture(
                "(?m)<div[^>]*>\\s*<div[^>]*>\\s*Celkem bod\u{16f}:\\s*</div>\\s*<div class=\"col-md-9\">\\s*(\\d+)\\s*</div>\\s*</div>"@,
                body@,
            ) {
                Some(digits) => resp.score == if digits.len() > 0 && all_digits(digits)
                    && digits_val(digits) <= i32::MAX as int {
                    Some(digits_val(digits) as i32)
                } else {
                    None::<i32>
                },
                None => resp.score is None,
            }),
            None => r == Err::<Response, crate::error::FetchError>(
                crate::error::FetchError::ParseError,
            ),
        }),
{
    let name: String = match capture_group("<h1>Player: ([^<]*)</h1>", body) {
        Some(n) => n,
        None => {
            return Err(crate::error::FetchError::ParseError);
        },
    };
    let score: Option<i32> = match capture_group(
        "(?m)<div[^>]*>\\s*<div[^>]*>\\s*Celkem bod\u{16f}:\\s*</div>\\s*<div class=\"col-md-9\">\\s*(\\d+)\\s*</div>\\s*</div>",
        body,
    ) {
        Some(digits) => parse_score_digits(digits.as_str()),
        None => None,
    };
    Ok(Response { id: user_id.clone(), name, score })
}

} // verus!
