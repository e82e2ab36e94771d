//! The dispatcher: from one incoming message to state changes and outbound
//! messages.
//!
//! The surrounding process owns the sockets; the library owns the decisions.
//! Each dispatch consumes a decoded `Message` together with the address of
//! the connection it arrived on, mutates the registry, and returns the list
//! of `Effect`s for the caller to perform, in order: messages to enqueue on
//! connections, a line to append to the user store, connections to drop.

use vstd::prelude::*;
use crate::game::{Color, Game, GameResult, GameStatus};
use crate::messages::{ChessError, Command, Message};
use crate::registry::{spec_registered, ServerState};
use crate::table::{str_find, u32_find, u64_find};
use crate::engine;

verus! {

/// One outward step the caller must take, in list order.
#[derive(Debug, Clone, PartialEq, Eq)]
pub enum Effect {
    /// Enqueue `message` on the connection known as `dest`.
    Send { dest: u64, message: Message },
    /// Append `name` as a line to the persisted user store.
    Append { name: String },
    /// Drop the outbound channel of the connection known as `dest`.
    Close { dest: u64 },
}

/// `e` sends the board rendering `f` to `a`.
pub open spec fn spec_is_board_msg(e: Effect, a: u64, f: Seq<char>) -> bool {
    e matches Effect::Send { dest, message: Message::Board(s) } && dest == a && s@ == f
}

/// `e` sends the log line `t` to `a`.
pub open spec fn spec_is_log_msg(e: Effect, a: u64, t: Seq<char>) -> bool {
    e matches Effect::Send { dest, message: Message::Log(s) } && dest == a && s@ == t
}

/// `e` sends the user-visible error `t` to `a`.
pub open spec fn spec_is_error_msg(e: Effect, a: u64, t: Seq<char>) -> bool {
    e matches Effect::Send { dest, message: Message::Error(s) } && dest == a && s@ == t
}

/// `e` relays the chat line `t` to `a`.
pub open spec fn spec_is_text_msg(e: Effect, a: u64, t: Seq<char>) -> bool {
    e matches Effect::Send { dest, message: Message::Text(s) } && dest == a && s@ == t
}

/// The address a seat resolves to: the seat holder's live connection.
pub open spec fn spec_seat_addr(st: &ServerState, seat: Option<String>) -> Option<u64> {
    match seat {
        Some(w) => str_find(st.users@, w@),
        None => None,
    }
}

/// The text of the whose-turn log line.
pub open spec fn spec_turn_log(gm: Game) -> Seq<char> {
    if gm.current_turn == Color::White {
        "Your turn, white player "@ + gm.white.unwrap()@ + "!"@
    } else {
        "Your turn, black player "@ + gm.black.unwrap()@ + "!"@
    }
}

/// The text of the final result log line.
pub open spec fn spec_finished_log(res: GameResult) -> Seq<char> {
    "Game finished: "@ + res.spec_describe()
}

/// The broadcast of one game state, appended to `pre`: the board rendering
/// `fen` to each connected seat, then — for a running game — the turn line
/// to the player to move, then `Check!` to both when `chk` holds, then —
/// for a finished game — the result line to both.
pub open spec fn spec_is_broadcast(
    pre: Seq<Effect>,
    post: Seq<Effect>,
    gm: Game,
    wa: Option<u64>,
    ba: Option<u64>,
    fen: Seq<char>,
    chk: bool,
) -> bool {
    let kw: int = if wa is Some {
        1
    } else {
        0
    };
    let kb: int = if ba is Some {
        1
    } else {
        0
    };
    let fin = gm.status == GameStatus::Finished;
    let turn_dest: Option<u64> = if fin {
        None
    } else if gm.current_turn == Color::White {
        wa
    } else {
        ba
    };
    let kt: int = if turn_dest is Some {
        1
    } else {
        0
    };
    let kc: int = if chk {
        kw + kb
    } else {
        0
    };
    let kf: int = if fin {
        kw + kb
    } else {
        0
    };
    let n = pre.len() as int;
    &&& post.len() == n + kw + kb + kt + kc + kf
    &&& post.subrange(0, n) == pre
    &&& (wa matches Some(a) ==> spec_is_board_msg(post[n], a, fen))
    &&& (ba matches Some(a) ==> spec_is_board_msg(post[n + kw], a, fen))
    &&& (turn_dest matches Some(a) ==> spec_is_log_msg(post[n + kw + kb], a, spec_turn_log(gm)))
    &&& (chk ==> (wa matches Some(a) ==> spec_is_log_msg(post[n + kw + kb + kt], a, "Check!"@)))
    &&& (chk ==> (ba matches Some(a) ==> spec_is_log_msg(
        post[n + kw + kb + kt + kw],
        a,
        "Check!"@,
    )))
    &&& (fin ==> gm.result is Some)
    &&& (fin ==> (wa matches Some(a) ==> spec_is_log_msg(
        post[n + kw + kb + kt + kc],
        a,
        spec_finished_log(gm.result.unwrap()),
    )))
    &&& (fin ==> (ba matches Some(a) ==> spec_is_log_msg(
        post[n + kw + kb + kt + kc + kw],
        a,
        spec_finished_log(gm.result.unwrap()),
    )))
}

/// Append the broadcast of `gm`'s state to `out`: the rendered board to both
/// seated connections, whose turn it is to the player to move, `Check!`
/// exactly when the engine reports check, and the result line when the game
/// is over.
pub fn game_state_effects(st: &ServerState, gm: &Game, out: &mut Vec<Effect>)
    requires
        gm.status == GameStatus::Finished ==> gm.result is Some,
    ensures
        spec_is_broadcast(
            old(out)@,
            final(out)@,
            *gm,
            spec_seat_addr(st, gm.white),
            spec_seat_addr(st, gm.black),
            engine::spec_fen_of(gm.board),
            engine::spec_checkers_of(gm.board) > 0,
        ),
{
    let ghost pre = out@;
    let wa = match &gm.white {
        Some(w) => st.addr_of_user(w),
        None => None,
    };
    let ba = match &gm.black {
        Some(b) => st.addr_of_user(b),
        None => None,
    };
    let fen = engine::board_fen(&gm.board);
    let ghost fen_view = fen@;
    if let Some(a) = wa {
        out.push(Effect::Send { dest: a, message: Message::Board(fen.clone()) });
    }
    if let Some(a) = ba {
        out.push(Effect::Send { dest: a, message: Message::Board(fen.clone()) });
    }
    let fin = gm.status == GameStatus::Finished;
    if !fin {
        if gm.current_turn == Color::White {
            match (wa, &gm.white) {
                (Some(a), Some(w)) => {
                    let mut t = String::from_str("Your turn, white player ");
                    t.append(w.as_str());
                    t.append("!");
                    out.push(Effect::Send { dest: a, message: Message::Log(t) });
                },
                _ => {},
            }
        } else {
            match (ba, &gm.black) {
                (Some(a), Some(b)) => {
                    let mut t = String::from_str("Your turn, black player ");
                    t.append(b.as_str());
                    t.append("!");
                    out.push(Effect::Send { dest: a, message: Message::Log(t) });
                },
                _ => {},
            }
        }
    }
    let chk = engine::checkers_count(&gm.board) > 0;
    if chk {
        if let Some(a) = wa {
            out.push(Effect::Send { dest: a, message: Message::Log(String::from_str("Check!")) });
        }
        if let Some(a) = ba {
            out.push(Effect::Send { dest: a, message: Message::Log(String::from_str("Check!")) });
        }
    }
    if fin {
        let res = gm.result.unwrap();
        if let Some(a) = wa {
            let mut t = String::from_str("Game finished: ");
            let d = res.describe();
            t.append(d.as_str());
            out.push(Effect::Send { dest: a, message: Message::Log(t) });
        }
        if let Some(a) = ba {
            let mut t = String::from_str("Game finished: ");
            let d = res.describe();
            t.append(d.as_str());
            out.push(Effect::Send { dest: a, message: Message::Log(t) });
        }
    }
    proof {
        assert(final(out)@.subrange(0, pre.len() as int) =~= pre);
        assert(spec_is_broadcast(
            pre,
            final(out)@,
            *gm,
            spec_seat_addr(st, gm.white),
            spec_seat_addr(st, gm.black),
            fen_view,
            chk,
        ));
    }
}

/// A usable identity: non-empty, no embedded line break (the store is one
/// name per line).
pub open spec fn spec_valid_username(n: Seq<char>) -> bool {
    n.len() > 0 && forall|i: int| 0 <= i < n.len() ==> n[i] != '\n'
}

/// The greeting after a first registration.
pub open spec fn spec_welcome_new(n: Seq<char>) -> Seq<char> {
    "Registered a new user. Welcome, "@ + n
        + "! Hope you are going to enjoy our chess server. Use /play to start your first game!"@
}

/// The greeting after a returning login.
pub open spec fn spec_welcome_back(n: Seq<char>) -> Seq<char> {
    "Authenticated successfully. Welcome back, "@ + n + "."@
}

/// Whether `name` can serve as a stored identity.
fn valid_username(name: &String) -> (r: bool)
    ensures
        r == spec_valid_username(name@),
{
    let s = name.as_str();
    let len = s.unicode_len();
    if len == 0 {
        return false;
    }
    let mut i: usize = 0;
    while i < len
        invariant
            i <= len,
            len == s@.len(),
            s@ == name@,
            forall|j: int| 0 <= j < i ==> s@[j] != '\n',
        decreases len - i,
    {
        if s.get_char(i) == '\n' {
            return false;
        }
        i = i + 1;
    }
    true
}

/// Everything `process_login` promises of one call, over the values it
/// was given: the state before and after, the effect list before and after,
/// and the result.
pub open spec fn spec_login_outcome(
    pre: ServerState,
    post: ServerState,
    pre_out: Seq<Effect>,
    post_out: Seq<Effect>,
    addr: u64,
    username: String,
    r: Result<(), ChessError>,
) -> bool {
    &&& post_out.len() >= pre_out.len() && post_out.subrange(0, pre_out.len() as int) == pre_out
    &&& ({
            let n0 = pre_out.len() as int;
            if pre.spec_addr_user(addr) is Some || !pre.anon@.contains(addr) {
                // not an anonymous connection: nothing changes, nothing is sent
                &&& post == pre
                &&& post_out == pre_out
                &&& r matches Err(ChessError::SenderNotFoundError(m)) && m@
                    == "no live connection for this address"@
            } else if !spec_valid_username(username@) {
                &&& post == pre
                &&& post_out.len() == n0 + 1
                &&& spec_is_error_msg(post_out[n0], addr, "Invalid username."@)
                &&& r matches Err(ChessError::AuthenticationError(m)) && m@
                    == "Invalid username."@
            } else {
                // the login succeeds
                &&& r is Ok
                &&& post.spec_user_addr(username@) == Some(addr)
                &&& post.spec_addr_user(addr) matches Some(m) && m@ == username@
                &&& forall|n2: Seq<char>| #![auto]
                    n2 != username@ ==> str_find(post.users@, n2) == str_find(
                        pre.users@,
                        n2,
                    )
                &&& forall|a: u64|
                    #[trigger] post.anon@.contains(a) <==> (pre.anon@.contains(a) && a
                        != addr)
                &&& post.games == pre.games
                &&& post.finished_games == pre.finished_games
                &&& post.user_to_game == pre.user_to_game
                &&& post.last_game_id == pre.last_game_id
                &&& forall|n2: Seq<char>|
                    #[trigger] spec_registered(post.registered@, n2) <==> (spec_registered(
                        pre.registered@,
                        n2,
                    ) || n2 == username@)
                &&& if !spec_registered(pre.registered@, username@) {
                    // freshly registered: the store grows, the caller appends
                    &&& post_out.len() == n0 + 2
                    &&& post_out[n0] matches Effect::Append { name: nm } && nm@ == username@
                    &&& spec_is_log_msg(post_out[n0 + 1], addr, spec_welcome_new(username@))
                } else if str_find(pre.users@, username@) is Some {
                    // supersede: the prior connection is told and dropped
                    let a0 = str_find(pre.users@, username@).unwrap();
                    &&& post_out.len() == n0 + 3
                    &&& spec_is_log_msg(
                        post_out[n0],
                        a0,
                        "You have been superseded by a new login"@,
                    )
                    &&& post_out[n0 + 1] == (Effect::Close { dest: a0 })
                    &&& spec_is_log_msg(post_out[n0 + 2], addr, spec_welcome_back(username@))
                    &&& post.spec_addr_user(a0) is None
                    &&& post.registered == pre.registered
                } else {
                    &&& post_out.len() == n0 + 1
                    &&& spec_is_log_msg(post_out[n0], addr, spec_welcome_back(username@))
                    &&& post.registered == pre.registered
                }
            }
        })
}

/// Log a user in, registering the name first when it is new.
///
/// The connection must be anonymous; the supersede policy applies: a prior
/// connection holding the same name is told so and dropped.  On success the
/// name is bound to this connection and the greeting is sent; every failure
/// leaves the registry as it was.
pub fn process_login(
    st: &mut ServerState,
    addr: u64,
    username: String,
    out: &mut Vec<Effect>,
) -> (r: Result<(), ChessError>)
    requires
        old(st).wf(),
    ensures
        final(st).wf(),
        spec_login_outcome(*old(st), *final(st), old(out)@, final(out)@, addr, username, r),
{
    let known = st.lookup_user_by_addr(addr).is_some();
    let in_anon = crate::table::u64_set_contains(&st.anon, addr);
    if known || !in_anon {
        proof {
            assert(final(out)@.subrange(0, old(out)@.len() as int) =~= old(out)@);
        }
        return Err(
            ChessError::SenderNotFoundError(
                String::from_str("no live connection for this address"),
            ),
        );
    }
    if !valid_username(&username) {
        let ghost n0 = out@.len();
        out.push(
            Effect::Send { dest: addr, message: Message::Error(
                String::from_str("Invalid username."),
            ) },
        );
        proof {
            assert(out@.subrange(0, n0 as int) =~= old(out)@);
        }
        return Err(ChessError::AuthenticationError(String::from_str("Invalid username.")));
    }
    let already = st.is_registered(&username);
    let greeting = if already {
        let mut t = String::from_str("Authenticated successfully. Welcome back, ");
        t.append(username.as_str());
        t.append(".");
        t
    } else {
        let mut t = String::from_str("Registered a new user. Welcome, ");
        t.append(username.as_str());
        t.append(
            "! Hope you are going to enjoy our chess server. Use /play to start your first game!",
        );
        t
    };
    if !already {
        st.register_name(username.clone());
        out.push(Effect::Append { name: username.clone() });
    }
    proof {
        if !already && str_find(st.users@, username@) is Some {
            assert(spec_registered(old(st).registered@, username@));
        }
    }
    let sup = st.promote(addr, username);
    if let Some(a0) = sup {
        out.push(
            Effect::Send { dest: a0, message: Message::Log(
                String::from_str("You have been superseded by a new login"),
            ) },
        );
        out.push(Effect::Close { dest: a0 });
    }
    out.push(Effect::Send { dest: addr, message: Message::Log(greeting) });
    proof {
        assert(final(out)@.subrange(0, old(out)@.len() as int) =~= old(out)@);
    }
    Ok(())
}

/// The first game, in creation order, that still waits for its second
/// player.
pub open spec fn spec_first_open(s: Seq<(u32, Game)>) -> Option<(u32, Game)>
    decreases s.len(),
{
    if s.len() == 0 {
        None
    } else if s[0].1.status == GameStatus::Pending {
        Some(s[0])
    } else {
        spec_first_open(s.drop_first())
    }
}

/// A found key sits at some index.
proof fn lemma_u32_find_some_index<V>(s: Seq<(u32, V)>, k: u32)
    requires
        crate::table::u32_find(s, k) is Some,
    ensures
        exists|i: int|
            0 <= i < s.len() && s[i].0 == k && crate::table::u32_find(s, k) == Some(s[i].1),
    decreases s.len(),
{
    if s.len() > 0 && s[0].0 != k {
        lemma_u32_find_some_index(s.drop_first(), k);
        let i = choose|i: int|
            0 <= i < s.drop_first().len() && s.drop_first()[i].0 == k && crate::table::u32_find(
                s.drop_first(),
                k,
            ) == Some(s.drop_first()[i].1);
        assert(s[i + 1].0 == k);
    }
}

/// What the scan found is what lookup of its id finds.
proof fn lemma_first_open_find(s: Seq<(u32, Game)>)
    requires
        crate::table::u32_unique(s),
        spec_first_open(s) is Some,
    ensures
        crate::table::u32_find(s, spec_first_open(s).unwrap().0) == Some(
            spec_first_open(s).unwrap().1,
        ),
        spec_first_open(s).unwrap().1.status == GameStatus::Pending,
    decreases s.len(),
{
    let p = spec_first_open(s).unwrap();
    if s.len() > 0 && s[0].1.status != GameStatus::Pending {
        assert(crate::table::u32_unique(s.drop_first()));
        lemma_first_open_find(s.drop_first());
        if s[0].0 == p.0 {
            lemma_u32_find_some_index(s.drop_first(), p.0);
            let i = choose|i: int|
                0 <= i < s.drop_first().len() && s.drop_first()[i].0 == p.0;
            assert(s[i + 1].0 == s[0].0);
        }
    }
}

/// The id of the first open game, if any.
fn find_open_game(games: &Vec<(u32, Game)>) -> (r: Option<u32>)
    ensures
        match r {
            Some(gid) => spec_first_open(games@) matches Some(p) && p.0 == gid,
            None => spec_first_open(games@) is None,
        },
{
    let ng = games.len();
    let mut i: usize = 0;
    proof {
        assert(games@.skip(0) =~= games@);
    }
    while i < ng
        invariant
            i <= ng,
            ng == games@.len(),
            spec_first_open(games@) == spec_first_open(games@.skip(i as int)),
        decreases ng - i,
    {
        if games[i].1.status == GameStatus::Pending {
            proof {
                assert(games@.skip(i as int)[0] == games@[i as int]);
            }
            return Some(games[i].0);
        }
        proof {
            assert(games@.skip(i as int).drop_first() =~= games@.skip(i as int + 1));
        }
        i = i + 1;
    }
    proof {
        assert(games@.skip(ng as int) =~= Seq::<(u32, Game)>::empty());
    }
    None
}

/// Everything `process_play` promises of one call.
pub open spec fn spec_play_outcome(
    pre: ServerState,
    post: ServerState,
    pre_out: Seq<Effect>,
    post_out: Seq<Effect>,
    addr: u64,
    r: Result<(), ChessError>,
) -> bool {
    &&& post_out.len() >= pre_out.len() && post_out.subrange(0, pre_out.len() as int) == pre_out
    &&& ({
            let n0 = pre_out.len() as int;
            if pre.spec_addr_user(addr) is None {
                &&& post == pre
                &&& post_out.len() == n0 + 1
                &&& spec_is_error_msg(
                    post_out[n0],
                    addr,
                    "Anonymous users cannot start games. Please use /log in."@,
                )
                &&& r matches Err(ChessError::UserStateError(m)) && m@
                    == "Failed to get username from the server state (unregistered player tried to play)."@
            } else {
                let name = pre.spec_addr_user(addr).unwrap()@;
                if str_find(pre.user_to_game@, name) is Some {
                    &&& post == pre
                    &&& post_out.len() == n0 + 1
                    &&& spec_is_error_msg(
                        post_out[n0],
                        addr,
                        "You cannot start a new game until this one is finished!"@,
                    )
                    &&& r matches Err(ChessError::UserStateError(m)) && m@
                        == "User already in a game."@
                } else if spec_first_open(pre.games@) is Some {
                    // the caller fills the open seat and the game begins
                    let gid = spec_first_open(pre.games@).unwrap().0;
                    let gm0 = spec_first_open(pre.games@).unwrap().1;
                    &&& r is Ok
                    &&& post.spec_game(gid) matches Some(g2) && g2.white == gm0.white && (
                    g2.black matches Some(b) && b@ == name) && g2.status == GameStatus::InProgress
                    &&& forall|g: u32| #![auto]
                        g != gid ==> u32_find(post.games@, g) == u32_find(
                            pre.games@,
                            g,
                        )
                    &&& forall|n2: Seq<char>| #![auto]
                        str_find(post.user_to_game@, n2) == if n2 == name {
                            Some(gid)
                        } else {
                            str_find(pre.user_to_game@, n2)
                        }
                    &&& post.users == pre.users
                    &&& post.anon == pre.anon
                    &&& post.addr_to_user == pre.addr_to_user
                    &&& post.finished_games == pre.finished_games
                    &&& post.registered == pre.registered
                    &&& post.last_game_id == pre.last_game_id
                    &&& spec_is_broadcast(
                        pre_out,
                        post_out,
                        post.spec_game(gid).unwrap(),
                        spec_seat_addr(&post, post.spec_game(gid).unwrap().white),
                        spec_seat_addr(&post, post.spec_game(gid).unwrap().black),
                        engine::spec_fen_of(post.spec_game(gid).unwrap().board),
                        engine::spec_checkers_of(post.spec_game(gid).unwrap().board) > 0,
                    )
                } else if pre.last_game_id == u32::MAX {
                    // no ids left: refused, nothing changes
                    &&& post == pre
                    &&& post_out.len() == n0 + 1
                    &&& spec_is_error_msg(
                        post_out[n0],
                        addr,
                        "The server cannot open a new game right now."@,
                    )
                    &&& r matches Err(ChessError::GameStateError(m)) && m@
                        == "The server cannot open a new game right now."@
                } else {
                    // a fresh pending game, the caller seated as White
                    let gid = pre.last_game_id;
                    &&& r is Ok
                    &&& post.last_game_id == pre.last_game_id + 1
                    &&& post.spec_game(gid) matches Some(gm) && (gm.white matches Some(w)
                        && w@ == name) && gm.black is None && gm.status == GameStatus::Pending
                        && gm.current_turn == Color::White && gm.result is None
                    &&& forall|g: u32| #![auto]
                        g != gid ==> u32_find(post.games@, g) == u32_find(
                            pre.games@,
                            g,
                        )
                    &&& forall|n2: Seq<char>| #![auto]
                        str_find(post.user_to_game@, n2) == if n2 == name {
                            Some(gid)
                        } else {
                            str_find(pre.user_to_game@, n2)
                        }
                    &&& post.users == pre.users
                    &&& post.anon == pre.anon
                    &&& post.addr_to_user == pre.addr_to_user
                    &&& post.finished_games == pre.finished_games
                    &&& post.registered == pre.registered
                    &&& post_out.len() == n0 + 1
                    &&& spec_is_log_msg(post_out[n0], addr, "You're in a game now!"@)
                }
            }
        })
}

/// Put the caller into a game: join the oldest open seat, or open a fresh
/// game and wait there.
///
/// Anonymous connections and already-seated users are refused.  When the
/// caller fills the second seat the game starts and its first state is
/// broadcast; when a fresh game is opened only the caller is told.
pub fn process_play(st: &mut ServerState, addr: u64, out: &mut Vec<Effect>) -> (r: Result<
    (),
    ChessError,
>)
    requires
        old(st).wf(),
    ensures
        final(st).wf(),
        spec_play_outcome(*old(st), *final(st), old(out)@, final(out)@, addr, r),
{
    let ghost n0 = out@.len();
    let name = match st.lookup_user_by_addr(addr) {
        Some(n) => n.clone(),
        None => {
            out.push(
                Effect::Send { dest: addr, message: Message::Error(
                    String::from_str("Anonymous users cannot start games. Please use /log in."),
                ) },
            );
            proof {
                assert(out@.subrange(0, n0 as int) =~= old(out)@);
            }
            return Err(
                ChessError::UserStateError(
                    String::from_str(
                        "Failed to get username from the server state (unregistered player tried to play).",
                    ),
                ),
            );
        },
    };
    if st.game_of(&name).is_some() {
        out.push(
            Effect::Send { dest: addr, message: Message::Error(
                String::from_str("You cannot start a new game until this one is finished!"),
            ) },
        );
        proof {
            assert(out@.subrange(0, n0 as int) =~= old(out)@);
        }
        return Err(ChessError::UserStateError(String::from_str("User already in a game.")));
    }
    match find_open_game(&st.games) {
        Some(gid) => {
            proof {
                lemma_first_open_find(st.games@);
            }
            st.seat_user(gid, name);
            match st.get_game(gid) {
                Some(g2) => {
                    game_state_effects(st, g2, out);
                },
                None => {},
            }
            proof {
                assert(out@.subrange(0, n0 as int) =~= old(out)@);
            }
            Ok(())
        },
        None => {
            if st.last_game_id == u32::MAX {
                out.push(
                    Effect::Send { dest: addr, message: Message::Error(
                        String::from_str("The server cannot open a new game right now."),
                    ) },
                );
                proof {
                    assert(out@.subrange(0, n0 as int) =~= old(out)@);
                }
                return Err(
                    ChessError::GameStateError(
                        String::from_str("The server cannot open a new game right now."),
                    ),
                );
            }
            let _gid = st.create_game(name);
            out.push(
                Effect::Send { dest: addr, message: Message::Log(
                    String::from_str("You're in a game now!"),
                ) },
            );
            proof {
                assert(out@.subrange(0, n0 as int) =~= old(out)@);
            }
            Ok(())
        },
    }
}

/// The state and effects after an accepted move: `g2` is the game on the
/// position `new_board` the engine produced, broadcast to both seats,
/// archived when the defender has no reply.
pub open spec fn spec_move_success(
    pre: ServerState,
    post: ServerState,
    pre_out: Seq<Effect>,
    post_out: Seq<Effect>,
    gid: u32,
    gm0: Game,
    new_board: chess::Board,
    g2: Game,
) -> bool {
    &&& g2.board == new_board
    &&& g2.white == gm0.white
    &&& g2.black == gm0.black
    &&& g2.current_turn == gm0.current_turn.spec_other()
    &&& if engine::spec_legal_count_of(new_board) != 0 {
        // the defender can reply: the game goes on
        &&& g2.status == GameStatus::InProgress
        &&& g2.result == gm0.result
        &&& forall|g: u32| #![auto]
            u32_find(post.games@, g) == if g == gid {
                Some(g2)
            } else {
                u32_find(pre.games@, g)
            }
        &&& post.user_to_game == pre.user_to_game
        &&& post.finished_games == pre.finished_games
    } else {
        // no reply: mate when in check, stalemate otherwise
        &&& g2.status == GameStatus::Finished
        &&& g2.result == Some(
            if engine::spec_checkers_of(new_board) > 0 {
                if gm0.current_turn == Color::White {
                    GameResult::WhiteWinsMate
                } else {
                    GameResult::BlackWinsMate
                }
            } else {
                GameResult::Draw
            },
        )
        &&& forall|g: u32| #![auto]
            u32_find(post.games@, g) == if g == gid {
                None::<Game>
            } else {
                u32_find(pre.games@, g)
            }
        &&& forall|g: u32| #![auto]
            u32_find(post.finished_games@, g) == if g == gid {
                Some(g2)
            } else {
                u32_find(pre.finished_games@, g)
            }
        &&& forall|n2: Seq<char>| #![auto]
            str_find(post.user_to_game@, n2) == if crate::game::spec_seated(&g2, n2) {
                None::<u32>
            } else {
                str_find(pre.user_to_game@, n2)
            }
    }
    &&& post.users == pre.users
    &&& post.anon == pre.anon
    &&& post.addr_to_user == pre.addr_to_user
    &&& post.registered == pre.registered
    &&& post.last_game_id == pre.last_game_id
    &&& spec_is_broadcast(
        pre_out,
        post_out,
        g2,
        spec_seat_addr(&post, g2.white),
        spec_seat_addr(&post, g2.black),
        engine::spec_fen_of(new_board),
        engine::spec_checkers_of(new_board) > 0,
    )
}

/// Everything `process_move` promises of one call.
pub open spec fn spec_move_outcome(
    pre: ServerState,
    post: ServerState,
    pre_out: Seq<Effect>,
    post_out: Seq<Effect>,
    addr: u64,
    user_move: String,
    r: Result<(), ChessError>,
) -> bool {
    &&& post_out.len() >= pre_out.len() && post_out.subrange(0, pre_out.len() as int) == pre_out
    &&& ({
        let n0 = pre_out.len() as int;
        if pre.spec_addr_user(addr) is None {
            &&& post == pre
            &&& post_out.len() == n0 + 1
            &&& spec_is_error_msg(
                post_out[n0],
                addr,
                "Anonymous users cannot make moves. Please use /log in."@,
            )
            &&& r == Err::<(), ChessError>(ChessError::UserNotFoundError)
        } else {
            let name = pre.spec_addr_user(addr).unwrap()@;
            if pre.spec_game_of(name) is None {
                &&& post == pre
                &&& post_out.len() == n0 + 1
                &&& spec_is_error_msg(
                    post_out[n0],
                    addr,
                    "You are not in a game. Start a game using /play."@,
                )
                &&& r matches Err(ChessError::GameStateError(m)) && m@ == "User "@ + name
                    + " is not currently in a game"@
            } else {
                let gid = pre.spec_game_of(name).unwrap();
                let gm0 = pre.spec_game(gid).unwrap();
                if gm0.status != GameStatus::InProgress {
                    // the game has not started: one waiting seat
                    &&& post == pre
                    &&& post_out.len() == n0 + 1
                    &&& spec_is_error_msg(
                        post_out[n0],
                        addr,
                        "The game has not started yet. We are waiting for a second player to join."@,
                    )
                    &&& r matches Err(ChessError::GameStateError(m)) && m@
                        == "The game has not started yet. We are waiting for a second player to join."@
                } else if !spec_on_turn(gm0, name) {
                    &&& post == pre
                    &&& post_out.len() == n0 + 1
                    &&& spec_is_error_msg(post_out[n0], addr, "It's not your turn."@)
                    &&& r matches Err(ChessError::GameStateError(m)) && m@
                        == "It's not your turn."@
                } else {
                    // the caller's move; the engine's verdict decides
                    &&& (r is Ok <==> (engine::spec_parse_of(user_move@) matches Some(mv)
                        && engine::spec_apply_of(gm0.board, mv) is Some))
                    &&& match r {
                        Err(e) => {
                            let t = if engine::spec_parse_of(user_move@) is None {
                                "Couldn't parse move."@
                            } else {
                                "Invalid move."@
                            };
                            &&& post == pre
                            &&& e matches ChessError::GameStateError(m) && m@ == t
                            &&& post_out.len() == n0 + 1
                            &&& spec_is_error_msg(post_out[n0], addr, t)
                        },
                        Ok(()) => engine::spec_parse_of(user_move@) matches Some(mv)
                            && engine::spec_apply_of(gm0.board, mv) matches Some(b2) && exists|
                            g2: Game,
                        |
                            #[trigger] spec_move_success(
                                pre,
                                post,
                                pre_out,
                                post_out,
                                gid,
                                gm0,
                                b2,
                                g2,
                            ),
                    }
                }
            }
        }
    })
}

/// Whether `name` holds the seat whose turn it is in `gm`.
pub open spec fn spec_on_turn(gm: Game, name: Seq<char>) -> bool {
    match gm.current_turn {
        Color::White => gm.white matches Some(w) && w@ == name,
        Color::Black => gm.black matches Some(b) && b@ == name,
    }
}

/// The seat `name` occupies in `gm`, by view.
pub open spec fn spec_seat_of_color(gm: Game, name: Seq<char>) -> Option<Color> {
    if gm.white matches Some(w) && w@ == name {
        Some(Color::White)
    } else if gm.black matches Some(b) && b@ == name {
        Some(Color::Black)
    } else {
        None::<Color>
    }
}

/// Apply the caller's move to its game.
///
/// The caller must be logged in, seated in a running game, and on turn; the
/// engine then accepts or refuses the move.  On acceptance the new state is
/// broadcast, and a mate or stalemate finishes and archives the game.  Every
/// refusal is answered to the caller alone and changes nothing.
pub fn process_move(
    st: &mut ServerState,
    addr: u64,
    user_move: String,
    out: &mut Vec<Effect>,
) -> (r: Result<(), ChessError>)
    requires
        old(st).wf(),
    ensures
        final(st).wf(),
        spec_move_outcome(*old(st), *final(st), old(out)@, final(out)@, addr, user_move, r),
{
    let ghost n0 = out@.len();
    let name = match st.lookup_user_by_addr(addr) {
        Some(n) => n.clone(),
        None => {
            out.push(
                Effect::Send { dest: addr, message: Message::Error(
                    String::from_str("Anonymous users cannot make moves. Please use /log in."),
                ) },
            );
            proof {
                assert(out@.subrange(0, n0 as int) =~= old(out)@);
            }
            return Err(ChessError::UserNotFoundError);
        },
    };
    let gid = match st.game_of(&name) {
        Some(g) => g,
        None => {
            out.push(
                Effect::Send { dest: addr, message: Message::Error(
                    String::from_str("You are not in a game. Start a game using /play."),
                ) },
            );
            proof {
                assert(out@.subrange(0, n0 as int) =~= old(out)@);
            }
            let mut t = String::from_str("User ");
            t.append(name.as_str());
            t.append(" is not currently in a game");
            return Err(ChessError::GameStateError(t));
        },
    };
    let mut game = match st.get_game(gid) {
        Some(g) => g.duplicate(),
        None => {
            proof {
                assert(false);
            }
            return Err(ChessError::Unknown);
        },
    };
    if !(game.status == GameStatus::InProgress) {
        out.push(
            Effect::Send { dest: addr, message: Message::Error(
                String::from_str(
                    "The game has not started yet. We are waiting for a second player to join.",
                ),
            ) },
        );
        proof {
            assert(out@.subrange(0, n0 as int) =~= old(out)@);
        }
        return Err(
            ChessError::GameStateError(
                String::from_str(
                    "The game has not started yet. We are waiting for a second player to join.",
                ),
            ),
        );
    }
    let my_turn = if game.current_turn == Color::White {
        match &game.white {
            Some(w) => *w == name,
            None => false,
        }
    } else {
        match &game.black {
            Some(b) => *b == name,
            None => false,
        }
    };
    if !my_turn {
        out.push(
            Effect::Send { dest: addr, message: Message::Error(
                String::from_str("It's not your turn."),
            ) },
        );
        proof {
            assert(out@.subrange(0, n0 as int) =~= old(out)@);
        }
        return Err(ChessError::GameStateError(String::from_str("It's not your turn.")));
    }
    match game.make_move(user_move.as_str()) {
        Err(e) => {
            match e {
                ChessError::GameStateError(m) => {
                    out.push(
                        Effect::Send { dest: addr, message: Message::Error(m.clone()) },
                    );
                    proof {
                        assert(out@.subrange(0, n0 as int) =~= old(out)@);
                    }
                    Err(ChessError::GameStateError(m))
                },
                _ => {
                    proof {
                        assert(false);
                    }
                    Err(ChessError::Unknown)
                },
            }
        },
        Ok(()) => {
            let mated = game.is_mate();
            if !mated {
                let _ = game.is_stalemate();
            }
            game_state_effects(st, &game, out);
            proof {
                assert(out@.subrange(0, n0 as int) =~= old(out)@);
            }
            let ghost g2 = game;
            if game.status == GameStatus::Finished {
                st.finish_game(gid, game);
            } else {
                st.update_game(gid, game);
            }
            proof {
                let gm0 = old(st).spec_game(gid).unwrap();
                assert(spec_move_success(*old(st), *st, old(out)@, out@, gid, gm0, g2.board, g2));
            }
            Ok(())
        },
    }
}

/// The state and effects after a concession: `g2` is the finished game,
/// broadcast to both seats and archived.
pub open spec fn spec_concede_success(
    pre: ServerState,
    post: ServerState,
    pre_out: Seq<Effect>,
    post_out: Seq<Effect>,
    gid: u32,
    gm0: Game,
    res: GameResult,
    g2: Game,
) -> bool {
    &&& g2.board == gm0.board
    &&& g2.white == gm0.white
    &&& g2.black == gm0.black
    &&& g2.current_turn == gm0.current_turn
    &&& g2.status == GameStatus::Finished
    &&& g2.result == Some(res)
    &&& forall|g: u32| #![auto]
        u32_find(post.games@, g) == if g == gid {
            None::<Game>
        } else {
            u32_find(pre.games@, g)
        }
    &&& forall|g: u32| #![auto]
        u32_find(post.finished_games@, g) == if g == gid {
            Some(g2)
        } else {
            u32_find(pre.finished_games@, g)
        }
    &&& forall|n2: Seq<char>| #![auto]
        str_find(post.user_to_game@, n2) == if crate::game::spec_seated(&g2, n2) {
            None::<u32>
        } else {
            str_find(pre.user_to_game@, n2)
        }
    &&& post.users == pre.users
    &&& post.anon == pre.anon
    &&& post.addr_to_user == pre.addr_to_user
    &&& post.registered == pre.registered
    &&& post.last_game_id == pre.last_game_id
    &&& spec_is_broadcast(
        pre_out,
        post_out,
        g2,
        spec_seat_addr(&post, g2.white),
        spec_seat_addr(&post, g2.black),
        engine::spec_fen_of(gm0.board),
        engine::spec_checkers_of(gm0.board) > 0,
    )
}

/// Some finished game body ties the concession together.
pub open spec fn spec_concede_ok(
    pre: ServerState,
    post: ServerState,
    pre_out: Seq<Effect>,
    post_out: Seq<Effect>,
    gid: u32,
    gm0: Game,
    res: GameResult,
) -> bool {
    exists|g2: Game|
        #[trigger] spec_concede_success(pre, post, pre_out, post_out, gid, gm0, res, g2)
}

/// Everything `process_concede` promises of one call.
pub open spec fn spec_concede_outcome(
    pre: ServerState,
    post: ServerState,
    pre_out: Seq<Effect>,
    post_out: Seq<Effect>,
    addr: u64,
    r: Result<(), ChessError>,
) -> bool {
    &&& post_out.len() >= pre_out.len() && post_out.subrange(0, pre_out.len() as int) == pre_out
    &&& ({
        let n0 = pre_out.len() as int;
        if pre.spec_addr_user(addr) is None {
            &&& post == pre
            &&& post_out.len() == n0 + 1
            &&& spec_is_error_msg(
                post_out[n0],
                addr,
                "Anonymous users cannot concede. Please use /log in."@,
            )
            &&& r == Err::<(), ChessError>(ChessError::UserNotFoundError)
        } else {
            let name = pre.spec_addr_user(addr).unwrap()@;
            if pre.spec_game_of(name) is None {
                &&& post == pre
                &&& post_out.len() == n0 + 1
                &&& spec_is_error_msg(
                    post_out[n0],
                    addr,
                    "You are not in a game. Start a game using /play."@,
                )
                &&& r matches Err(ChessError::GameStateError(m)) && m@ == "User not in game"@
            } else {
                let gid = pre.spec_game_of(name).unwrap();
                let gm0 = pre.spec_game(gid).unwrap();
                let res = if spec_seat_of_color(gm0, name) == Some(Color::White) {
                    GameResult::WhiteResigns
                } else {
                    GameResult::BlackResigns
                };
                &&& r is Ok
                &&& spec_concede_ok(pre, post, pre_out, post_out, gid, gm0, res)
            }
        }
    })
}

/// Give up the caller's game: their side resigns, the result is broadcast,
/// and the game is archived.
#[verifier::rlimit(80)]
pub fn process_concede(st: &mut ServerState, addr: u64, out: &mut Vec<Effect>) -> (r: Result<
    (),
    ChessError,
>)
    requires
        old(st).wf(),
    ensures
        final(st).wf(),
        spec_concede_outcome(*old(st), *final(st), old(out)@, final(out)@, addr, r),
{
    let ghost n0 = out@.len();
    let name = match st.lookup_user_by_addr(addr) {
        Some(n) => n.clone(),
        None => {
            out.push(
                Effect::Send { dest: addr, message: Message::Error(
                    String::from_str("Anonymous users cannot concede. Please use /log in."),
                ) },
            );
            proof {
                assert(out@.subrange(0, n0 as int) =~= old(out)@);
            }
            return Err(ChessError::UserNotFoundError);
        },
    };
    let gid = match st.game_of(&name) {
        Some(g) => g,
        None => {
            out.push(
                Effect::Send { dest: addr, message: Message::Error(
                    String::from_str("You are not in a game. Start a game using /play."),
                ) },
            );
            proof {
                assert(out@.subrange(0, n0 as int) =~= old(out)@);
            }
            return Err(ChessError::GameStateError(String::from_str("User not in game")));
        },
    };
    let mut game = match st.get_game(gid) {
        Some(g) => g.duplicate(),
        None => {
            proof {
                assert(false);
            }
            return Err(ChessError::Unknown);
        },
    };
    match game.concede(&name) {
        Ok(()) => {},
        Err(e) => {
            proof {
                assert(false);
            }
            return Err(e);
        },
    }
    game_state_effects(st, &game, out);
    proof {
        assert(out@.subrange(0, n0 as int) =~= old(out)@);
    }
    let ghost g2 = game;
    st.finish_game(gid, game);
    proof {
        // spell the witness with the same terms the outcome predicate uses
        let namev = old(st).spec_addr_user(addr).unwrap()@;
        let gidv = old(st).spec_game_of(namev).unwrap();
        let gm0v = old(st).spec_game(gidv).unwrap();
        let resv = if spec_seat_of_color(gm0v, namev) == Some(Color::White) {
            GameResult::WhiteResigns
        } else {
            GameResult::BlackResigns
        };
        assert(gidv == gid);
        assert(spec_concede_success(*old(st), *st, old(out)@, out@, gidv, gm0v, resv, g2));
        assert(spec_concede_ok(*old(st), *st, old(out)@, out@, gidv, gm0v, resv));
    }
    Ok(())
}

/// Everything `process_stats` promises: the one fixed reply.
pub open spec fn spec_stats_outcome(
    pre_out: Seq<Effect>,
    post_out: Seq<Effect>,
    addr: u64,
    r: Result<(), ChessError>,
) -> bool {
    &&& post_out.len() == pre_out.len() + 1
    &&& post_out.subrange(0, pre_out.len() as int) == pre_out
    &&& spec_is_log_msg(post_out[pre_out.len() as int], addr, "Stats not yet available"@)
    &&& r is Ok
}

/// Statistics are not kept yet; the caller is told so.
pub fn process_stats(addr: u64, out: &mut Vec<Effect>) -> (r: Result<(), ChessError>)
    ensures
        spec_stats_outcome(old(out)@, final(out)@, addr, r),
{
    let ghost n0 = out@.len();
    out.push(
        Effect::Send { dest: addr, message: Message::Log(
            String::from_str("Stats not yet available"),
        ) },
    );
    proof {
        assert(out@.subrange(0, n0 as int) =~= old(out)@);
    }
    Ok(())
}

/// Everything `process_text` promises of one call.  The state never
/// changes.
pub open spec fn spec_text_outcome(
    st: ServerState,
    pre_out: Seq<Effect>,
    post_out: Seq<Effect>,
    addr: u64,
    text: String,
    r: Result<(), ChessError>,
) -> bool {
    &&& post_out.len() == pre_out.len() + 1
    &&& post_out.subrange(0, pre_out.len() as int) == pre_out
    &&& ({
        let n0 = pre_out.len() as int;
        if st.spec_addr_user(addr) is None {
            &&& spec_is_error_msg(
                post_out[n0],
                addr,
                "Anonymous users cannot chat. Please use /log in."@,
            )
            &&& r matches Err(ChessError::UserStateError(m)) && m@ == "User not found"@
        } else {
            let name = st.spec_addr_user(addr).unwrap()@;
            if st.spec_game_of(name) is None {
                &&& spec_is_error_msg(post_out[n0], addr, "You have no opponent to chat with"@)
                &&& r matches Err(ChessError::GameStateError(m)) && m@ == "User not in game"@
            } else {
                let gm0 = st.spec_game(st.spec_game_of(name).unwrap()).unwrap();
                let opp: Option<String> = if gm0.black matches Some(b) && b@ == name {
                    gm0.white
                } else {
                    gm0.black
                };
                if opp is Some {
                    &&& spec_is_text_msg(
                        post_out[n0],
                        str_find(st.users@, opp.unwrap()@).unwrap(),
                        text@,
                    )
                    &&& r is Ok
                } else {
                    &&& spec_is_error_msg(
                        post_out[n0],
                        addr,
                        "You have no opponent to chat with"@,
                    )
                    &&& r is Ok
                }
            }
        }
    })
}

/// Relay a chat line to the caller's opponent; a caller with no opponent is
/// told so.
pub fn process_text(st: &ServerState, addr: u64, text: String, out: &mut Vec<Effect>) -> (r:
    Result<(), ChessError>)
    requires
        st.wf(),
    ensures
        spec_text_outcome(*st, old(out)@, final(out)@, addr, text, r),
{
    let ghost n0 = out@.len();
    let name = match st.lookup_user_by_addr(addr) {
        Some(n) => n.clone(),
        None => {
            out.push(
                Effect::Send { dest: addr, message: Message::Error(
                    String::from_str("Anonymous users cannot chat. Please use /log in."),
                ) },
            );
            proof {
                assert(out@.subrange(0, n0 as int) =~= old(out)@);
            }
            return Err(ChessError::UserStateError(String::from_str("User not found")));
        },
    };
    let gid = match st.game_of(&name) {
        Some(g) => g,
        None => {
            out.push(
                Effect::Send { dest: addr, message: Message::Error(
                    String::from_str("You have no opponent to chat with"),
                ) },
            );
            proof {
                assert(out@.subrange(0, n0 as int) =~= old(out)@);
            }
            return Err(ChessError::GameStateError(String::from_str("User not in game")));
        },
    };
    let game = match st.get_game(gid) {
        Some(g) => g,
        None => {
            proof {
                assert(false);
            }
            return Err(ChessError::Unknown);
        },
    };
    let black_is_me = match &game.black {
        Some(b) => *b == name,
        None => false,
    };
    let opp = if black_is_me {
        &game.white
    } else {
        &game.black
    };
    match opp {
        Some(o) => {
            match st.addr_of_user(o) {
                Some(oa) => {
                    out.push(Effect::Send { dest: oa, message: Message::Text(text) });
                    proof {
                        assert(out@.subrange(0, n0 as int) =~= old(out)@);
                    }
                    Ok(())
                },
                None => {
                    proof {
                        assert(false);
                    }
                    Err(ChessError::Unknown)
                },
            }
        },
        None => {
            out.push(
                Effect::Send { dest: addr, message: Message::Error(
                    String::from_str("You have no opponent to chat with"),
                ) },
            );
            proof {
                assert(out@.subrange(0, n0 as int) =~= old(out)@);
            }
            Ok(())
        },
    }
}

/// Everything `handle_disconnect` promises of one cleanup.
///
/// Afterwards neither the departed name nor its address appears in any
/// index; a pending game it waited in alone is gone, and a running game is
/// forfeited to the opponent and broadcast to whoever is still connected.
pub open spec fn spec_disconnect_outcome(
    pre: ServerState,
    post: ServerState,
    out_eff: Seq<Effect>,
    addr: u64,
) -> bool {
    &&& !post.anon@.contains(addr)
    &&& post.spec_addr_user(addr) is None
    &&& if pre.spec_addr_user(addr) is None {
        // an anonymous or unknown connection: silently forgotten
        &&& forall|a: u64|
            #[trigger] post.anon@.contains(a) <==> (pre.anon@.contains(a) && a != addr)
        &&& post.users == pre.users
        &&& post.addr_to_user == pre.addr_to_user
        &&& post.games == pre.games
        &&& post.finished_games == pre.finished_games
        &&& post.user_to_game == pre.user_to_game
        &&& post.registered == pre.registered
        &&& post.last_game_id == pre.last_game_id
        &&& out_eff.len() == 0
    } else {
        let name = pre.spec_addr_user(addr).unwrap()@;
        &&& str_find(post.users@, name) is None
        &&& str_find(post.user_to_game@, name) is None
        &&& forall|n2: Seq<char>| #![auto]
            n2 != name ==> str_find(post.users@, n2) == str_find(pre.users@, n2)
        &&& forall|a: u64| #![auto]
            a != addr ==> u64_find(post.addr_to_user@, a) == u64_find(pre.addr_to_user@, a)
        &&& post.anon == pre.anon
        &&& post.registered == pre.registered
        &&& post.last_game_id == pre.last_game_id
        &&& out_eff.len() >= 1
        &&& spec_is_log_msg(out_eff[0], addr, "You have been disconnected. Bye!"@)
        &&& if pre.spec_game_of(name) is None {
            &&& post.games == pre.games
            &&& post.finished_games == pre.finished_games
            &&& post.user_to_game == pre.user_to_game
            &&& out_eff.len() == 1
        } else {
            let gid = pre.spec_game_of(name).unwrap();
            let gm0 = pre.spec_game(gid).unwrap();
            &&& forall|g: u32| #![auto]
                g != gid ==> u32_find(post.games@, g) == u32_find(pre.games@, g)
            &&& u32_find(post.games@, gid) is None
            &&& forall|n2: Seq<char>| #![auto]
                str_find(post.user_to_game@, n2) == if crate::game::spec_seated(&gm0, n2) {
                    None::<u32>
                } else {
                    str_find(pre.user_to_game@, n2)
                }
            &&& if gm0.status == GameStatus::Pending {
                // the game never started: cancelled and dropped
                &&& post.finished_games == pre.finished_games
                &&& out_eff.len() == 1
            } else {
                // forfeited: the departing side resigns
                let res = if spec_seat_of_color(gm0, name) == Some(Color::White) {
                    GameResult::WhiteResigns
                } else {
                    GameResult::BlackResigns
                };
                exists|g2: Game|
                    {
                        &&& g2.board == gm0.board
                        &&& g2.white == gm0.white
                        &&& g2.black == gm0.black
                        &&& g2.current_turn == gm0.current_turn
                        &&& g2.status == GameStatus::Finished
                        &&& g2.result == Some(res)
                        &&& forall|g: u32| #![auto]
                            u32_find(post.finished_games@, g) == if g == gid {
                                Some(g2)
                            } else {
                                u32_find(pre.finished_games@, g)
                            }
                        &&& spec_is_broadcast(
                            out_eff.subrange(0, 1),
                            out_eff,
                            g2,
                            spec_seat_addr(&post, g2.white),
                            spec_seat_addr(&post, g2.black),
                            engine::spec_fen_of(gm0.board),
                            engine::spec_checkers_of(gm0.board) > 0,
                        )
                    }
            }
        }
    }
}

/// Clean up after a connection ends, in whatever state it was.
///
/// An authenticated user gets a farewell through the still-open channel
/// first; then every trace of the connection leaves the registry, a pending
/// game is cancelled, and a running game is forfeited to the opponent, who
/// sees the final state.
pub fn handle_disconnect(st: &mut ServerState, addr: u64) -> (out: Vec<Effect>)
    requires
        old(st).wf(),
    ensures
        final(st).wf(),
        spec_disconnect_outcome(*old(st), *final(st), out@, addr),
{
    let mut out: Vec<Effect> = Vec::new();
    let name = match st.lookup_user_by_addr(addr) {
        Some(n) => n.clone(),
        None => {
            let _ = st.remove_anon(addr);
            return out;
        },
    };
    out.push(
        Effect::Send { dest: addr, message: Message::Log(
            String::from_str("You have been disconnected. Bye!"),
        ) },
    );
    let mut to_broadcast: Option<Game> = None;
    let ghost gid_ghost: u32 = 0u32;
    match st.game_of(&name) {
        None => {},
        Some(gid) => {
            let pending = match st.get_game(gid) {
                Some(g) => g.status == GameStatus::Pending,
                None => {
                    proof {
                        assert(false);
                    }
                    false
                },
            };
            if pending {
                st.cancel_game(gid);
            } else {
                let mut g2 = match st.get_game(gid) {
                    Some(g) => g.duplicate(),
                    None => {
                        proof {
                            assert(false);
                        }
                        Game::new()
                    },
                };
                match g2.concede(&name) {
                    Ok(()) => {},
                    Err(_) => {
                        proof {
                            assert(false);
                        }
                    },
                }
                let gcast = g2.duplicate();
                st.finish_game(gid, g2);
                to_broadcast = Some(gcast);
            }
        },
    }
    st.remove_user_binding(addr);
    match &to_broadcast {
        Some(gcast) => {
            proof {
                assert(out@.subrange(0, 1) =~= out@);
            }
            game_state_effects(st, gcast, &mut out);
        },
        None => {},
    }
    out
}

/// One decoded message in, the state change and the replies out.
///
/// This is the single entry point of the dispatcher: the caller hands in
/// who spoke (by address) and what arrived, performs the returned effects
/// in order, and logs the returned result.  A message variant that only the
/// server may send is a protocol violation and closes the connection.
pub fn process_message(st: &mut ServerState, addr: u64, message: Message) -> (r: (
    Vec<Effect>,
    Result<(), ChessError>,
))
    requires
        old(st).wf(),
    ensures
        final(st).wf(),
        match message {
            Message::Command(Command::LogIn(u)) => spec_login_outcome(
                *old(st),
                *final(st),
                Seq::<Effect>::empty(),
                r.0@,
                addr,
                u,
                r.1,
            ),
            Message::Command(Command::Play) => spec_play_outcome(
                *old(st),
                *final(st),
                Seq::<Effect>::empty(),
                r.0@,
                addr,
                r.1,
            ),
            Message::Command(Command::Concede) => spec_concede_outcome(
                *old(st),
                *final(st),
                Seq::<Effect>::empty(),
                r.0@,
                addr,
                r.1,
            ),
            Message::Command(Command::Stats) => *final(st) == *old(st) && spec_stats_outcome(
                Seq::<Effect>::empty(),
                r.0@,
                addr,
                r.1,
            ),
            Message::Move(s) => spec_move_outcome(
                *old(st),
                *final(st),
                Seq::<Effect>::empty(),
                r.0@,
                addr,
                s,
                r.1,
            ),
            Message::Text(s) => *final(st) == *old(st) && spec_text_outcome(
                *old(st),
                Seq::<Effect>::empty(),
                r.0@,
                addr,
                s,
                r.1,
            ),
            Message::Board(_) => *final(st) == *old(st) && spec_reject_outcome(
                r.0@,
                r.1,
                addr,
                "Expected Command, Move or Text, received Board"@,
            ),
            Message::Error(_) => *final(st) == *old(st) && spec_reject_outcome(
                r.0@,
                r.1,
                addr,
                "Expected Command, Move or Text, received Error"@,
            ),
            Message::Log(_) => *final(st) == *old(st) && spec_reject_outcome(
                r.0@,
                r.1,
                addr,
                "Expected Command, Move or Text, received Log"@,
            ),
        },
{
    let mut out: Vec<Effect> = Vec::new();
    let res: Result<(), ChessError> = match message {
        Message::Command(command) => {
            match command {
                Command::LogIn(username) => process_login(st, addr, username, &mut out),
                Command::Play => process_play(st, addr, &mut out),
                Command::Concede => process_concede(st, addr, &mut out),
                Command::Stats => process_stats(addr, &mut out),
            }
        },
        Message::Move(player_move) => process_move(st, addr, player_move, &mut out),
        Message::Text(text) => process_text(st, addr, text, &mut out),
        Message::Board(_) => {
            out.push(Effect::Close { dest: addr });
            Err(
                ChessError::MessageHandlingError(
                    String::from_str("Expected Command, Move or Text, received Board"),
                ),
            )
        },
        Message::Error(_) => {
            out.push(Effect::Close { dest: addr });
            Err(
                ChessError::MessageHandlingError(
                    String::from_str("Expected Command, Move or Text, received Error"),
                ),
            )
        },
        Message::Log(_) => {
            out.push(Effect::Close { dest: addr });
            Err(
                ChessError::MessageHandlingError(
                    String::from_str("Expected Command, Move or Text, received Log"),
                ),
            )
        },
    };
    (out, res)
}

/// A message variant only the server may send: the connection is closed.
pub open spec fn spec_reject_outcome(
    out_eff: Seq<Effect>,
    r: Result<(), ChessError>,
    addr: u64,
    text: Seq<char>,
) -> bool {
    &&& out_eff.len() == 1
    &&& out_eff[0] == (Effect::Close { dest: addr })
    &&& r matches Err(ChessError::MessageHandlingError(m)) && m@ == text
}

/// The law of one game-state broadcast to a running game with both players
/// connected: both receive the same board rendering, and exactly one of
/// them — the player to move — receives the whose-turn line.
pub proof fn lemma_broadcast_one_turn_log(
    pre: Seq<Effect>,
    post: Seq<Effect>,
    gm: Game,
    wa: u64,
    ba: u64,
    fen: Seq<char>,
    chk: bool,
)
    requires
        spec_is_broadcast(pre, post, gm, Some(wa), Some(ba), fen, chk),
        gm.status == GameStatus::InProgress,
        gm.white is Some,
        gm.black is Some,
    ensures
        spec_is_board_msg(post[pre.len() as int], wa, fen),
        spec_is_board_msg(post[pre.len() as int + 1], ba, fen),
        spec_is_log_msg(
            post[pre.len() as int + 2],
            if gm.current_turn == Color::White {
                wa
            } else {
                ba
            },
            spec_turn_log(gm),
        ),
        forall|i: int|
            pre.len() <= i < post.len() && i != pre.len() + 2 ==> !spec_is_log_msg(
                post[i],
                if gm.current_turn == Color::White {
                    wa
                } else {
                    ba
                },
                spec_turn_log(gm),
            ),
{
    let n = pre.len() as int;
    reveal_strlit("Check!");
    reveal_strlit("Your turn, white player ");
    reveal_strlit("Your turn, black player ");
    reveal_strlit("!");
    assert("Check!"@.len() == 6);
    assert(spec_turn_log(gm).len() >= 25);
    assert forall|i: int|
        n <= i < post.len() && i != n + 2 implies !spec_is_log_msg(
        post[i],
        if gm.current_turn == Color::White {
            wa
        } else {
            ba
        },
        spec_turn_log(gm),
    ) by {
        if i == n || i == n + 1 {
        } else {
            // whatever else follows carries the six-character check call,
            // never the longer turn line
            assert(chk && (i == n + 3 || i == n + 4));
            if i == n + 3 {
                assert(spec_is_log_msg(post[i], wa, "Check!"@));
            } else {
                assert(spec_is_log_msg(post[i], ba, "Check!"@));
            }
        }
    }
}

} // verus!
