//! The session registry: the server's in-memory state.
//!
//! Three interlocked indexes tie a live connection (by its address) to a
//! user (by name) and a user to the game it sits in, beside the active and
//! finished game maps, the mirror of the registered-user store and the
//! monotonic game-id allocator.  `wf` states the invariants that hold
//! between dispatches; every operation here preserves them.

use vstd::prelude::*;
use crate::game::{Color, Game, GameStatus};
use crate::table::{
    nodup_u64, str_find, str_unique, u32_find, u32_unique, u64_find, u64_unique,
};

verus! {

/// The server's whole in-memory state.
///
/// Addresses are the plain numbers under which the surrounding process
/// knows its live connections; the registry never interprets them.
pub struct ServerState {
    /// Connections that have not logged in yet.
    pub anon: Vec<u64>,
    /// Authenticated name to the address of its one live connection.
    pub users: Vec<(String, u64)>,
    /// Address of an authenticated connection back to its name.
    pub addr_to_user: Vec<(u64, String)>,
    /// Active games (`Pending` or `InProgress`), oldest first.
    pub games: Vec<(u32, Game)>,
    /// Finished games, kept for the record.
    pub finished_games: Vec<(u32, Game)>,
    /// Seated user to the id of its active game.
    pub user_to_game: Vec<(String, u32)>,
    /// Mirror of the persisted user store, one name per line.
    pub registered: Vec<String>,
    /// The next game id to hand out; every existing id is below it.
    pub last_game_id: u32,
}

/// Whether `n` is a registered name.
pub open spec fn spec_registered(s: Seq<String>, n: Seq<char>) -> bool {
    exists|i: int| 0 <= i < s.len() && s[i]@ == n
}

impl ServerState {
    /// The address of `n`'s live connection, if `n` is logged in.
    pub open spec fn spec_user_addr(&self, n: Seq<char>) -> Option<u64> {
        str_find(self.users@, n)
    }

    /// The name logged in over address `a`, if any.
    pub open spec fn spec_addr_user(&self, a: u64) -> Option<String> {
        u64_find(self.addr_to_user@, a)
    }

    /// The active game with id `g`, if any.
    pub open spec fn spec_game(&self, g: u32) -> Option<Game> {
        u32_find(self.games@, g)
    }

    /// The id of the active game `n` sits in, if any.
    pub open spec fn spec_game_of(&self, n: Seq<char>) -> Option<u32> {
        str_find(self.user_to_game@, n)
    }

    /// The invariants of the registry; they hold whenever the dispatcher is
    /// at rest.
    pub open spec fn wf(&self) -> bool {
        // each index has pairwise-distinct keys
        &&& str_unique(self.users@)
        &&& u64_unique(self.addr_to_user@)
        &&& u32_unique(self.games@)
        &&& u32_unique(self.finished_games@)
        &&& str_unique(self.user_to_game@)
        &&& nodup_u64(self.anon@)
        // a connection is anonymous or authenticated, never both
        &&& forall|a: u64| self.anon@.contains(a) ==> self.spec_addr_user(a) is None
        // users and addr_to_user are the two directions of one relation
        &&& forall|n: Seq<char>|
            #[trigger] str_find(self.users@, n) matches Some(a) ==> (u64_find(
                self.addr_to_user@,
                a,
            ) matches Some(m) && m@ == n)
        &&& forall|a: u64|
            #[trigger] u64_find(self.addr_to_user@, a) matches Some(m) ==> str_find(
                self.users@,
                m@,
            ) == Some(a)
        // every authenticated name is registered
        &&& forall|n: Seq<char>|
            #[trigger] str_find(self.users@, n) is Some ==> spec_registered(self.registered@, n)
        // active games are Pending with one seat or InProgress with both
        &&& forall|g: u32|
            #[trigger] u32_find(self.games@, g) matches Some(gm) ==> {
                &&& (gm.status == GameStatus::Pending || gm.status == GameStatus::InProgress)
                &&& (gm.status == GameStatus::Pending ==> gm.white is Some && gm.black is None)
                &&& (gm.status == GameStatus::InProgress ==> gm.white is Some && gm.black is Some)
            }
        // a user maps to a game exactly when it occupies one of its seats
        &&& forall|n: Seq<char>|
            #[trigger] str_find(self.user_to_game@, n) matches Some(g) ==> (u32_find(
                self.games@,
                g,
            ) matches Some(gm) && crate::game::spec_seated(&gm, n))
        &&& forall|g: u32|
            #[trigger] u32_find(self.games@, g) matches Some(gm) ==> {
                &&& (gm.white matches Some(w) ==> str_find(self.user_to_game@, w@) == Some(g))
                &&& (gm.black matches Some(b) ==> str_find(self.user_to_game@, b@) == Some(g))
            }
        // every seated user is connected
        &&& forall|g: u32|
            #[trigger] u32_find(self.games@, g) matches Some(gm) ==> {
                &&& (gm.white matches Some(w) ==> str_find(self.users@, w@) is Some)
                &&& (gm.black matches Some(b) ==> str_find(self.users@, b@) is Some)
            }
        // whoever maps to a game is connected
        &&& forall|n: Seq<char>|
            #[trigger] str_find(self.user_to_game@, n) is Some ==> str_find(self.users@, n) is Some
        // the id allocator is above every id ever handed out
        &&& forall|g: u32| #[trigger] u32_find(self.games@, g) is Some ==> g < self.last_game_id
        &&& forall|g: u32|
            #[trigger] u32_find(self.finished_games@, g) is Some ==> g < self.last_game_id
        // an id is active or archived, never both
        &&& forall|g: u32|
            #[trigger] u32_find(self.games@, g) is Some ==> u32_find(self.finished_games@, g)
                is None
        // the archive holds finished games only
        &&& forall|g: u32|
            #[trigger] u32_find(self.finished_games@, g) matches Some(gm) ==> gm.status
                == GameStatus::Finished
    }

    /// A fresh registry over the given store mirror: no connections, no
    /// games, ids starting at zero.
    pub fn new(registered: Vec<String>) -> (s: ServerState)
        ensures
            s.wf(),
            s.anon@.len() == 0,
            s.users@.len() == 0,
            s.addr_to_user@.len() == 0,
            s.games@.len() == 0,
            s.finished_games@.len() == 0,
            s.user_to_game@.len() == 0,
            s.registered == registered,
            s.last_game_id == 0u32,
    {
        ServerState {
            anon: Vec::new(),
            users: Vec::new(),
            addr_to_user: Vec::new(),
            games: Vec::new(),
            finished_games: Vec::new(),
            user_to_game: Vec::new(),
            registered,
            last_game_id: 0,
        }
    }

    /// Whether `name` is in the registered-user store.
    pub fn is_registered(&self, name: &String) -> (r: bool)
        ensures
            r == spec_registered(self.registered@, name@),
    {
        let n = self.registered.len();
        let mut i: usize = 0;
        while i < n
            invariant
                i <= n,
                n == self.registered@.len(),
                forall|j: int| 0 <= j < i ==> self.registered@[j]@ != name@,
            decreases n - i,
        {
            if self.registered[i] == *name {
                return true;
            }
            i = i + 1;
        }
        false
    }

    /// Add `name` to the store mirror.  The caller appends the same line to
    /// the persisted file.
    pub fn register_name(&mut self, name: String)
        requires
            old(self).wf(),
        ensures
            final(self).wf(),
            final(self).registered@ == old(self).registered@.push(name),
            forall|n2: Seq<char>|
                #[trigger] spec_registered(final(self).registered@, n2) <==> (spec_registered(
                    old(self).registered@,
                    n2,
                ) || n2 == name@),
            final(self).anon == old(self).anon,
            final(self).users == old(self).users,
            final(self).addr_to_user == old(self).addr_to_user,
            final(self).games == old(self).games,
            final(self).finished_games == old(self).finished_games,
            final(self).user_to_game == old(self).user_to_game,
            final(self).last_game_id == old(self).last_game_id,
    {
        let ghost oldreg = self.registered@;
        let ghost nm = name@;
        self.registered.push(name);
        proof {
            assert forall|n2: Seq<char>|
                #[trigger] spec_registered(self.registered@, n2) <==> (spec_registered(oldreg, n2)
                    || n2 == nm) by {
                if spec_registered(self.registered@, n2) {
                    let i = choose|i: int|
                        0 <= i < self.registered@.len() && self.registered@[i]@ == n2;
                    if i < oldreg.len() {
                        assert(oldreg[i]@ == n2);
                    }
                }
                if spec_registered(oldreg, n2) {
                    let i = choose|i: int| 0 <= i < oldreg.len() && oldreg[i]@ == n2;
                    assert(self.registered@[i]@ == n2);
                }
                if n2 == nm {
                    assert(self.registered@[oldreg.len() as int]@ == n2);
                }
            }
        }
    }

    /// Record a new, still-anonymous connection.
    pub fn attach_anon(&mut self, addr: u64)
        requires
            old(self).wf(),
            !old(self).anon@.contains(addr),
            old(self).spec_addr_user(addr) is None,
        ensures
            final(self).wf(),
            final(self).anon@ == old(self).anon@.push(addr),
            forall|a: u64|
                #[trigger] final(self).anon@.contains(a) <==> (old(self).anon@.contains(a) || a
                    == addr),
            final(self).users == old(self).users,
            final(self).addr_to_user == old(self).addr_to_user,
            final(self).games == old(self).games,
            final(self).finished_games == old(self).finished_games,
            final(self).user_to_game == old(self).user_to_game,
            final(self).registered == old(self).registered,
            final(self).last_game_id == old(self).last_game_id,
    {
        let ghost oldanon = self.anon@;
        self.anon.push(addr);
        proof {
            assert forall|a: u64|
                #[trigger] self.anon@.contains(a) <==> (oldanon.contains(a) || a == addr) by {
                if oldanon.contains(a) {
                    let i = choose|i: int| 0 <= i < oldanon.len() && oldanon[i] == a;
                    assert(self.anon@[i] == a);
                }
                if a == addr {
                    assert(self.anon@[oldanon.len() as int] == a);
                }
                if self.anon@.contains(a) {
                    let i = choose|i: int| 0 <= i < self.anon@.len() && self.anon@[i] == a;
                    if i < oldanon.len() {
                        assert(oldanon[i] == a);
                    }
                }
            }
        }
    }

    /// Forget an anonymous connection, if it is one.
    pub fn remove_anon(&mut self, addr: u64) -> (was: bool)
        requires
            old(self).wf(),
        ensures
            final(self).wf(),
            was == old(self).anon@.contains(addr),
            forall|a: u64|
                #[trigger] final(self).anon@.contains(a) <==> (old(self).anon@.contains(a) && a
                    != addr),
            final(self).users == old(self).users,
            final(self).addr_to_user == old(self).addr_to_user,
            final(self).games == old(self).games,
            final(self).finished_games == old(self).finished_games,
            final(self).user_to_game == old(self).user_to_game,
            final(self).registered == old(self).registered,
            final(self).last_game_id == old(self).last_game_id,
    {
        crate::table::u64_set_remove(&mut self.anon, addr)
    }

    /// The name logged in over `addr`, if any.
    pub fn lookup_user_by_addr(&self, addr: u64) -> (r: Option<&String>)
        ensures
            match r {
                Some(m) => self.spec_addr_user(addr) == Some(*m),
                None => self.spec_addr_user(addr) is None,
            },
    {
        crate::table::u64_get(&self.addr_to_user, addr)
    }

    /// The id of the active game `name` sits in, if any.
    pub fn game_of(&self, name: &String) -> (r: Option<u32>)
        ensures
            r == self.spec_game_of(name@),
    {
        match crate::table::str_get(&self.user_to_game, name) {
            Some(g) => Some(*g),
            None => None,
        }
    }

    /// A borrow of the active game with id `gid`, if any.
    pub fn get_game(&self, gid: u32) -> (r: Option<&Game>)
        ensures
            match r {
                Some(g) => self.spec_game(gid) == Some(*g),
                None => self.spec_game(gid) is None,
            },
    {
        crate::table::u32_get(&self.games, gid)
    }

    /// The address of `name`'s live connection, if `name` is logged in.
    pub fn addr_of_user(&self, name: &String) -> (r: Option<u64>)
        ensures
            r == self.spec_user_addr(name@),
    {
        match crate::table::str_get(&self.users, name) {
            Some(a) => Some(*a),
            None => None,
        }
    }

    /// Turn the anonymous connection at `addr` into `name`'s connection.
    ///
    /// This library follows the supersede policy: when `name` is already
    /// logged in over another connection, that prior connection loses its
    /// binding and its address is handed back, so that the caller can notify
    /// and drop it.
    pub fn promote(&mut self, addr: u64, name: String) -> (sup: Option<u64>)
        requires
            old(self).wf(),
            old(self).anon@.contains(addr),
            spec_registered(old(self).registered@, name@),
        ensures
            final(self).wf(),
            sup == str_find(old(self).users@, name@),
            forall|a: u64|
                #[trigger] final(self).anon@.contains(a) <==> (old(self).anon@.contains(a) && a
                    != addr),
            forall|n2: Seq<char>| #![auto]
                str_find(final(self).users@, n2) == if n2 == name@ {
                    Some(addr)
                } else {
                    str_find(old(self).users@, n2)
                },
            u64_find(final(self).addr_to_user@, addr) matches Some(m) && m@ == name@,
            forall|a: u64| #![auto]
                a != addr && Some(a) != sup ==> u64_find(final(self).addr_to_user@, a) == u64_find(
                    old(self).addr_to_user@,
                    a,
                ),
            sup matches Some(a0) ==> a0 != addr && u64_find(final(self).addr_to_user@, a0) is None,
            final(self).games == old(self).games,
            final(self).finished_games == old(self).finished_games,
            final(self).user_to_game == old(self).user_to_game,
            final(self).registered == old(self).registered,
            final(self).last_game_id == old(self).last_game_id,
    {
        let sup = crate::table::str_remove(&mut self.users, &name);
        if let Some(a0) = sup {
            proof {
                // the superseded address is an authenticated one, so it is
                // neither the anonymous `addr` nor still wanted in the index
                assert(u64_find(old(self).addr_to_user@, a0) matches Some(m) && m@ == name@);
            }
            let _ = crate::table::u64_remove(&mut self.addr_to_user, a0);
        }
        crate::table::u64_set_remove(&mut self.anon, addr);
        let ghost name_snap = name@;
        let name_copy = name.clone();
        crate::table::str_insert(&mut self.users, name, addr);
        crate::table::u64_insert(&mut self.addr_to_user, addr, name_copy);
        proof {
            let post = *self;
            let pre = *old(self);
            // forward direction of the bijection
            assert forall|n: Seq<char>|
                #![trigger str_find(post.users@, n)]
                (str_find(post.users@, n) matches Some(a) ==> (u64_find(post.addr_to_user@, a)
                    matches Some(m) && m@ == n)) by {
                if n != name_snap && str_find(post.users@, n) is Some {
                    let a = str_find(post.users@, n).unwrap();
                    assert(str_find(pre.users@, n) == Some(a));
                    if Some(a) == sup {
                        assert(u64_find(pre.addr_to_user@, a) matches Some(m0) && m0@
                            == name_snap);
                        assert(str_find(pre.users@, name_snap) == Some(a));
                        assert(n == name_snap);
                    }
                    assert(a != addr);
                }
            }
            // backward direction of the bijection
            assert forall|a: u64|
                #![trigger u64_find(post.addr_to_user@, a)]
                (u64_find(post.addr_to_user@, a) matches Some(m) ==> str_find(post.users@, m@)
                    == Some(a)) by {
                if a != addr && u64_find(post.addr_to_user@, a) is Some {
                    let m = u64_find(post.addr_to_user@, a).unwrap();
                    assert(Some(a) != sup);
                    assert(u64_find(pre.addr_to_user@, a) == Some(m));
                    assert(str_find(pre.users@, m@) == Some(a));
                    if m@ == name_snap {
                        assert(sup == Some(a));
                    }
                }
            }
            // names that were connected stay connected
            assert forall|n: Seq<char>|
                str_find(pre.users@, n) is Some implies #[trigger] str_find(post.users@, n)
                    is Some by {}
        }
        sup
    }

    /// Forget the authenticated connection at `addr`: both directions of
    /// the name/address relation go.  The user must not be seated anywhere
    /// any more.
    pub fn remove_user_binding(&mut self, addr: u64)
        requires
            old(self).wf(),
            old(self).spec_addr_user(addr) matches Some(m) && str_find(
                old(self).user_to_game@,
                m@,
            ) is None,
        ensures
            final(self).wf(),
            ({
                let m = old(self).spec_addr_user(addr).unwrap();
                &&& forall|n2: Seq<char>| #![auto]
                    str_find(final(self).users@, n2) == if n2 == m@ {
                        None::<u64>
                    } else {
                        str_find(old(self).users@, n2)
                    }
                &&& forall|a: u64| #![auto]
                    u64_find(final(self).addr_to_user@, a) == if a == addr {
                        None::<String>
                    } else {
                        u64_find(old(self).addr_to_user@, a)
                    }
            }),
            final(self).anon == old(self).anon,
            final(self).games == old(self).games,
            final(self).finished_games == old(self).finished_games,
            final(self).user_to_game == old(self).user_to_game,
            final(self).registered == old(self).registered,
            final(self).last_game_id == old(self).last_game_id,
    {
        let m_opt = crate::table::u64_remove(&mut self.addr_to_user, addr);
        let m = m_opt.unwrap();
        let _ = crate::table::str_remove(&mut self.users, &m);
        proof {
            let pre = *old(self);
            let post = *self;
            // the other names still point at other addresses
            assert forall|n: Seq<char>|
                #![trigger str_find(post.users@, n)]
                (str_find(post.users@, n) matches Some(a) ==> (u64_find(post.addr_to_user@, a)
                    matches Some(m2) && m2@ == n)) by {
                if str_find(post.users@, n) is Some {
                    let a = str_find(post.users@, n).unwrap();
                    assert(n != m@);
                    assert(str_find(pre.users@, n) == Some(a));
                    if a == addr {
                        assert(u64_find(pre.addr_to_user@, addr) matches Some(m3) && m3@ == n);
                        assert(n == m@);
                    }
                }
            }
            // the remaining seats still have their connections
            assert forall|g: u32|
                #![trigger u32_find(post.games@, g)]
                (u32_find(post.games@, g) matches Some(gm3) ==> {
                    &&& (gm3.white matches Some(w3) ==> str_find(post.users@, w3@) is Some)
                    &&& (gm3.black matches Some(b3) ==> str_find(post.users@, b3@) is Some)
                }) by {
                if u32_find(post.games@, g) is Some {
                    let gm3 = u32_find(post.games@, g).unwrap();
                    assert(u32_find(pre.games@, g) == Some(gm3));
                    match gm3.white {
                        Some(w3) => {
                            assert(str_find(pre.user_to_game@, w3@) == Some(g));
                            assert(w3@ != m@);
                        },
                        None => {},
                    }
                    match gm3.black {
                        Some(b3) => {
                            assert(str_find(pre.user_to_game@, b3@) == Some(g));
                            assert(b3@ != m@);
                        },
                        None => {},
                    }
                }
            }
            // whoever is still in a game is still connected
            assert forall|n: Seq<char>|
                str_find(post.user_to_game@, n) is Some implies #[trigger] str_find(
                post.users@,
                n,
            ) is Some by {
                assert(n != m@);
            }
        }
    }

    /// Open a fresh `Pending` game with `name` seated as White, under a
    /// newly allocated id.
    pub fn create_game(&mut self, name: String) -> (gid: u32)
        requires
            old(self).wf(),
            old(self).last_game_id < u32::MAX,
            str_find(old(self).users@, name@) is Some,
            str_find(old(self).user_to_game@, name@) is None,
        ensures
            final(self).wf(),
            gid == old(self).last_game_id,
            final(self).last_game_id == old(self).last_game_id + 1,
            u32_find(final(self).games@, gid) matches Some(gm) && (gm.white matches Some(w) && w@
                == name@) && gm.black is None && gm.status == GameStatus::Pending
                && gm.current_turn == Color::White && gm.result is None,
            forall|g: u32| #![auto]
                g != gid ==> u32_find(final(self).games@, g) == u32_find(old(self).games@, g),
            final(self).games@.len() == old(self).games@.len() + 1,
            final(self).games@.subrange(0, old(self).games@.len() as int) == old(self).games@,
            forall|n2: Seq<char>| #![auto]
                str_find(final(self).user_to_game@, n2) == if n2 == name@ {
                    Some(gid)
                } else {
                    str_find(old(self).user_to_game@, n2)
                },
            final(self).anon == old(self).anon,
            final(self).users == old(self).users,
            final(self).addr_to_user == old(self).addr_to_user,
            final(self).finished_games == old(self).finished_games,
            final(self).registered == old(self).registered,
    {
        let gid = self.last_game_id;
        self.last_game_id = self.last_game_id + 1;
        let mut gm = Game::new();
        gm.white = Some(name.clone());
        proof {
            assert(u32_find(self.games@, gid) is None);
        }
        crate::table::u32_insert(&mut self.games, gid, gm);
        crate::table::str_insert(&mut self.user_to_game, name, gid);
        proof {
            assert(self.games@.subrange(0, old(self).games@.len() as int) =~= old(self).games@);
        }
        gid
    }

    /// Seat `name` as Black in the pending game `gid`, which thereby starts.
    pub fn seat_user(&mut self, gid: u32, name: String)
        requires
            old(self).wf(),
            u32_find(old(self).games@, gid) matches Some(gm) && gm.status == GameStatus::Pending,
            str_find(old(self).users@, name@) is Some,
            str_find(old(self).user_to_game@, name@) is None,
        ensures
            final(self).wf(),
            u32_find(final(self).games@, gid) matches Some(gm2) && gm2.white == old(
                self,
            ).spec_game(gid).unwrap().white && (gm2.black matches Some(b) && b@ == name@)
                && gm2.status == GameStatus::InProgress && gm2.current_turn == old(
                self,
            ).spec_game(gid).unwrap().current_turn && gm2.board == old(self).spec_game(
                gid,
            ).unwrap().board && gm2.result == old(self).spec_game(gid).unwrap().result,
            forall|g: u32| #![auto]
                g != gid ==> u32_find(final(self).games@, g) == u32_find(old(self).games@, g),
            forall|n2: Seq<char>| #![auto]
                str_find(final(self).user_to_game@, n2) == if n2 == name@ {
                    Some(gid)
                } else {
                    str_find(old(self).user_to_game@, n2)
                },
            final(self).anon == old(self).anon,
            final(self).users == old(self).users,
            final(self).addr_to_user == old(self).addr_to_user,
            final(self).finished_games == old(self).finished_games,
            final(self).registered == old(self).registered,
            final(self).last_game_id == old(self).last_game_id,
    {
        let gm_opt = crate::table::u32_remove(&mut self.games, gid);
        let mut gm = gm_opt.unwrap();
        gm.black = Some(name.clone());
        gm.status = GameStatus::InProgress;
        crate::table::u32_insert(&mut self.games, gid, gm);
        crate::table::str_insert(&mut self.user_to_game, name, gid);
        proof {
            let pre = *old(self);
            let w = pre.spec_game(gid).unwrap().white.unwrap();
            assert(str_find(pre.user_to_game@, w@) == Some(gid));
            assert(w@ != name@);
        }
    }

    /// Replace the body of the active game `gid` after a move that leaves it
    /// running: same seats, same status, new position.
    pub fn update_game(&mut self, gid: u32, g2: Game)
        requires
            old(self).wf(),
            u32_find(old(self).games@, gid) matches Some(gm) && g2.white == gm.white && g2.black
                == gm.black && g2.status == gm.status,
        ensures
            final(self).wf(),
            forall|g: u32| #![auto]
                u32_find(final(self).games@, g) == if g == gid {
                    Some(g2)
                } else {
                    u32_find(old(self).games@, g)
                },
            final(self).anon == old(self).anon,
            final(self).users == old(self).users,
            final(self).addr_to_user == old(self).addr_to_user,
            final(self).finished_games == old(self).finished_games,
            final(self).user_to_game == old(self).user_to_game,
            final(self).registered == old(self).registered,
            final(self).last_game_id == old(self).last_game_id,
    {
        let _ = crate::table::u32_remove(&mut self.games, gid);
        crate::table::u32_insert(&mut self.games, gid, g2);
    }

    /// Retire the active game `gid`: archive its finished body and unseat
    /// both players.
    pub fn finish_game(&mut self, gid: u32, g2: Game)
        requires
            old(self).wf(),
            u32_find(old(self).games@, gid) matches Some(gm) && g2.white == gm.white && g2.black
                == gm.black && g2.status == GameStatus::Finished,
        ensures
            final(self).wf(),
            forall|g: u32| #![auto]
                u32_find(final(self).games@, g) == if g == gid {
                    None::<Game>
                } else {
                    u32_find(old(self).games@, g)
                },
            forall|g: u32| #![auto]
                u32_find(final(self).finished_games@, g) == if g == gid {
                    Some(g2)
                } else {
                    u32_find(old(self).finished_games@, g)
                },
            forall|n2: Seq<char>| #![auto]
                str_find(final(self).user_to_game@, n2) == if crate::game::spec_seated(&g2, n2) {
                    None::<u32>
                } else {
                    str_find(old(self).user_to_game@, n2)
                },
            final(self).anon == old(self).anon,
            final(self).users == old(self).users,
            final(self).addr_to_user == old(self).addr_to_user,
            final(self).registered == old(self).registered,
            final(self).last_game_id == old(self).last_game_id,
    {
        let _ = crate::table::u32_remove(&mut self.games, gid);
        if let Some(w) = &g2.white {
            let _ = crate::table::str_remove(&mut self.user_to_game, w);
        }
        if let Some(b) = &g2.black {
            let _ = crate::table::str_remove(&mut self.user_to_game, b);
        }
        crate::table::u32_insert(&mut self.finished_games, gid, g2);
        proof {
            let pre = *old(self);
            let post = *self;
            assert forall|n2: Seq<char>| #![auto]
                str_find(post.user_to_game@, n2) == (if crate::game::spec_seated(&g2, n2) {
                    None::<u32>
                } else {
                    str_find(pre.user_to_game@, n2)
                }) by {}
            // a user still mapped to some game is seated there still
            assert forall|n: Seq<char>|
                #![trigger str_find(post.user_to_game@, n)]
                (str_find(post.user_to_game@, n) matches Some(g) ==> (u32_find(post.games@, g)
                    matches Some(gm3) && crate::game::spec_seated(&gm3, n))) by {
                if str_find(post.user_to_game@, n) is Some {
                    let g = str_find(post.user_to_game@, n).unwrap();
                    assert(str_find(pre.user_to_game@, n) == Some(g));
                    assert(!crate::game::spec_seated(&g2, n));
                    assert(g != gid);
                }
            }
            // seats of the remaining games are still mapped to them
            assert forall|g: u32|
                #![trigger u32_find(post.games@, g)]
                (u32_find(post.games@, g) matches Some(gm3) ==> {
                    &&& (gm3.white matches Some(w3) ==> str_find(post.user_to_game@, w3@) == Some(
                        g,
                    ))
                    &&& (gm3.black matches Some(b3) ==> str_find(post.user_to_game@, b3@) == Some(
                        g,
                    ))
                }) by {
                if g != gid && u32_find(post.games@, g) is Some {
                    let gm3 = u32_find(post.games@, g).unwrap();
                    assert(u32_find(pre.games@, g) == Some(gm3));
                    match gm3.white {
                        Some(w3) => {
                            assert(str_find(pre.user_to_game@, w3@) == Some(g));
                            if crate::game::spec_seated(&g2, w3@) {
                                assert(str_find(pre.user_to_game@, w3@) == Some(gid));
                            }
                            assert(!crate::game::spec_seated(&g2, w3@));
                        },
                        None => {},
                    }
                    match gm3.black {
                        Some(b3) => {
                            assert(str_find(pre.user_to_game@, b3@) == Some(g));
                            if crate::game::spec_seated(&g2, b3@) {
                                assert(str_find(pre.user_to_game@, b3@) == Some(gid));
                            }
                            assert(!crate::game::spec_seated(&g2, b3@));
                        },
                        None => {},
                    }
                }
            }
        }
    }

    /// Drop the pending game `gid`, unseating the one player who waited in
    /// it.
    pub fn cancel_game(&mut self, gid: u32)
        requires
            old(self).wf(),
            u32_find(old(self).games@, gid) matches Some(gm) && gm.status == GameStatus::Pending,
        ensures
            final(self).wf(),
            forall|g: u32| #![auto]
                u32_find(final(self).games@, g) == if g == gid {
                    None::<Game>
                } else {
                    u32_find(old(self).games@, g)
                },
            forall|n2: Seq<char>| #![auto]
                str_find(final(self).user_to_game@, n2) == if crate::game::spec_seated(
                    &old(self).spec_game(gid).unwrap(),
                    n2,
                ) {
                    None::<u32>
                } else {
                    str_find(old(self).user_to_game@, n2)
                },
            final(self).anon == old(self).anon,
            final(self).users == old(self).users,
            final(self).addr_to_user == old(self).addr_to_user,
            final(self).finished_games == old(self).finished_games,
            final(self).registered == old(self).registered,
            final(self).last_game_id == old(self).last_game_id,
    {
        let gm_opt = crate::table::u32_remove(&mut self.games, gid);
        let gm = gm_opt.unwrap();
        if let Some(w) = &gm.white {
            let _ = crate::table::str_remove(&mut self.user_to_game, w);
        }
        proof {
            let pre = *old(self);
            let post = *self;
            let g2 = pre.spec_game(gid).unwrap();
            assert(g2.black is None);
            // a user still mapped to some game is seated there still
            assert forall|n: Seq<char>|
                #![trigger str_find(post.user_to_game@, n)]
                (str_find(post.user_to_game@, n) matches Some(g) ==> (u32_find(post.games@, g)
                    matches Some(gm3) && crate::game::spec_seated(&gm3, n))) by {
                if str_find(post.user_to_game@, n) is Some {
                    let g = str_find(post.user_to_game@, n).unwrap();
                    assert(str_find(pre.user_to_game@, n) == Some(g));
                    assert(!crate::game::spec_seated(&g2, n));
                    assert(g != gid);
                }
            }
            // seats of the remaining games are still mapped to them
            assert forall|g: u32|
                #![trigger u32_find(post.games@, g)]
                (u32_find(post.games@, g) matches Some(gm3) ==> {
                    &&& (gm3.white matches Some(w3) ==> str_find(post.user_to_game@, w3@) == Some(
                        g,
                    ))
                    &&& (gm3.black matches Some(b3) ==> str_find(post.user_to_game@, b3@) == Some(
                        g,
                    ))
                }) by {
                if g != gid && u32_find(post.games@, g) is Some {
                    let gm3 = u32_find(post.games@, g).unwrap();
                    assert(u32_find(pre.games@, g) == Some(gm3));
                    match gm3.white {
                        Some(w3) => {
                            assert(str_find(pre.user_to_game@, w3@) == Some(g));
                            if crate::game::spec_seated(&g2, w3@) {
                                assert(str_find(pre.user_to_game@, w3@) == Some(gid));
                            }
                            assert(!crate::game::spec_seated(&g2, w3@));
                        },
                        None => {},
                    }
                    match gm3.black {
                        Some(b3) => {
                            assert(str_find(pre.user_to_game@, b3@) == Some(g));
                            if crate::game::spec_seated(&g2, b3@) {
                                assert(str_find(pre.user_to_game@, b3@) == Some(gid));
                            }
                            assert(!crate::game::spec_seated(&g2, b3@));
                        },
                        None => {},
                    }
                }
            }
        }
    }
}

} // verus!
