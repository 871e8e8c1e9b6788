//! The verified table operations of the guess store.
//!
//! Each function runs inside one caller-supplied `redb` transaction and is
//! proved against the adapter contracts of [`crate::store`]: what it returns
//! and how it changes the transaction's view of the two tables. The caller —
//! the asynchronous shell — opens the transaction, calls one operation, and
//! commits; atomicity of the whole is the commit's, and `replace_target` owes
//! its all-or-nothing behaviour to running inside a single transaction.

use vstd::prelude::*;

use crate::codec::decode_guess;
use crate::codec::encode_guess;
use crate::codec::spec_decode_guess;
use crate::codec::spec_encode_guess;
use crate::rows::decoded;
use crate::rows::guesses_insert;
use crate::rows::guesses_sorted;
use crate::rows::has_player;
use crate::rows::lemma_decoded_sorted;
use crate::rows::lemma_rows_insert_all_sorted;
use crate::rows::lemma_rows_insert_all_push;
use crate::rows::lemma_rows_insert_decoded;
use crate::rows::rows_insert;
use crate::rows::rows_insert_all;
use crate::rows::rows_wf;
use crate::rows::sorted_by_nonce;
use crate::store::guess_rows_get;
use crate::store::guess_rows_insert;
use crate::store::guess_rows_remove_all;
use crate::store::read_guess_rows;
use crate::store::read_targets;
use crate::store::target_get;
use crate::store::target_last;
use crate::store::target_remove;
use crate::store::target_upsert;
use crate::store::write_guess_rows;
use crate::store::write_targets;
use crate::store::GuessDb;
use crate::types::Guess;
use crate::types::GuessError;
use crate::types::InternalError;

verus! {

/// The target row stored at a height: absent, or present with its optional
/// confirmed nonce.
pub open spec fn target_row(m: Map<u32, Option<u32>>, height: u32) -> Option<Option<u32>> {
    if m.dom().contains(height) {
        Some(m[height])
    } else {
        None
    }
}

/// The prior nonce an upsert or removal reports: the stored optional nonce,
/// flattened, so an absent row and an unconfirmed row both report `None`.
pub open spec fn prior_nonce(m: Map<u32, Option<u32>>, height: u32) -> Option<u32> {
    if m.dom().contains(height) {
        m[height]
    } else {
        None
    }
}

/// Law: upserting a target twice reports the first nonce as the prior value
/// of the second upsert, and the row then holds the second nonce — stated
/// over the table model that `insert_target` and `get_target_nonce` are
/// specified against.
pub proof fn lemma_upsert_twice(
    m: Map<u32, Option<u32>>,
    height: u32,
    first: Option<u32>,
    second: Option<u32>,
)
    ensures
        prior_nonce(m.insert(height, first), height) == first,
        target_row(m.insert(height, first).insert(height, second), height) == Some(second),
{
}

impl GuessDb {
    /// Upsert the target row at `height`, returning the prior confirmed nonce
    /// for that height, if any.
    pub fn insert_target(
        write_txn: &mut redb::WriteTransaction,
        height: u32,
        nonce: Option<u32>,
    ) -> (r: Result<Option<u32>, InternalError>)
        ensures
            r matches Ok(prior) ==> {
                &&& write_targets(*final(write_txn)) == write_targets(*old(write_txn)).insert(
                    height,
                    nonce,
                )
                &&& prior == prior_nonce(write_targets(*old(write_txn)), height)
                &&& forall|h: u32|
                    write_guess_rows(*final(write_txn), h) == write_guess_rows(*old(write_txn), h)
            },
    {
        match target_upsert(write_txn, height, nonce) {
            Ok(prior) => Ok(
                match prior {
                    Some(stored) => stored,
                    None => None,
                },
            ),
            Err(e) => Err(e),
        }
    }

    /// Report the target row at `height`: `None` if no row exists, or
    /// `Some(nonce)` distinguishing "exists, unconfirmed" from "confirmed".
    pub fn get_target_nonce(read_txn: &redb::ReadTransaction, height: u32) -> (r: Result<
        Option<Option<u32>>,
        InternalError,
    >)
        ensures
            r matches Ok(row) ==> row == target_row(read_targets(*read_txn), height),
            r matches Ok(row) ==> ((row is None) <==> !read_targets(*read_txn).dom().contains(
                height,
            )),
    {
        target_get(read_txn, height)
    }

    /// Report the target row with the greatest height, or `None` if no target
    /// was ever stored.
    pub fn get_last_target_nonce(read_txn: &redb::ReadTransaction) -> (r: Result<
        Option<(u32, Option<u32>)>,
        InternalError,
    >)
        ensures
            r matches Ok(row) ==> match row {
                Some((height, nonce)) => {
                    &&& read_targets(*read_txn).dom().contains(height)
                    &&& read_targets(*read_txn)[height] == nonce
                    &&& forall|k: u32| read_targets(*read_txn).dom().contains(k) ==> k <= height
                },
                None => read_targets(*read_txn).dom() == Set::<u32>::empty(),
            },
    {
        target_last(read_txn)
    }

    /// Remove the target row at `height`, returning the prior confirmed nonce.
    pub fn remove_target_nonce(write_txn: &mut redb::WriteTransaction, height: u32) -> (r: Result<
        Option<u32>,
        InternalError,
    >)
        ensures
            r matches Ok(prior) ==> {
                &&& write_targets(*final(write_txn)) == write_targets(*old(write_txn)).remove(
                    height,
                )
                &&& prior == prior_nonce(write_targets(*old(write_txn)), height)
                &&& forall|h: u32|
                    write_guess_rows(*final(write_txn), h) == write_guess_rows(*old(write_txn), h)
            },
    {
        match target_remove(write_txn, height) {
            Ok(prior) => Ok(
                match prior {
                    Some(stored) => stored,
                    None => None,
                },
            ),
            Err(e) => Err(e),
        }
    }

    /// Add a guess to the height's collection, keeping it ordered; an exact
    /// duplicate changes nothing. Returns whether the guess was newly added.
    pub fn insert_guess(
        write_txn: &mut redb::WriteTransaction,
        height: u32,
        guess: Guess,
    ) -> (r: Result<bool, InternalError>)
        ensures
            r matches Ok(added) ==> {
                &&& write_guess_rows(*final(write_txn), height) == rows_insert(
                    write_guess_rows(*old(write_txn), height),
                    spec_encode_guess(guess),
                )
                &&& added == !write_guess_rows(*old(write_txn), height).contains(
                    spec_encode_guess(guess),
                )
                &&& forall|h: u32|
                    h != height ==> write_guess_rows(*final(write_txn), h) == write_guess_rows(
                        *old(write_txn),
                        h,
                    )
                &&& write_targets(*final(write_txn)) == write_targets(*old(write_txn))
                &&& rows_wf(write_guess_rows(*old(write_txn), height)) ==> {
                    &&& decoded(write_guess_rows(*final(write_txn), height)) == guesses_insert(
                        decoded(write_guess_rows(*old(write_txn), height)),
                        guess,
                    )
                    &&& added == !decoded(write_guess_rows(*old(write_txn), height)).contains(
                        guess,
                    )
                    &&& rows_wf(write_guess_rows(*final(write_txn), height))
                }
            },
    {
        let row = encode_guess(&guess);
        match guess_rows_insert(write_txn, height, &row) {
            Ok(present) => {
                proof {
                    if rows_wf(write_guess_rows(*old(write_txn), height)) {
                        lemma_rows_insert_decoded(write_guess_rows(*old(write_txn), height), guess);
                    }
                }
                Ok(!present)
            },
            Err(e) => Err(e),
        }
    }

    /// Report whether the player has made any guess for the target at
    /// `height`; fails with `MissingTarget` if no target row exists there,
    /// which is distinct from "target exists, zero guesses".
    pub fn any_guess(read_txn: &redb::ReadTransaction, height: u32, player: u128) -> (r: Result<
        bool,
        GuessError,
    >)
        ensures
            r matches Ok(found) ==> {
                &&& read_targets(*read_txn).dom().contains(height)
                &&& rows_wf(read_guess_rows(*read_txn, height))
                &&& found == has_player(decoded(read_guess_rows(*read_txn, height)), player)
            },
            r matches Err(e) ==> match e {
                GuessError::MissingTarget(h) => h == height && !read_targets(
                    *read_txn,
                ).dom().contains(height),
                GuessError::Internal(_) => true,
                _ => false,
            },
    {
        let target = match target_get(read_txn, height) {
            Ok(row) => row,
            Err(e) => {
                return Err(GuessError::Internal(e));
            },
        };
        if target.is_none() {
            return Err(GuessError::MissingTarget(height));
        }
        let rows = match guess_rows_get(read_txn, height) {
            Ok(rows) => rows,
            Err(e) => {
                return Err(GuessError::Internal(e));
            },
        };
        let ghost rs = read_guess_rows(*read_txn, height);
        let mut found = false;
        let mut i: usize = 0;
        while i < rows.len()
            invariant
                rows@.map_values(|v: Vec<u8>| v@) == rs,
                i <= rows@.len(),
                forall|j: int| 0 <= j < i ==> spec_decode_guess(#[trigger] rs[j]) is Some,
                found == exists|j: int|
                    0 <= j < i && spec_decode_guess(#[trigger] rs[j])->0.player == player,
            decreases rows@.len() - i,
        {
            proof {
                assert(rs[i as int] == rows@.map_values(|v: Vec<u8>| v@)[i as int]);
            }
            let guess = match decode_guess(rows[i].as_slice()) {
                Some(guess) => guess,
                None => {
                    return Err(GuessError::Internal(InternalError::CorruptGuess));
                },
            };
            if guess.player == player {
                proof {
                    assert(spec_decode_guess(rs[i as int])->0.player == player);
                }
                found = true;
            }
            i += 1;
        }
        proof {
            assert(rs.len() == rows@.len());
            if found {
                let j = choose|j: int|
                    0 <= j < i && spec_decode_guess(#[trigger] rs[j])->0.player == player;
                assert(decoded(rs)[j].player == player);
            }
            if has_player(decoded(rs), player) {
                let j = choose|j: int| 0 <= j < decoded(rs).len() && decoded(rs)[j].player
                    == player;
                assert(spec_decode_guess(rs[j])->0.player == player);
            }
        }
        Ok(found)
    }

    /// Return the height's full guess collection, ascending by nonce.
    pub fn target_guesses(read_txn: &redb::ReadTransaction, height: u32) -> (r: Result<
        Vec<Guess>,
        InternalError,
    >)
        ensures
            r matches Ok(guesses) ==> {
                &&& rows_wf(read_guess_rows(*read_txn, height))
                &&& guesses@ == decoded(read_guess_rows(*read_txn, height))
                &&& guesses_sorted(guesses@)
                &&& sorted_by_nonce(guesses@)
            },
    {
        let rows = match guess_rows_get(read_txn, height) {
            Ok(rows) => rows,
            Err(e) => {
                return Err(e);
            },
        };
        let ghost rs = read_guess_rows(*read_txn, height);
        let mut guesses: Vec<Guess> = Vec::new();
        let mut i: usize = 0;
        while i < rows.len()
            invariant
                rows@.map_values(|v: Vec<u8>| v@) == rs,
                i <= rows@.len(),
                guesses@.len() == i,
                forall|j: int| 0 <= j < i ==> spec_decode_guess(#[trigger] rs[j]) is Some,
                forall|j: int| 0 <= j < i ==> guesses@[j] == spec_decode_guess(#[trigger] rs[j])->0,
            decreases rows@.len() - i,
        {
            proof {
                assert(rs[i as int] == rows@.map_values(|v: Vec<u8>| v@)[i as int]);
            }
            let guess = match decode_guess(rows[i].as_slice()) {
                Some(guess) => guess,
                None => {
                    return Err(InternalError::CorruptGuess);
                },
            };
            guesses.push(guess);
            i += 1;
        }
        proof {
            assert(rs.len() == rows@.len());
            assert(guesses@ =~= decoded(rs));
            lemma_decoded_sorted(rs);
        }
        Ok(guesses)
    }

    /// Migrate the current target: remove the row at `old_height`, create an
    /// unconfirmed row at `new_height`, and move every guess from the old
    /// height to the new one. All steps share the caller's transaction, so
    /// they become durable together or not at all.
    pub fn replace_target(
        write_txn: &mut redb::WriteTransaction,
        old_height: u32,
        new_height: u32,
    ) -> (r: Result<(), InternalError>)
        ensures
            r is Ok ==> {
                &&& write_targets(*final(write_txn)) == write_targets(*old(write_txn)).remove(
                    old_height,
                ).insert(new_height, None)
                &&& old_height != new_height ==> {
                    &&& write_guess_rows(*final(write_txn), old_height) == Seq::<Seq<u8>>::empty()
                    &&& write_guess_rows(*final(write_txn), new_height) == rows_insert_all(
                        write_guess_rows(*old(write_txn), new_height),
                        write_guess_rows(*old(write_txn), old_height),
                    )
                    &&& write_guess_rows(*old(write_txn), new_height) == Seq::<Seq<u8>>::empty()
                        ==> write_guess_rows(*final(write_txn), new_height) == write_guess_rows(
                        *old(write_txn),
                        old_height,
                    )
                }
                &&& old_height == new_height ==> write_guess_rows(*final(write_txn), new_height)
                    == write_guess_rows(*old(write_txn), old_height)
                &&& forall|h: u32|
                    h != old_height && h != new_height ==> write_guess_rows(*final(write_txn), h)
                        == write_guess_rows(*old(write_txn), h)
            },
    {
        let ghost moved = write_guess_rows(*old(write_txn), old_height);
        match target_remove(write_txn, old_height) {
            Ok(prior) => prior,
            Err(e) => {
                return Err(e);
            },
        };
        match target_upsert(write_txn, new_height, None) {
            Ok(prior) => prior,
            Err(e) => {
                return Err(e);
            },
        };
        let rows = match guess_rows_remove_all(write_txn, old_height) {
            Ok(rows) => rows,
            Err(e) => {
                return Err(e);
            },
        };
        proof {
            assert(rows@.map_values(|v: Vec<u8>| v@) == moved);
        }
        let ghost targets_mid = write_targets(*write_txn);
        let ghost start = write_guess_rows(*write_txn, new_height);
        let mut i: usize = 0;
        while i < rows.len()
            invariant
                rows@.map_values(|v: Vec<u8>| v@) == moved,
                i <= rows@.len(),
                write_targets(*write_txn) == targets_mid,
                write_guess_rows(*write_txn, new_height) == rows_insert_all(
                    start,
                    moved.take(i as int),
                ),
                old_height != new_height ==> write_guess_rows(*write_txn, old_height) == Seq::<
                    Seq<u8>,
                >::empty(),
                forall|h: u32|
                    h != old_height && h != new_height ==> write_guess_rows(*write_txn, h)
                        == write_guess_rows(*old(write_txn), h),
            decreases rows@.len() - i,
        {
            proof {
                assert(moved[i as int] == rows@.map_values(|v: Vec<u8>| v@)[i as int]);
                assert(moved.take(i as int + 1) =~= moved.take(i as int).push(moved[i as int]));
                lemma_rows_insert_all_push(start, moved.take(i as int), moved[i as int]);
            }
            match guess_rows_insert(write_txn, new_height, &rows[i]) {
                Ok(present) => present,
                Err(e) => {
                    return Err(e);
                },
            };
            i += 1;
        }
        proof {
            assert(moved.take(rows@.len() as int) =~= moved);
            if write_guess_rows(*old(write_txn), new_height) == Seq::<Seq<u8>>::empty()
                && old_height != new_height {
                assert(start == Seq::<Seq<u8>>::empty());
                assert(Seq::<Seq<u8>>::empty() + moved =~= moved);
                lemma_rows_insert_all_sorted(Seq::<Seq<u8>>::empty(), moved);
            }
            if old_height == new_height {
                assert(start == Seq::<Seq<u8>>::empty());
                assert(Seq::<Seq<u8>>::empty() + moved =~= moved);
                lemma_rows_insert_all_sorted(Seq::<Seq<u8>>::empty(), moved);
            }
        }
        Ok(())
    }
}

} // verus!
