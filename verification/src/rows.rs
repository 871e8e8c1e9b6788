//! The value collections of the guess index, modelled as byte rows.
//!
//! The store keeps, per target height, a set of byte strings ordered
//! lexicographically. This module gives that shape a specification — ordered
//! insertion, well-formedness, the decoded view — and proves how it moves
//! through the codec: inserting an encoded guess into a sorted row collection
//! is inserting the guess into the decoded collection at its nonce position.

use vstd::prelude::*;

use crate::codec::guess_lt;
use crate::codec::lemma_be_num_inj;
use crate::codec::lemma_decode_num;
use crate::codec::lemma_encode_num;
use crate::codec::lemma_guess_num_order;
use crate::codec::lemma_guess_round_trip;
use crate::codec::lemma_lex_iff_num;
use crate::codec::lex_lt;
use crate::codec::spec_decode_guess;
use crate::codec::spec_encode_guess;
use crate::types::Guess;

verus! {

/// Rows in strictly ascending lexicographic order: sorted, no duplicates.
pub open spec fn lex_sorted(rows: Seq<Seq<u8>>) -> bool {
    forall|i: int, j: int| 0 <= i < j < rows.len() ==> lex_lt(rows[i], rows[j])
}

/// Insert a row into an ordered collection, keeping order; a row that is
/// already present leaves the collection unchanged.
pub open spec fn rows_insert(rows: Seq<Seq<u8>>, v: Seq<u8>) -> Seq<Seq<u8>>
    decreases rows.len(),
{
    if rows.len() == 0 {
        seq![v]
    } else if v == rows[0] {
        rows
    } else if lex_lt(v, rows[0]) {
        seq![v] + rows
    } else {
        seq![rows[0]] + rows_insert(rows.skip(1), v)
    }
}

/// Insert rows one by one, in the order given.
pub open spec fn rows_insert_all(rows: Seq<Seq<u8>>, vs: Seq<Seq<u8>>) -> Seq<Seq<u8>>
    decreases vs.len(),
{
    if vs.len() == 0 {
        rows
    } else {
        rows_insert_all(rows_insert(rows, vs[0]), vs.skip(1))
    }
}

/// Every row decodes to a guess.
pub open spec fn rows_wf(rows: Seq<Seq<u8>>) -> bool {
    forall|i: int| 0 <= i < rows.len() ==> spec_decode_guess(#[trigger] rows[i]) is Some
}

/// The guesses a row collection holds, in stored order.
pub open spec fn decoded(rows: Seq<Seq<u8>>) -> Seq<Guess> {
    rows.map_values(|r: Seq<u8>| spec_decode_guess(r)->0)
}

/// Insert a guess into a collection ordered by (nonce, player); a guess that
/// is already present leaves the collection unchanged.
pub open spec fn guesses_insert(s: Seq<Guess>, g: Guess) -> Seq<Guess>
    decreases s.len(),
{
    if s.len() == 0 {
        seq![g]
    } else if g == s[0] {
        s
    } else if guess_lt(g, s[0]) {
        seq![g] + s
    } else {
        seq![s[0]] + guesses_insert(s.skip(1), g)
    }
}

/// Guesses in strictly ascending (nonce, player) order.
pub open spec fn guesses_sorted(s: Seq<Guess>) -> bool {
    forall|i: int, j: int| 0 <= i < j < s.len() ==> guess_lt(s[i], s[j])
}

/// Guesses in ascending nonce order, as `target_guesses` returns them.
pub open spec fn sorted_by_nonce(s: Seq<Guess>) -> bool {
    forall|i: int, j: int| 0 <= i < j < s.len() ==> s[i].nonce <= s[j].nonce
}

/// Some guess of the collection belongs to the given player.
pub open spec fn has_player(s: Seq<Guess>, player: u128) -> bool {
    exists|i: int| 0 <= i < s.len() && s[i].player == player
}

/// The lexicographic order is total: two rows compare, or they are equal.
pub proof fn lemma_lex_total(a: Seq<u8>, b: Seq<u8>)
    ensures
        lex_lt(a, b) || lex_lt(b, a) || a == b,
    decreases a.len(),
{
    if a.len() != 0 && b.len() != 0 && a[0] == b[0] {
        lemma_lex_total(a.skip(1), b.skip(1));
        if a.skip(1) == b.skip(1) {
            assert forall|i: int| 0 <= i < a.len() implies a[i] == b[i] by {
                if i > 0 {
                    assert(a.skip(1)[i - 1] == a[i]);
                    assert(b.skip(1)[i - 1] == b[i]);
                }
            }
            assert(a =~= b);
        }
    }
}

/// The lexicographic order is irreflexive and asymmetric.
pub proof fn lemma_lex_asym(a: Seq<u8>, b: Seq<u8>)
    ensures
        !(lex_lt(a, b) && lex_lt(b, a)),
        !lex_lt(a, a),
    decreases a.len(),
{
    if a.len() != 0 {
        lemma_lex_asym(a.skip(1), b.skip(1));
        lemma_lex_asym(a.skip(1), a.skip(1));
    }
}

/// The lexicographic order is transitive.
pub proof fn lemma_lex_trans(a: Seq<u8>, b: Seq<u8>, c: Seq<u8>)
    requires
        lex_lt(a, b),
        lex_lt(b, c),
    ensures
        lex_lt(a, c),
    decreases a.len(),
{
    if a.len() != 0 && b.len() != 0 && c.len() != 0 && a[0] == b[0] && b[0] == c[0] {
        lemma_lex_trans(a.skip(1), b.skip(1), c.skip(1));
    }
}

/// The inserted row is in the collection afterwards.
pub proof fn lemma_rows_insert_has(rows: Seq<Seq<u8>>, v: Seq<u8>)
    ensures
        rows_insert(rows, v).contains(v),
    decreases rows.len(),
{
    let out = rows_insert(rows, v);
    if rows.len() == 0 {
        assert(out[0] == v);
    } else if v == rows[0] {
        assert(out[0] == v);
    } else if lex_lt(v, rows[0]) {
        assert(out[0] == v);
    } else {
        lemma_rows_insert_has(rows.skip(1), v);
        let rest = rows_insert(rows.skip(1), v);
        let i = choose|i: int| 0 <= i < rest.len() && rest[i] == v;
        assert(out[i + 1] == rest[i]);
    }
}

/// Ordered insertion adds exactly the new row, and keeps every old one.
pub proof fn lemma_rows_insert_membership(rows: Seq<Seq<u8>>, v: Seq<u8>)
    ensures
        forall|x: Seq<u8>| rows_insert(rows, v).contains(x) <==> (x == v || rows.contains(x)),
    decreases rows.len(),
{
    let out = rows_insert(rows, v);
    if rows.len() == 0 {
        assert forall|x: Seq<u8>| out.contains(x) implies (x == v || rows.contains(x)) by {
            let i = choose|i: int| 0 <= i < out.len() && out[i] == x;
            assert(out[0] == v);
        }
        assert(out.contains(v)) by {
            assert(out[0] == v);
        }
    } else if v == rows[0] {
        assert(rows.contains(v)) by {
            assert(rows[0] == v);
        }
    } else if lex_lt(v, rows[0]) {
        assert forall|x: Seq<u8>| out.contains(x) implies (x == v || rows.contains(x)) by {
            let i = choose|i: int| 0 <= i < out.len() && out[i] == x;
            if i > 0 {
                assert(out[i] == rows[i - 1]);
                assert(rows.contains(x)) by {
                    assert(rows[i - 1] == x);
                }
            }
        }
        assert forall|x: Seq<u8>| (x == v || rows.contains(x)) implies out.contains(x) by {
            if x == v {
                assert(out[0] == x);
            } else {
                let i = choose|i: int| 0 <= i < rows.len() && rows[i] == x;
                assert(out[i + 1] == rows[i]);
            }
        }
    } else {
        lemma_rows_insert_membership(rows.skip(1), v);
        let rest = rows_insert(rows.skip(1), v);
        assert(out == seq![rows[0]] + rest);
        assert forall|x: Seq<u8>| out.contains(x) implies (x == v || rows.contains(x)) by {
            let i = choose|i: int| 0 <= i < out.len() && out[i] == x;
            if i == 0 {
                assert(rows.contains(x)) by {
                    assert(rows[0] == out[0]);
                }
            } else {
                assert(out[i] == rest[i - 1]);
                assert(rest.contains(x)) by {
                    assert(rest[i - 1] == x);
                }
                if x != v {
                    assert(rows.skip(1).contains(x));
                    let j = choose|j: int| 0 <= j < rows.skip(1).len() && rows.skip(1)[j] == x;
                    assert(rows.skip(1)[j] == rows[j + 1]);
                    assert(rows.contains(x)) by {
                        assert(rows[j + 1] == x);
                    }
                }
            }
        }
        assert forall|x: Seq<u8>| (x == v || rows.contains(x)) implies out.contains(x) by {
            if x == v {
                lemma_rows_insert_has(rows.skip(1), v);
                let j = choose|j: int| 0 <= j < rest.len() && rest[j] == v;
                assert(out[j + 1] == rest[j]);
            } else {
                let i = choose|i: int| 0 <= i < rows.len() && rows[i] == x;
                if i == 0 {
                    assert(out[0] == rows[0]);
                } else {
                    assert(rows.skip(1)[i - 1] == rows[i]);
                    assert(rows.skip(1).contains(x)) by {
                        assert(rows.skip(1)[i - 1] == x);
                    }
                    assert(rest.contains(x));
                    let j = choose|j: int| 0 <= j < rest.len() && rest[j] == x;
                    assert(out[j + 1] == rest[j]);
                }
            }
        }
    }
}

/// Inserting a row above everything in a sorted collection appends it.
pub proof fn lemma_rows_insert_append(rows: Seq<Seq<u8>>, v: Seq<u8>)
    requires
        forall|i: int| 0 <= i < rows.len() ==> lex_lt(#[trigger] rows[i], v),
    ensures
        rows_insert(rows, v) == rows.push(v),
    decreases rows.len(),
{
    if rows.len() == 0 {
        assert(rows_insert(rows, v) =~= rows.push(v));
    } else {
        lemma_lex_asym(rows[0], v);
        assert(forall|i: int|
            0 <= i < rows.skip(1).len() ==> lex_lt(#[trigger] rows.skip(1)[i], v)) by {
            assert(forall|i: int|
                0 <= i < rows.skip(1).len() ==> rows.skip(1)[i] == rows[i + 1]);
        }
        lemma_rows_insert_append(rows.skip(1), v);
        assert(rows_insert(rows, v) =~= rows.push(v));
    }
}

/// Re-inserting a sorted run of rows after a sorted prefix rebuilds the
/// concatenation: feeding a sorted collection back in, in order, recreates it.
pub proof fn lemma_rows_insert_all_sorted(prefix: Seq<Seq<u8>>, vs: Seq<Seq<u8>>)
    requires
        lex_sorted(prefix + vs),
    ensures
        rows_insert_all(prefix, vs) == prefix + vs,
    decreases vs.len(),
{
    let whole = prefix + vs;
    if vs.len() == 0 {
        assert(rows_insert_all(prefix, vs) =~= prefix + vs);
    } else {
        assert(whole[prefix.len() as int] == vs[0]);
        assert forall|i: int| 0 <= i < prefix.len() implies lex_lt(#[trigger] prefix[i], vs[0]) by {
            assert(whole[i] == prefix[i]);
            assert(lex_lt(whole[i], whole[prefix.len() as int]));
        }
        lemma_rows_insert_append(prefix, vs[0]);
        assert(prefix.push(vs[0]) + vs.skip(1) =~= prefix + vs);
        lemma_rows_insert_all_sorted(prefix.push(vs[0]), vs.skip(1));
    }
}

/// One more insertion at the end of a run of insertions.
pub proof fn lemma_rows_insert_all_push(rows: Seq<Seq<u8>>, vs: Seq<Seq<u8>>, v: Seq<u8>)
    ensures
        rows_insert_all(rows, vs.push(v)) == rows_insert(rows_insert_all(rows, vs), v),
    decreases vs.len(),
{
    if vs.len() == 0 {
        assert(vs.push(v)[0] == v);
        assert(vs.push(v).skip(1) =~= Seq::<Seq<u8>>::empty());
        assert(rows_insert_all(rows, vs) == rows);
        assert(rows_insert_all(rows, vs.push(v)) == rows_insert_all(
            rows_insert(rows, v),
            vs.push(v).skip(1),
        ));
        assert(rows_insert_all(rows_insert(rows, v), Seq::<Seq<u8>>::empty()) == rows_insert(
            rows,
            v,
        ));
    } else {
        assert(vs.push(v)[0] == vs[0]);
        assert(vs.push(v).skip(1) =~= vs.skip(1).push(v));
        lemma_rows_insert_all_push(rows_insert(rows, vs[0]), vs.skip(1), v);
        assert(rows_insert_all(rows, vs.push(v)) == rows_insert_all(
            rows_insert(rows, vs[0]),
            vs.skip(1).push(v),
        ));
        assert(rows_insert_all(rows, vs) == rows_insert_all(rows_insert(rows, vs[0]), vs.skip(1)));
    }
}

/// A sorted, well-formed row collection decodes to guesses in strictly
/// ascending (nonce, player) order — in particular ascending by nonce.
pub proof fn lemma_decoded_sorted(rows: Seq<Seq<u8>>)
    requires
        lex_sorted(rows),
        rows_wf(rows),
    ensures
        guesses_sorted(decoded(rows)),
        sorted_by_nonce(decoded(rows)),
{
    let d = decoded(rows);
    assert forall|i: int, j: int| 0 <= i < j < d.len() implies guess_lt(d[i], d[j]) by {
        lemma_row_order(rows[i], rows[j]);
    }
    assert forall|i: int, j: int| 0 <= i < j < d.len() implies d[i].nonce <= d[j].nonce by {
        assert(guess_lt(d[i], d[j]));
    }
}

/// Comparing two well-formed rows is comparing the guesses they decode to.
pub proof fn lemma_row_order(a: Seq<u8>, b: Seq<u8>)
    requires
        spec_decode_guess(a) is Some,
        spec_decode_guess(b) is Some,
    ensures
        lex_lt(a, b) <==> guess_lt(spec_decode_guess(a)->0, spec_decode_guess(b)->0),
        a == b <==> spec_decode_guess(a)->0 == spec_decode_guess(b)->0,
{
    lemma_decode_num(a);
    lemma_decode_num(b);
    lemma_lex_iff_num(a, b);
    lemma_guess_num_order(spec_decode_guess(a)->0, spec_decode_guess(b)->0);
    if spec_decode_guess(a)->0 == spec_decode_guess(b)->0 {
        lemma_be_num_inj(a, b);
    }
    if a == b {
    }
}

/// A well-formed row equals an encoding exactly when it decodes to that guess.
pub proof fn lemma_row_is_encoding(a: Seq<u8>, g: Guess)
    requires
        spec_decode_guess(a) is Some,
    ensures
        a == spec_encode_guess(g) <==> spec_decode_guess(a)->0 == g,
{
    lemma_guess_round_trip(g);
    lemma_encode_num(g);
    lemma_row_order(a, spec_encode_guess(g));
}

/// Inserting an encoded guess into a sorted, well-formed row collection is
/// inserting the guess into the decoded collection; the row was present
/// exactly when the guess already was.
pub proof fn lemma_rows_insert_decoded(rows: Seq<Seq<u8>>, g: Guess)
    requires
        lex_sorted(rows),
        rows_wf(rows),
    ensures
        rows_wf(rows_insert(rows, spec_encode_guess(g))),
        decoded(rows_insert(rows, spec_encode_guess(g))) == guesses_insert(decoded(rows), g),
        rows.contains(spec_encode_guess(g)) <==> decoded(rows).contains(g),
    decreases rows.len(),
{
    let v = spec_encode_guess(g);
    let out = rows_insert(rows, v);
    let d = decoded(rows);
    lemma_guess_round_trip(g);
    lemma_encode_num(g);
    lemma_rows_insert_membership(rows, v);
    assert forall|x: Seq<u8>| out.contains(x) implies spec_decode_guess(x) is Some by {
        assert(x == v || rows.contains(x));
        if x != v {
            let i = choose|i: int| 0 <= i < rows.len() && rows[i] == x;
            assert(spec_decode_guess(rows[i]) is Some);
        }
    }
    assert(rows_wf(out)) by {
        assert(forall|i: int| 0 <= i < out.len() ==> out.contains(#[trigger] out[i]));
    }
    if rows.len() == 0 {
        assert(decoded(out) =~= guesses_insert(d, g));
        assert(!rows.contains(v));
        assert(!d.contains(g));
    } else {
        lemma_row_is_encoding(rows[0], g);
        lemma_row_order(rows[0], v);
        lemma_row_order(v, rows[0]);
        assert(d[0] == spec_decode_guess(rows[0])->0);
        if v == rows[0] {
            assert(g == d[0]);
            assert(out == rows && guesses_insert(d, g) == d);
            assert(rows.contains(v)) by {
                assert(rows[0] == v);
            }
            assert(d.contains(g)) by {
                assert(d[0] == g);
            }
        } else if lex_lt(v, rows[0]) {
            assert(guess_lt(g, d[0]));
            assert(g != d[0]);
            assert(decoded(out) =~= seq![g] + d);
            assert(guesses_insert(d, g) == seq![g] + d);
            assert(!rows.contains(v)) by {
                if rows.contains(v) {
                    let i = choose|i: int| 0 <= i < rows.len() && rows[i] == v;
                    if i > 0 {
                        lemma_lex_trans(v, rows[0], rows[i]);
                        lemma_lex_asym(v, rows[i]);
                    } else {
                        lemma_lex_asym(v, rows[0]);
                    }
                }
            }
            assert(!d.contains(g)) by {
                if d.contains(g) {
                    let i = choose|i: int| 0 <= i < d.len() && d[i] == g;
                    lemma_row_is_encoding(rows[i], g);
                    assert(rows.contains(v)) by {
                        assert(rows[i] == v);
                    }
                }
            }
        } else {
            lemma_lex_total(v, rows[0]);
            assert(lex_lt(rows[0], v));
            assert(guess_lt(d[0], g));
            assert(g != d[0]);
            assert(lex_sorted(rows.skip(1))) by {
                assert(forall|i: int|
                    0 <= i < rows.skip(1).len() ==> rows.skip(1)[i] == rows[i + 1]);
            }
            assert(rows_wf(rows.skip(1))) by {
                assert(forall|i: int|
                    0 <= i < rows.skip(1).len() ==> rows.skip(1)[i] == rows[i + 1]);
            }
            lemma_rows_insert_decoded(rows.skip(1), g);
            assert(decoded(rows.skip(1)) =~= d.skip(1));
            assert(decoded(out) =~= seq![d[0]] + decoded(rows_insert(rows.skip(1), v))) by {
                assert(out[0] == rows[0]);
                assert(forall|i: int|
                    1 <= i < out.len() ==> out[i] == rows_insert(rows.skip(1), v)[i - 1]);
            }
            assert(guesses_insert(d, g) == seq![d[0]] + guesses_insert(d.skip(1), g));
            assert(rows.contains(v) <==> rows.skip(1).contains(v)) by {
                if rows.contains(v) {
                    let i = choose|i: int| 0 <= i < rows.len() && rows[i] == v;
                    assert(i > 0);
                    assert(rows.skip(1)[i - 1] == v);
                }
                if rows.skip(1).contains(v) {
                    let i = choose|i: int| 0 <= i < rows.skip(1).len() && rows.skip(1)[i] == v;
                    assert(rows[i + 1] == v);
                }
            }
            assert(d.contains(g) <==> d.skip(1).contains(g)) by {
                if d.contains(g) {
                    let i = choose|i: int| 0 <= i < d.len() && d[i] == g;
                    assert(i > 0);
                    assert(d.skip(1)[i - 1] == g);
                }
                if d.skip(1).contains(g) {
                    let i = choose|i: int| 0 <= i < d.skip(1).len() && d.skip(1)[i] == g;
                    assert(d[i + 1] == g);
                }
            }
        }
    }
}

/// Law: a player who has made no guess is absent from an empty collection,
/// and present as soon as one of their guesses is inserted.
pub proof fn lemma_player_membership(s: Seq<Guess>, g: Guess)
    ensures
        !has_player(Seq::<Guess>::empty(), g.player),
        has_player(guesses_insert(s, g), g.player),
{
    lemma_guesses_insert_contains(s, g);
    let out = guesses_insert(s, g);
    let i = choose|i: int| 0 <= i < out.len() && out[i] == g;
    assert(out[i].player == g.player);
}

/// The inserted guess is in the collection afterwards.
pub proof fn lemma_guesses_insert_contains(s: Seq<Guess>, g: Guess)
    ensures
        guesses_insert(s, g).contains(g),
    decreases s.len(),
{
    let out = guesses_insert(s, g);
    if s.len() == 0 {
        assert(out[0] == g);
    } else if g == s[0] {
        assert(out[0] == g);
    } else if guess_lt(g, s[0]) {
        assert(out[0] == g);
    } else {
        lemma_guesses_insert_contains(s.skip(1), g);
        let rest = guesses_insert(s.skip(1), g);
        let i = choose|i: int| 0 <= i < rest.len() && rest[i] == g;
        assert(out[i + 1] == g);
    }
}

} // verus!
