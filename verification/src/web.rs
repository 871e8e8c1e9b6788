//! Pure decision rules and view models of the request-handling layer.
//!
//! The HTTP shell fetches the current target and the guess collections, then
//! asks the functions here what to do: whether a submitted nonce text is a
//! valid guess, what a target-change request amounts to, and how the guess
//! table is rendered and ordered. Everything here is plain data in and plain
//! data out; the shell performs the storage calls these decisions name.

use vstd::prelude::*;
use vstd::string::StringExecFns;
use vstd::utf8::encode_utf8;

use crate::codec::lex_lt;
use crate::types::Guess;
use crate::types::GuessError;
use crate::types::TargetError;

verus! {

/// The guess submission form: the nonce guess as text.
pub struct GuessForm {
    pub guess: String,
}

/// The target-change form: the requested block height.
pub struct TargetForm {
    pub height: u32,
}

/// One rendered row of the guess table.
pub struct GuessTableData {
    pub name: String,
    pub hex: String,
    pub decimal: u32,
}

/// View model of the home page.
pub struct HomeTemplate {
    pub target: Option<(u32, Option<u32>)>,
    pub guesses: Vec<GuessTableData>,
    pub add_guess: bool,
}

/// View model of the target page.
pub struct TargetTemplate {
    pub target: Option<(u32, Option<u32>)>,
    pub change_target: bool,
}

/// View model of the target table fragment.
pub struct TargetTable {
    pub target: Option<(u32, Option<u32>)>,
}

/// View model of the guess table fragment.
pub struct GuessTable {
    pub guesses: Vec<GuessTableData>,
    pub add_guess: bool,
}

/// An ASCII hex digit, in either case.
pub open spec fn is_hex_digit(b: u8) -> bool {
    (48 <= b <= 57) || (65 <= b <= 70) || (97 <= b <= 102)
}

/// The value of an ASCII hex digit.
pub open spec fn hex_digit_val(b: u8) -> nat {
    if 48 <= b <= 57 {
        (b - 48) as nat
    } else if 65 <= b <= 70 {
        (b - 55) as nat
    } else {
        (b - 87) as nat
    }
}

/// The number a string of hex digits denotes, most significant first.
pub open spec fn hex_num(s: Seq<u8>) -> nat
    decreases s.len(),
{
    if s.len() == 0 {
        0
    } else {
        hex_num(s.drop_last()) * 16 + hex_digit_val(s.last())
    }
}

/// 16 raised to the power `n`.
pub open spec fn pow16(n: nat) -> nat
    decreases n,
{
    if n == 0 {
        1
    } else {
        16 * pow16((n - 1) as nat)
    }
}

/// A string of `n` hex digits denotes a number below `16^n`.
pub proof fn lemma_hex_num_bound(s: Seq<u8>)
    requires
        forall|i: int| 0 <= i < s.len() ==> is_hex_digit(#[trigger] s[i]),
    ensures
        hex_num(s) < pow16(s.len()),
    decreases s.len(),
{
    if s.len() == 0 {
        assert(pow16(0) == 1);
    } else {
        assert(forall|i: int|
            0 <= i < s.drop_last().len() ==> is_hex_digit(#[trigger] s.drop_last()[i])) by {
            assert(forall|i: int|
                0 <= i < s.drop_last().len() ==> s.drop_last()[i] == s[i]);
        }
        lemma_hex_num_bound(s.drop_last());
        let p = pow16((s.len() - 1) as nat);
        assert(is_hex_digit(s.last()) && hex_digit_val(s.last()) <= 15);
        assert(hex_num(s.drop_last()) * 16 + 15 < p * 16) by (nonlinear_arith)
            requires
                hex_num(s.drop_last()) < p,
        ;
        assert(pow16(s.len()) == 16 * p);
    }
}

/// Every byte is a hex digit.
pub open spec fn all_hex_digits(s: Seq<u8>) -> bool {
    forall|i: int| 0 <= i < s.len() ==> is_hex_digit(#[trigger] s[i])
}

/// The digits of a submitted text: everything after an optional leading `+`.
pub open spec fn guess_digits(s: Seq<u8>) -> Seq<u8> {
    if s.len() > 0 && s[0] == 43 {
        s.skip(1)
    } else {
        s
    }
}

/// The nonce a submitted text denotes, if it is a valid guess: at most 8
/// bytes, an optional leading `+`, then at least one hex digit and nothing
/// else — exactly the texts `u32::from_str_radix` accepts at radix 16,
/// within the form's eight-character limit.
pub open spec fn spec_valid_guess(s: Seq<u8>) -> Option<u32> {
    if s.len() <= 8 && guess_digits(s).len() >= 1 && all_hex_digits(guess_digits(s)) {
        Some(hex_num(guess_digits(s)) as u32)
    } else {
        None
    }
}

/// Parse a submitted nonce text as up to 8 hex digits; anything else is an
/// invalid nonce, reported with the offending text.
pub fn validate_guess(nonce: String) -> (r: Result<u32, GuessError>)
    ensures
        (r is Ok) <==> spec_valid_guess(encode_utf8(nonce@)) is Some,
        r matches Ok(n) ==> spec_valid_guess(encode_utf8(nonce@)) == Some(n),
        r matches Err(e) ==> e == GuessError::InvalidNonce(nonce),
{
    let bytes = nonce.as_str().as_bytes();
    let ghost s = encode_utf8(nonce@);
    let len = bytes.len();
    let start: usize = if len > 0 && bytes[0] == 43 {
        1
    } else {
        0
    };
    let ghost digits = guess_digits(s);
    proof {
        assert(digits.len() == s.len() - start);
        assert(forall|k: int| 0 <= k < digits.len() ==> digits[k] == s[k + start]);
    }
    if len > 8 || start >= len {
        return Err(GuessError::InvalidNonce(nonce));
    }
    let mut value: u32 = 0;
    let mut i: usize = start;
    while i < len
        invariant
            s == encode_utf8(nonce@),
            bytes@ == s,
            len == s.len(),
            s.len() <= 8,
            start <= 1,
            start <= i <= len,
            start == 1 ==> s.len() > 0 && s[0] == 43,
            start == 0 ==> !(s.len() > 0 && s[0] == 43),
            digits == guess_digits(s),
            digits.len() == s.len() - start,
            forall|k: int| 0 <= k < digits.len() ==> digits[k] == s[k + start],
            forall|k: int| 0 <= k < i - start ==> is_hex_digit(#[trigger] digits[k]),
            value == hex_num(digits.take(i - start)),
        decreases len - i,
    {
        let b = bytes[i];
        let d: u32 = if b >= 48 && b <= 57 {
            (b - 48) as u32
        } else if b >= 97 && b <= 102 {
            (b - 87) as u32
        } else if b >= 65 && b <= 70 {
            (b - 55) as u32
        } else {
            proof {
                let k = i - start;
                assert(digits[k] == s[k + start]);
                assert(!all_hex_digits(guess_digits(s))) by {
                    assert(!is_hex_digit(guess_digits(s)[k]));
                };
            }
            return Err(GuessError::InvalidNonce(nonce));
        };
        proof {
            let k = i - start;
            assert(digits.take(k + 1).drop_last() =~= digits.take(k as int));
            assert(digits.take(k + 1).last() == digits[k as int]);
            assert(is_hex_digit(digits[k as int]) && hex_digit_val(digits[k as int]) == d);
            lemma_hex_num_bound(digits.take(k as int));
            lemma_pow16_small();
            assert(pow16(digits.take(k as int).len()) <= pow16(7)) by {
                lemma_pow16_monotone(digits.take(k as int).len(), 7);
            };
        }
        value = value * 16 + d;
        i += 1;
    }
    proof {
        assert(digits.take(i - start) =~= digits);
        lemma_hex_num_bound(digits);
        lemma_pow16_small();
        lemma_pow16_monotone(digits.len(), 8);
    }
    Ok(value)
}

/// The powers of 16 the parser works with, written out.
proof fn lemma_pow16_small()
    ensures
        pow16(7) == 0x1000_0000,
        pow16(8) == 0x1_0000_0000,
{
    assert(pow16(0) == 1);
    assert(pow16(1) == 16 * pow16(0));
    assert(pow16(2) == 16 * pow16(1));
    assert(pow16(3) == 16 * pow16(2));
    assert(pow16(4) == 16 * pow16(3));
    assert(pow16(5) == 16 * pow16(4));
    assert(pow16(6) == 16 * pow16(5));
    assert(pow16(7) == 16 * pow16(6));
    assert(pow16(8) == 16 * pow16(7));
}

/// Powers of 16 grow with the exponent.
proof fn lemma_pow16_monotone(m: nat, n: nat)
    requires
        m <= n,
    ensures
        pow16(m) <= pow16(n),
    decreases n,
{
    if m < n {
        lemma_pow16_monotone(m, (n - 1) as nat);
        assert(pow16((n - 1) as nat) <= 16 * pow16((n - 1) as nat)) by (nonlinear_arith)
            requires
                pow16((n - 1) as nat) >= 0,
        ;
    }
}

/// What a target-change request amounts to.
#[derive(Debug, Clone, Copy, PartialEq, Eq, Structural)]
pub enum TargetAction {
    /// Store a fresh unconfirmed target at this height.
    Create(u32),
    /// Migrate the unconfirmed target from the first height to the second.
    Replace(u32, u32),
}

/// The decision table of a target-change request, given the current target:
/// with no target or a confirmed one, a greater height starts a fresh target;
/// with an unconfirmed one, a greater height migrates it, guesses included;
/// a height not above the current one is rejected.
pub open spec fn spec_plan_target_form(
    current: Option<(u32, Option<u32>)>,
    new_height: u32,
) -> Result<TargetAction, TargetError> {
    match current {
        None => Ok(TargetAction::Create(new_height)),
        Some((height, nonce)) => {
            if new_height > height {
                match nonce {
                    Some(_) => Ok(TargetAction::Create(new_height)),
                    None => Ok(TargetAction::Replace(height, new_height)),
                }
            } else {
                Err(TargetError::InvalidHeight(new_height))
            }
        },
    }
}

/// Decide what a target-change request does, given the current target.
pub fn plan_target_form(current: Option<(u32, Option<u32>)>, new_height: u32) -> (r: Result<
    TargetAction,
    TargetError,
>)
    ensures
        r == spec_plan_target_form(current, new_height),
{
    match current {
        None => Ok(TargetAction::Create(new_height)),
        Some((height, nonce)) => {
            if new_height > height {
                match nonce {
                    Some(_) => Ok(TargetAction::Create(new_height)),
                    None => Ok(TargetAction::Replace(height, new_height)),
                }
            } else {
                Err(TargetError::InvalidHeight(new_height))
            }
        },
    }
}

/// Decide what a guess submission does, given the current target and the
/// logged-in player: with no target, or no player, nothing is stored; a
/// confirmed target rejects the guess with its nonce; otherwise the text must
/// parse, and the parsed guess is stored under the target height.
pub fn plan_guess_form(
    current: Option<(u32, Option<u32>)>,
    player: Option<u128>,
    form: GuessForm,
) -> (r: Result<Option<(u32, Guess)>, GuessError>)
    ensures
        current is None ==> r == Ok::<Option<(u32, Guess)>, GuessError>(None),
        current matches Some((height, Some(n))) ==> r == Err::<Option<(u32, Guess)>, GuessError>(GuessError::ConfirmedTarget(n)),
        current matches Some((height, None)) ==> match spec_valid_guess(
            encode_utf8(form.guess@),
        ) {
            Some(nonce) => match player {
                Some(p) => r == Ok::<Option<(u32, Guess)>, GuessError>(Some((height, Guess { player: p, nonce }))),
                None => r == Ok::<Option<(u32, Guess)>, GuessError>(None),
            },
            None => r matches Err(e) && e matches GuessError::InvalidNonce(bad) && bad@
                == form.guess@,
        },
{
    let (height, nonce_opt) = match current {
        Some(pair) => pair,
        None => {
            return Ok(None);
        },
    };
    if let Some(nonce) = nonce_opt {
        return Err(GuessError::ConfirmedTarget(nonce));
    }
    let nonce = match validate_guess(form.guess) {
        Ok(n) => n,
        Err(e) => {
            return Err(e);
        },
    };
    match player {
        Some(p) => Ok(Some((height, Guess { player: p, nonce }))),
        None => Ok(None),
    }
}

/// The lowercase hex digit of a value below 16.
pub open spec fn hex_char(d: nat) -> char {
    if d == 0 {
        '0'
    } else if d == 1 {
        '1'
    } else if d == 2 {
        '2'
    } else if d == 3 {
        '3'
    } else if d == 4 {
        '4'
    } else if d == 5 {
        '5'
    } else if d == 6 {
        '6'
    } else if d == 7 {
        '7'
    } else if d == 8 {
        '8'
    } else if d == 9 {
        '9'
    } else if d == 10 {
        'a'
    } else if d == 11 {
        'b'
    } else if d == 12 {
        'c'
    } else if d == 13 {
        'd'
    } else if d == 14 {
        'e'
    } else {
        'f'
    }
}

/// The lowercase hex digits of `n`, most significant first and without
/// leading zeros, as the guess table renders a nonce.
pub open spec fn hex_chars(n: nat) -> Seq<char>
    decreases n,
{
    if n < 16 {
        seq![hex_char(n)]
    } else {
        hex_chars(n / 16).push(hex_char(n % 16))
    }
}

/// One lowercase hex digit as text.
fn hex_digit_str(d: u32) -> (r: &'static str)
    requires
        d < 16,
    ensures
        r@ == seq![hex_char(d as nat)],
{
    if d == 0 {
        proof {
            reveal_strlit("0");
            assert("0"@ =~= seq![hex_char(0)]);
        }
        "0"
    } else if d == 1 {
        proof {
            reveal_strlit("1");
            assert("1"@ =~= seq![hex_char(1)]);
        }
        "1"
    } else if d == 2 {
        proof {
            reveal_strlit("2");
            assert("2"@ =~= seq![hex_char(2)]);
        }
        "2"
    } else if d == 3 {
        proof {
            reveal_strlit("3");
            assert("3"@ =~= seq![hex_char(3)]);
        }
        "3"
    } else if d == 4 {
        proof {
            reveal_strlit("4");
            assert("4"@ =~= seq![hex_char(4)]);
        }
        "4"
    } else if d == 5 {
        proof {
            reveal_strlit("5");
            assert("5"@ =~= seq![hex_char(5)]);
        }
        "5"
    } else if d == 6 {
        proof {
            reveal_strlit("6");
            assert("6"@ =~= seq![hex_char(6)]);
        }
        "6"
    } else if d == 7 {
        proof {
            reveal_strlit("7");
            assert("7"@ =~= seq![hex_char(7)]);
        }
        "7"
    } else if d == 8 {
        proof {
            reveal_strlit("8");
            assert("8"@ =~= seq![hex_char(8)]);
        }
        "8"
    } else if d == 9 {
        proof {
            reveal_strlit("9");
            assert("9"@ =~= seq![hex_char(9)]);
        }
        "9"
    } else if d == 10 {
        proof {
            reveal_strlit("a");
            assert("a"@ =~= seq![hex_char(10)]);
        }
        "a"
    } else if d == 11 {
        proof {
            reveal_strlit("b");
            assert("b"@ =~= seq![hex_char(11)]);
        }
        "b"
    } else if d == 12 {
        proof {
            reveal_strlit("c");
            assert("c"@ =~= seq![hex_char(12)]);
        }
        "c"
    } else if d == 13 {
        proof {
            reveal_strlit("d");
            assert("d"@ =~= seq![hex_char(13)]);
        }
        "d"
    } else if d == 14 {
        proof {
            reveal_strlit("e");
            assert("e"@ =~= seq![hex_char(14)]);
        }
        "e"
    } else {
        proof {
            reveal_strlit("f");
            assert("f"@ =~= seq![hex_char(15)]);
        }
        "f"
    }
}

/// Render a nonce in lowercase hex, as the guess table shows it.
pub fn u32_to_hex(n: u32) -> (r: String)
    ensures
        r@ == hex_chars(n as nat),
    decreases n,
{
    if n < 16 {
        hex_digit_str(n).to_owned()
    } else {
        proof {
            assert(1 <= n / 16 < n) by (nonlinear_arith)
                requires
                    n >= 16,
            ;
        }
        let mut s = u32_to_hex(n / 16);
        s.append(hex_digit_str(n % 16));
        proof {
            assert(hex_chars((n / 16) as nat) + seq![hex_char((n % 16) as nat)] =~= hex_chars(
                n as nat,
            ));
        }
        s
    }
}

/// The name the player table gives an identifier: the first matching entry.
pub open spec fn player_name(players: Seq<(u128, String)>, player: u128) -> Seq<char>
    decreases players.len(),
{
    if players.len() == 0 {
        Seq::empty()
    } else if players[0].0 == player {
        players[0].1@
    } else {
        player_name(players.skip(1), player)
    }
}

/// Some entry of the player table has this identifier.
pub open spec fn has_player_entry(players: Seq<(u128, String)>, player: u128) -> bool {
    exists|i: int| 0 <= i < players.len() && players[i].0 == player
}

/// The first matching entry is the one the lookup answers with.
proof fn lemma_player_name_at(players: Seq<(u128, String)>, player: u128, i: int)
    requires
        0 <= i < players.len(),
        players[i].0 == player,
        forall|k: int| 0 <= k < i ==> players[k].0 != player,
    ensures
        player_name(players, player) == players[i].1@,
    decreases i,
{
    if i > 0 {
        assert(players[0].0 != player);
        assert(players.skip(1)[i - 1] == players[i]);
        assert(forall|k: int| 0 <= k < i - 1 ==> players.skip(1)[k] == players[k + 1]);
        lemma_player_name_at(players.skip(1), player, i - 1);
    }
}

/// Find the player's name, scanning the table front to back.
fn lookup_player_name(players: &Vec<(u128, String)>, player: u128) -> (r: String)
    requires
        has_player_entry(players@, player),
    ensures
        r@ == player_name(players@, player),
{
    let mut i: usize = 0;
    while i < players.len()
        invariant
            has_player_entry(players@, player),
            i <= players@.len(),
            forall|k: int| 0 <= k < i ==> players@[k].0 != player,
        decreases players@.len() - i,
    {
        if players[i].0 == player {
            proof {
                lemma_player_name_at(players@, player, i as int);
            }
            return players[i].1.clone();
        }
        i += 1;
    }
    proof {
        let w = choose|w: int| 0 <= w < players@.len() && players@[w].0 == player;
        assert(false);
    }
    unreached()
}

/// One guess rendered as a table row: the player's name, the nonce in hex,
/// and the nonce in decimal.
pub open spec fn is_row_for(players: Seq<(u128, String)>, g: Guess, row: GuessTableData) -> bool {
    &&& row.decimal == g.nonce
    &&& row.hex@ == hex_chars(g.nonce as nat)
    &&& row.name@ == player_name(players, g.player)
}

/// Build the guess table: each guess becomes a row for its player, in the
/// order the guesses come in.
pub fn guess_table_rows(guesses: &Vec<Guess>, players: &Vec<(u128, String)>) -> (r: Vec<
    GuessTableData,
>)
    requires
        forall|i: int|
            0 <= i < guesses@.len() ==> has_player_entry(players@, (#[trigger] guesses@[i]).player),
    ensures
        r@.len() == guesses@.len(),
        forall|i: int| 0 <= i < r@.len() ==> is_row_for(players@, guesses@[i], #[trigger] r@[i]),
{
    let mut rows: Vec<GuessTableData> = Vec::new();
    let mut i: usize = 0;
    while i < guesses.len()
        invariant
            forall|k: int|
                0 <= k < guesses@.len() ==> has_player_entry(
                    players@,
                    (#[trigger] guesses@[k]).player,
                ),
            i <= guesses@.len(),
            rows@.len() == i,
            forall|k: int|
                0 <= k < i ==> is_row_for(players@, guesses@[k], #[trigger] rows@[k]),
        decreases guesses@.len() - i,
    {
        let guess = &guesses[i];
        let row = GuessTableData {
            name: lookup_player_name(players, guess.player),
            hex: u32_to_hex(guess.nonce),
            decimal: guess.nonce,
        };
        rows.push(row);
        i += 1;
    }
    rows
}

/// Distance of a rendered nonce from the target nonce.
pub open spec fn target_diff(decimal: u32, target_nonce: u32) -> int {
    if decimal >= target_nonce {
        decimal - target_nonce
    } else {
        target_nonce - decimal
    }
}

/// Rows ordered by distance to the target nonce, closest first.
pub open spec fn sorted_by_target_diff(s: Seq<GuessTableData>, target_nonce: u32) -> bool {
    forall|i: int, j: int|
        0 <= i < j < s.len() ==> target_diff(s[i].decimal, target_nonce) <= target_diff(
            s[j].decimal,
            target_nonce,
        )
}

/// Byte order of player names, the order `String` comparison gives.
pub open spec fn name_le(a: GuessTableData, b: GuessTableData) -> bool {
    lex_lt(encode_utf8(a.name@), encode_utf8(b.name@)) || encode_utf8(a.name@) == encode_utf8(
        b.name@,
    )
}

/// Rows ordered by player name.
pub open spec fn sorted_by_name(s: Seq<GuessTableData>) -> bool {
    forall|i: int, j: int| 0 <= i < j < s.len() ==> name_le(s[i], s[j])
}

/// A prefix on which two byte strings agree settles nothing: the comparison
/// is decided by what follows.
proof fn lemma_lex_skip(a: Seq<u8>, b: Seq<u8>, i: int)
    requires
        0 <= i <= a.len(),
        i <= b.len(),
        forall|k: int| 0 <= k < i ==> a[k] == b[k],
    ensures
        lex_lt(a, b) == lex_lt(a.skip(i), b.skip(i)),
    decreases i,
{
    if i == 0 {
        assert(a.skip(0) =~= a);
        assert(b.skip(0) =~= b);
    } else {
        assert(a[0] == b[0]);
        assert(forall|k: int| 0 <= k < i - 1 ==> a.skip(1)[k] == b.skip(1)[k]) by {
            assert(forall|k: int| 0 <= k < a.len() - 1 ==> a.skip(1)[k] == a[k + 1]);
            assert(forall|k: int| 0 <= k < b.len() - 1 ==> b.skip(1)[k] == b[k + 1]);
        }
        lemma_lex_skip(a.skip(1), b.skip(1), i - 1);
        assert(a.skip(1).skip(i - 1) =~= a.skip(i));
        assert(b.skip(1).skip(i - 1) =~= b.skip(i));
    }
}

/// Compare two byte strings: is the first at or before the second in
/// lexicographic order?
fn bytes_le(a: &[u8], b: &[u8]) -> (r: bool)
    ensures
        r == (lex_lt(a@, b@) || a@ == b@),
{
    let mut i: usize = 0;
    while i < a.len() && i < b.len()
        invariant
            i <= a@.len(),
            i <= b@.len(),
            forall|k: int| 0 <= k < i ==> a@[k] == b@[k],
        decreases a@.len() - i,
    {
        if a[i] < b[i] {
            proof {
                lemma_lex_skip(a@, b@, i as int);
            }
            return true;
        }
        if a[i] > b[i] {
            proof {
                lemma_lex_skip(a@, b@, i as int);
                lemma_lex_skip(b@, a@, i as int);
                if a@ == b@ {
                    assert(a@[i as int] == b@[i as int]);
                }
            }
            return false;
        }
        i += 1;
    }
    proof {
        lemma_lex_skip(a@, b@, i as int);
        lemma_lex_skip(b@, a@, i as int);
        if a@.len() == b@.len() {
            assert(a@ =~= b@);
        }
    }
    a.len() <= b.len()
}

/// Compare two rows by player name.
fn name_le_exec(a: &GuessTableData, b: &GuessTableData) -> (r: bool)
    ensures
        r == name_le(*a, *b),
{
    bytes_le(a.name.as_str().as_bytes(), b.name.as_str().as_bytes())
}

/// The name order is total.
proof fn lemma_name_le_total(a: GuessTableData, b: GuessTableData)
    ensures
        name_le(a, b) || name_le(b, a),
{
    crate::rows::lemma_lex_total(encode_utf8(a.name@), encode_utf8(b.name@));
}

/// The name order is transitive.
proof fn lemma_name_le_trans(a: GuessTableData, b: GuessTableData, c: GuessTableData)
    requires
        name_le(a, b),
        name_le(b, c),
    ensures
        name_le(a, c),
{
    let ba = encode_utf8(a.name@);
    let bb = encode_utf8(b.name@);
    let bc = encode_utf8(c.name@);
    if lex_lt(ba, bb) && lex_lt(bb, bc) {
        crate::rows::lemma_lex_trans(ba, bb, bc);
    }
}

/// Absolute distance between a rendered nonce and the target nonce.
fn target_diff_exec(decimal: u32, target_nonce: u32) -> (r: u32)
    ensures
        r == target_diff(decimal, target_nonce),
{
    if decimal >= target_nonce {
        decimal - target_nonce
    } else {
        target_nonce - decimal
    }
}

/// Sort the guess table by absolute distance to the actual block nonce,
/// closest guess — the winner — first. The rows are a permutation of the
/// rows given.
pub fn sort_guesses_by_target_diff(guesses: &mut Vec<GuessTableData>, target_nonce: u32)
    ensures
        final(guesses)@.to_multiset() == old(guesses)@.to_multiset(),
        final(guesses)@.len() == old(guesses)@.len(),
        sorted_by_target_diff(final(guesses)@, target_nonce),
{
    let mut i: usize = 1;
    while i < guesses.len()
        invariant
            guesses@.to_multiset() == old(guesses)@.to_multiset(),
            guesses@.len() == old(guesses)@.len(),
            1 <= i,
            forall|k: int, l: int|
                0 <= k < l < i && l < guesses@.len() ==> target_diff(
                    guesses@[k].decimal,
                    target_nonce,
                ) <= target_diff(guesses@[l].decimal, target_nonce),
        decreases guesses@.len() - i,
    {
        let ghost s = guesses@;
        let xdec = guesses[i].decimal;
        let xd = target_diff_exec(xdec, target_nonce);
        let mut j: usize = 0;
        while j < i && target_diff_exec(guesses[j].decimal, target_nonce) <= xd
            invariant
                guesses@ == s,
                i < s.len(),
                xdec == s[i as int].decimal,
                xd == target_diff(xdec, target_nonce),
                j <= i,
                forall|k: int|
                    0 <= k < j ==> target_diff((#[trigger] s[k]).decimal, target_nonce)
                        <= target_diff(xdec, target_nonce),
            decreases i - j,
        {
            j += 1;
        }
        let x = guesses.remove(i);
        guesses.insert(j, x);
        proof {
            lemma_sorted_insert_step(s, guesses@, i as int, j as int, target_nonce);
        }
        i += 1;
    }
}

/// Moving the element at `i` back to its place `j` keeps the prefix sorted
/// and the contents unchanged.
proof fn lemma_sorted_insert_step(
    s: Seq<GuessTableData>,
    t: Seq<GuessTableData>,
    i: int,
    j: int,
    target_nonce: u32,
)
    requires
        0 <= j <= i < s.len(),
        t == s.remove(i).insert(j, s[i]),
        forall|k: int, l: int|
            0 <= k < l < i && l < s.len() ==> target_diff((#[trigger] s[k]).decimal, target_nonce)
                <= target_diff((#[trigger] s[l]).decimal, target_nonce),
        forall|k: int|
            0 <= k < j ==> target_diff((#[trigger] s[k]).decimal, target_nonce) <= target_diff(
                s[i].decimal,
                target_nonce,
            ),
        j < i ==> target_diff(s[j].decimal, target_nonce) > target_diff(
            s[i].decimal,
            target_nonce,
        ),
    ensures
        t.to_multiset() == s.to_multiset(),
        t.len() == s.len(),
        forall|k: int, l: int|
            0 <= k < l < i + 1 && l < t.len() ==> target_diff(
                (#[trigger] t[k]).decimal,
                target_nonce,
            ) <= target_diff((#[trigger] t[l]).decimal, target_nonce),
{
    broadcast use vstd::seq_lib::group_to_multiset_ensures;

    let x = s[i];
    assert(s.remove(i).to_multiset() =~= s.to_multiset().remove(x));
    assert(t.to_multiset() =~= s.to_multiset().remove(x).insert(x));
    assert(s.contains(x)) by {
        assert(s[i] == x);
    }
    assert(s.to_multiset().count(x) > 0);
    assert(t.to_multiset() =~= s.to_multiset());
    assert(forall|m: int| 0 <= m < j ==> t[m] == s[m]);
    assert(t[j] == x);
    assert(forall|m: int| j < m <= i ==> t[m] == s[m - 1]);
    assert forall|k: int, l: int| 0 <= k < l < i + 1 && l < t.len() implies target_diff(
        (#[trigger] t[k]).decimal,
        target_nonce,
    ) <= target_diff((#[trigger] t[l]).decimal, target_nonce) by {
        let dk = if k < j {
            s[k]
        } else if k == j {
            x
        } else {
            s[k - 1]
        };
        let dl = if l < j {
            s[l]
        } else if l == j {
            x
        } else {
            s[l - 1]
        };
        assert(t[k] == dk && t[l] == dl);
        if k == j && l > j {
            if l - 1 > j {
                assert(target_diff(s[j].decimal, target_nonce) <= target_diff(
                    s[l - 1].decimal,
                    target_nonce,
                ));
            }
        }
    }
}

/// Sort the guess table by player name, in byte order. The rows are a
/// permutation of the rows given.
pub fn sort_rows_by_name(rows: &mut Vec<GuessTableData>)
    ensures
        final(rows)@.to_multiset() == old(rows)@.to_multiset(),
        final(rows)@.len() == old(rows)@.len(),
        sorted_by_name(final(rows)@),
{
    let mut i: usize = 1;
    while i < rows.len()
        invariant
            rows@.to_multiset() == old(rows)@.to_multiset(),
            rows@.len() == old(rows)@.len(),
            1 <= i,
            forall|k: int, l: int|
                0 <= k < l < i && l < rows@.len() ==> name_le(
                    #[trigger] rows@[k],
                    #[trigger] rows@[l],
                ),
        decreases rows@.len() - i,
    {
        let ghost s = rows@;
        let mut j: usize = 0;
        loop
            invariant
                rows@ == s,
                i < s.len(),
                j <= i,
                forall|k: int| 0 <= k < j ==> name_le(#[trigger] s[k], s[i as int]),
            ensures
                j <= i,
                forall|k: int| 0 <= k < j ==> name_le(#[trigger] s[k], s[i as int]),
                j < i ==> !name_le(s[j as int], s[i as int]),
            decreases i - j,
        {
            if j >= i {
                break ;
            }
            if !name_le_exec(&rows[j], &rows[i]) {
                break ;
            }
            j += 1;
        }
        let x = rows.remove(i);
        rows.insert(j, x);
        proof {
            lemma_name_insert_step(s, rows@, i as int, j as int);
        }
        i += 1;
    }
}

/// Moving the element at `i` back to its place `j` keeps the prefix ordered
/// by name and the contents unchanged.
proof fn lemma_name_insert_step(s: Seq<GuessTableData>, t: Seq<GuessTableData>, i: int, j: int)
    requires
        0 <= j <= i < s.len(),
        t == s.remove(i).insert(j, s[i]),
        forall|k: int, l: int|
            0 <= k < l < i && l < s.len() ==> name_le(#[trigger] s[k], #[trigger] s[l]),
        forall|k: int| 0 <= k < j ==> name_le(#[trigger] s[k], s[i]),
        j < i ==> !name_le(s[j], s[i]),
    ensures
        t.to_multiset() == s.to_multiset(),
        t.len() == s.len(),
        forall|k: int, l: int|
            0 <= k < l < i + 1 && l < t.len() ==> name_le(#[trigger] t[k], #[trigger] t[l]),
{
    broadcast use vstd::seq_lib::group_to_multiset_ensures;

    let x = s[i];
    assert(s.remove(i).to_multiset() =~= s.to_multiset().remove(x));
    assert(t.to_multiset() =~= s.to_multiset().remove(x).insert(x));
    assert(s.contains(x)) by {
        assert(s[i] == x);
    }
    assert(s.to_multiset().count(x) > 0);
    assert(t.to_multiset() =~= s.to_multiset());
    assert(forall|m: int| 0 <= m < j ==> t[m] == s[m]);
    assert(t[j] == x);
    assert(forall|m: int| j < m <= i ==> t[m] == s[m - 1]);
    if j < i {
        lemma_name_le_total(s[j], x);
    }
    assert forall|k: int, l: int| 0 <= k < l < i + 1 && l < t.len() implies name_le(
        #[trigger] t[k],
        #[trigger] t[l],
    ) by {
        if k < j && l == j {
            assert(name_le(s[k], x));
        } else if k == j && l > j {
            assert(name_le(x, s[j]));
            if l - 1 > j {
                assert(name_le(s[j], s[l - 1]));
                lemma_name_le_trans(x, s[j], s[l - 1]);
            }
        }
    }
}

/// Order the guess table for display: by distance to the nonce once the
/// target is confirmed, by player name while it is open.
pub fn sort_rows_for_target(rows: &mut Vec<GuessTableData>, target: Option<(u32, Option<u32>)>)
    ensures
        final(rows)@.to_multiset() == old(rows)@.to_multiset(),
        final(rows)@.len() == old(rows)@.len(),
        match target {
            Some((height, Some(nonce))) => sorted_by_target_diff(final(rows)@, nonce),
            _ => sorted_by_name(final(rows)@),
        },
{
    match target {
        Some((_, Some(nonce))) => sort_guesses_by_target_diff(rows, nonce),
        _ => sort_rows_by_name(rows),
    }
}

/// Whether the page should ask the store if the player may still add a
/// guess, and for whom: only a logged-in player facing an unconfirmed target
/// can, and the guess form is then shown unless that player already guessed.
pub fn guess_prompt_query(player: Option<u128>, target: Option<(u32, Option<u32>)>) -> (r: Option<
    (u32, u128),
>)
    ensures
        r == (match (player, target) {
            (Some(p), Some((height, None))) => Some((height, p)),
            _ => None,
        }),
{
    match (player, target) {
        (Some(p), Some((height, None))) => Some((height, p)),
        _ => None,
    }
}

} // verus!
