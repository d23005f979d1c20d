//! The snapshot codec: the world as a single self-contained text snapshot,
//! and the decoder that restores it.
//!
//! The format is field-tagged and length-prefixed.  A number is written as
//! its decimal digits, least significant first; a string as its length, a
//! colon, and its characters; a list as its element count, a semicolon, and
//! its encoded elements.  A snapshot is a fixed header line, the player's
//! location, the player, and the room table.  Every piece is
//! self-delimiting, so decoding is a single left-to-right pass, and the
//! decoder restores exactly the encoded world ([`lemma_dec_world_enc`]).

use vstd::prelude::*;

use crate::entities::player::PlayerV;
use crate::entities::room::{Room, RoomV};
use crate::text::push_char;
use crate::world_building::WorldV;

verus! {

/// Whether the character is a decimal digit.
pub open spec fn is_digit(c: char) -> bool {
    c == '0' || c == '1' || c == '2' || c == '3' || c == '4' || c == '5' || c == '6' || c == '7'
        || c == '8' || c == '9'
}

/// The digit character for a value below ten.
pub open spec fn digit_char(d: int) -> char {
    if d == 0 {
        '0'
    } else if d == 1 {
        '1'
    } else if d == 2 {
        '2'
    } else if d == 3 {
        '3'
    } else if d == 4 {
        '4'
    } else if d == 5 {
        '5'
    } else if d == 6 {
        '6'
    } else if d == 7 {
        '7'
    } else if d == 8 {
        '8'
    } else {
        '9'
    }
}

/// The value of a digit character.
pub open spec fn digit_val(c: char) -> int {
    if c == '0' {
        0
    } else if c == '1' {
        1
    } else if c == '2' {
        2
    } else if c == '3' {
        3
    } else if c == '4' {
        4
    } else if c == '5' {
        5
    } else if c == '6' {
        6
    } else if c == '7' {
        7
    } else if c == '8' {
        8
    } else {
        9
    }
}

/// A number, encoded as its decimal digits, least significant first.
pub open spec fn enc_nat(n: nat) -> Seq<char>
    decreases n,
{
    if n < 10 {
        seq![digit_char(n as int)]
    } else {
        seq![digit_char((n % 10) as int)] + enc_nat(n / 10)
    }
}

/// Every character of an encoded number is a digit.
pub proof fn lemma_enc_nat_digits(n: nat)
    ensures
        enc_nat(n).len() >= 1,
        forall|i: int| 0 <= i < enc_nat(n).len() ==> is_digit(#[trigger] enc_nat(n)[i]),
    decreases n,
{
    if n >= 10 {
        lemma_enc_nat_digits(n / 10);
    }
}

/// Decode a number at `pos`: the maximal digit run, least significant
/// digit first.  Fails on no digit and on a value beyond the machine's
/// reach.
pub open spec fn dec_nat(s: Seq<char>, pos: int) -> Option<(int, int)>
    decreases s.len() - pos,
{
    if pos < 0 || pos >= s.len() || !is_digit(s[pos]) {
        None
    } else {
        let d = digit_val(s[pos]);
        if pos + 1 < s.len() && is_digit(s[pos + 1]) {
            match dec_nat(s, pos + 1) {
                Some(r) => if d + 10 * r.0 <= usize::MAX {
                    Some((d + 10 * r.0, r.1))
                } else {
                    None
                },
                None => None,
            }
        } else {
            Some((d, pos + 1))
        }
    }
}

/// An encoded number embedded in a text, with no digit right behind it,
/// decodes to the encoded value.
pub proof fn lemma_dec_nat_enc(s: Seq<char>, pos: int, n: nat)
    requires
        0 <= pos,
        n <= usize::MAX,
        pos + enc_nat(n).len() <= s.len(),
        s.subrange(pos, pos + enc_nat(n).len()) == enc_nat(n),
        pos + enc_nat(n).len() == s.len() || !is_digit(s[pos + enc_nat(n).len()]),
    ensures
        dec_nat(s, pos) == Some((n as int, pos + enc_nat(n).len())),
    decreases n,
{
    lemma_enc_nat_digits(n);
    assert(forall|i: int|
        0 <= i < enc_nat(n).len() ==> s[pos + i] == #[trigger] enc_nat(n)[i]) by {
        assert(forall|i: int|
            0 <= i < enc_nat(n).len() ==> #[trigger] enc_nat(n)[i] == s.subrange(
                pos,
                pos + enc_nat(n).len(),
            )[i]);
    }
    if n < 10 {
        assert(enc_nat(n)[0] == digit_char(n as int));
        assert(s[pos + 0] == enc_nat(n)[0]);
        assert(s[pos] == digit_char(n as int));
        assert(digit_val(digit_char(n as int)) == n);
        assert(pos + 1 == s.len() || !is_digit(s[pos + 1]));
    } else {
        let tail = enc_nat(n / 10);
        assert(enc_nat(n)[0] == digit_char((n % 10) as int));
        assert(s[pos] == digit_char((n % 10) as int));
        assert(digit_val(s[pos]) == n % 10);
        assert(s.subrange(pos + 1, pos + 1 + tail.len()) =~= tail) by {
            assert(forall|i: int| 0 <= i < tail.len() ==> #[trigger] tail[i] == enc_nat(n)[1 + i]);
        }
        lemma_dec_nat_enc(s, pos + 1, n / 10);
        assert(enc_nat(n)[1] == tail[0]);
        assert(is_digit(s[pos + 1]));
        assert(digit_val(s[pos]) + 10 * ((n / 10) as int) == n as int);
    }
}

/// A string short enough to exist in memory.
pub open spec fn str_bounded(x: Seq<char>) -> bool {
    x.len() <= usize::MAX
}

/// A list of strings, each and the list itself short enough to exist.
pub open spec fn strs_bounded(xs: Seq<Seq<char>>) -> bool {
    xs.len() <= usize::MAX && forall|i: int| 0 <= i < xs.len() ==> str_bounded(#[trigger] xs[i])
}

/// A list of string pairs, each part and the list short enough to exist.
pub open spec fn pairs_bounded(ps: Seq<(Seq<char>, Seq<char>)>) -> bool {
    &&& ps.len() <= usize::MAX
    &&& forall|i: int| 0 <= i < ps.len() ==> str_bounded((#[trigger] ps[i]).0) && str_bounded(
        ps[i].1,
    )
}

/// A string, encoded as its length, a colon, and its characters.
pub open spec fn enc_str(x: Seq<char>) -> Seq<char> {
    enc_nat(x.len()) + seq![':'] + x
}

/// Decode a string at `pos`: a length, a colon, and that many characters.
pub open spec fn dec_str(s: Seq<char>, pos: int) -> Option<(Seq<char>, int)> {
    match dec_nat(s, pos) {
        None => None,
        Some(r) => {
            let (n, p) = r;
            if p < s.len() && s[p] == ':' && p + 1 + n <= s.len() {
                Some((s.subrange(p + 1, p + 1 + n), p + 1 + n))
            } else {
                None
            }
        },
    }
}

/// An encoded string embedded in a text decodes to the encoded string.
pub proof fn lemma_dec_str_enc(s: Seq<char>, pos: int, x: Seq<char>)
    requires
        0 <= pos,
        str_bounded(x),
        pos + enc_str(x).len() <= s.len(),
        s.subrange(pos, pos + enc_str(x).len()) == enc_str(x),
    ensures
        dec_str(s, pos) == Some((x, pos + enc_str(x).len())),
{
    let digits = enc_nat(x.len());
    let a = digits.len();
    let l = enc_str(x).len();
    assert(forall|i: int| 0 <= i < l ==> s[pos + i] == #[trigger] enc_str(x)[i]) by {
        assert(forall|i: int|
            0 <= i < l ==> #[trigger] enc_str(x)[i] == s.subrange(pos, pos + l)[i]);
    }
    assert(s.subrange(pos, pos + a) =~= digits) by {
        assert(forall|i: int| 0 <= i < a ==> #[trigger] digits[i] == enc_str(x)[i]);
    }
    assert(enc_str(x)[a as int] == ':');
    assert(s[pos + a] == ':');
    lemma_dec_nat_enc(s, pos, x.len());
    assert(s.subrange(pos + a + 1, pos + a + 1 + x.len()) =~= x) by {
        assert(forall|i: int| 0 <= i < x.len() ==> #[trigger] x[i] == enc_str(x)[a + 1 + i]);
    }
}

/// A list of strings, encoded one after the other.
pub open spec fn enc_strs(xs: Seq<Seq<char>>) -> Seq<char>
    decreases xs.len(),
{
    if xs.len() == 0 {
        Seq::empty()
    } else {
        enc_str(xs.first()) + enc_strs(xs.drop_first())
    }
}

/// Appending one string extends the encoding by that string's encoding.
pub proof fn lemma_enc_strs_push(xs: Seq<Seq<char>>, x: Seq<char>)
    ensures
        enc_strs(xs.push(x)) == enc_strs(xs) + enc_str(x),
    decreases xs.len(),
{
    if xs.len() == 0 {
        assert(xs.push(x).drop_first() =~= Seq::<Seq<char>>::empty());
        assert(enc_strs(Seq::<Seq<char>>::empty()) == Seq::<char>::empty());
        assert(enc_strs(xs.push(x)) =~= enc_strs(xs) + enc_str(x));
    } else {
        assert(xs.push(x).drop_first() =~= xs.drop_first().push(x));
        lemma_enc_strs_push(xs.drop_first(), x);
        assert(enc_strs(xs.push(x)) =~= enc_strs(xs) + enc_str(x));
    }
}

/// A list of strings, encoded as its element count, a semicolon, and the
/// encoded elements.
pub open spec fn enc_list(xs: Seq<Seq<char>>) -> Seq<char> {
    enc_nat(xs.len()) + seq![';'] + enc_strs(xs)
}

/// Decode `count` strings one after the other, starting at `pos`.
pub open spec fn dec_strs(s: Seq<char>, pos: int, count: nat) -> Option<(Seq<Seq<char>>, int)>
    decreases count,
{
    if count == 0 {
        Some((Seq::empty(), pos))
    } else {
        match dec_str(s, pos) {
            None => None,
            Some(r) => {
                match dec_strs(s, r.1, (count - 1) as nat) {
                    None => None,
                    Some(t) => Some((seq![r.0] + t.0, t.1)),
                }
            },
        }
    }
}

/// Decode a list of strings at `pos`: a count, a semicolon, and that many
/// strings.
pub open spec fn dec_list(s: Seq<char>, pos: int) -> Option<(Seq<Seq<char>>, int)> {
    match dec_nat(s, pos) {
        None => None,
        Some(r) => {
            let (n, p) = r;
            if p < s.len() && s[p] == ';' {
                dec_strs(s, p + 1, n as nat)
            } else {
                None
            }
        },
    }
}

/// Encoded strings embedded one after the other decode to the encoded
/// strings.
pub proof fn lemma_dec_strs_enc(s: Seq<char>, pos: int, xs: Seq<Seq<char>>)
    requires
        0 <= pos,
        forall|i: int| 0 <= i < xs.len() ==> str_bounded(#[trigger] xs[i]),
        pos + enc_strs(xs).len() <= s.len(),
        s.subrange(pos, pos + enc_strs(xs).len()) == enc_strs(xs),
    ensures
        dec_strs(s, pos, xs.len()) == Some((xs, pos + enc_strs(xs).len())),
    decreases xs.len(),
{
    if xs.len() == 0 {
        assert(Seq::<Seq<char>>::empty() =~= xs);
    } else {
        let x0 = xs.first();
        let rest = xs.drop_first();
        let l0 = enc_str(x0).len();
        let l = enc_strs(xs).len();
        assert(forall|i: int| 0 <= i < l ==> s[pos + i] == #[trigger] enc_strs(xs)[i]) by {
            assert(forall|i: int|
                0 <= i < l ==> #[trigger] enc_strs(xs)[i] == s.subrange(pos, pos + l)[i]);
        }
        assert(s.subrange(pos, pos + l0) =~= enc_str(x0)) by {
            assert(forall|i: int| 0 <= i < l0 ==> #[trigger] enc_str(x0)[i] == enc_strs(xs)[i]);
        }
        lemma_dec_str_enc(s, pos, x0);
        assert(s.subrange(pos + l0, pos + l0 + enc_strs(rest).len()) =~= enc_strs(rest)) by {
            assert(forall|i: int|
                0 <= i < enc_strs(rest).len() ==> #[trigger] enc_strs(rest)[i] == enc_strs(xs)[l0
                    + i]);
        }
        assert(forall|i: int| 0 <= i < rest.len() ==> rest[i] == xs[i + 1]);
        lemma_dec_strs_enc(s, pos + l0, rest);
        assert(seq![x0] + rest =~= xs);
    }
}

/// An encoded list embedded in a text decodes to the encoded list.
pub proof fn lemma_dec_list_enc(s: Seq<char>, pos: int, xs: Seq<Seq<char>>)
    requires
        0 <= pos,
        strs_bounded(xs),
        pos + enc_list(xs).len() <= s.len(),
        s.subrange(pos, pos + enc_list(xs).len()) == enc_list(xs),
    ensures
        dec_list(s, pos) == Some((xs, pos + enc_list(xs).len())),
{
    let digits = enc_nat(xs.len());
    let a = digits.len();
    let l = enc_list(xs).len();
    assert(forall|i: int| 0 <= i < l ==> s[pos + i] == #[trigger] enc_list(xs)[i]) by {
        assert(forall|i: int|
            0 <= i < l ==> #[trigger] enc_list(xs)[i] == s.subrange(pos, pos + l)[i]);
    }
    assert(s.subrange(pos, pos + a) =~= digits) by {
        assert(forall|i: int| 0 <= i < a ==> #[trigger] digits[i] == enc_list(xs)[i]);
    }
    assert(enc_list(xs)[a as int] == ';');
    assert(s[pos + a] == ';');
    lemma_dec_nat_enc(s, pos, xs.len());
    assert(s.subrange(pos + a + 1, pos + a + 1 + enc_strs(xs).len()) =~= enc_strs(xs)) by {
        assert(forall|i: int|
            0 <= i < enc_strs(xs).len() ==> #[trigger] enc_strs(xs)[i] == enc_list(xs)[a + 1 + i]);
    }
    lemma_dec_strs_enc(s, pos + a + 1, xs);
}

/// A pair of strings, encoded one after the other.
pub open spec fn enc_pair(p: (Seq<char>, Seq<char>)) -> Seq<char> {
    enc_str(p.0) + enc_str(p.1)
}

/// Decode a pair of strings at `pos`.
pub open spec fn dec_pair(s: Seq<char>, pos: int) -> Option<((Seq<char>, Seq<char>), int)> {
    match dec_str(s, pos) {
        None => None,
        Some(r) => match dec_str(s, r.1) {
            None => None,
            Some(t) => Some(((r.0, t.0), t.1)),
        },
    }
}

/// An encoded pair embedded in a text decodes to the encoded pair.
pub proof fn lemma_dec_pair_enc(s: Seq<char>, pos: int, p: (Seq<char>, Seq<char>))
    requires
        0 <= pos,
        str_bounded(p.0),
        str_bounded(p.1),
        pos + enc_pair(p).len() <= s.len(),
        s.subrange(pos, pos + enc_pair(p).len()) == enc_pair(p),
    ensures
        dec_pair(s, pos) == Some((p, pos + enc_pair(p).len())),
{
    let l0 = enc_str(p.0).len();
    let l = enc_pair(p).len();
    assert(forall|i: int| 0 <= i < l ==> s[pos + i] == #[trigger] enc_pair(p)[i]) by {
        assert(forall|i: int|
            0 <= i < l ==> #[trigger] enc_pair(p)[i] == s.subrange(pos, pos + l)[i]);
    }
    assert(s.subrange(pos, pos + l0) =~= enc_str(p.0)) by {
        assert(forall|i: int| 0 <= i < l0 ==> #[trigger] enc_str(p.0)[i] == enc_pair(p)[i]);
    }
    lemma_dec_str_enc(s, pos, p.0);
    assert(s.subrange(pos + l0, pos + l) =~= enc_str(p.1)) by {
        assert(forall|i: int|
            0 <= i < enc_str(p.1).len() ==> #[trigger] enc_str(p.1)[i] == enc_pair(p)[l0 + i]);
    }
    lemma_dec_str_enc(s, pos + l0, p.1);
    assert((p.0, p.1) == p);
}

/// A list of pairs, encoded one after the other.
pub open spec fn enc_pairs(ps: Seq<(Seq<char>, Seq<char>)>) -> Seq<char>
    decreases ps.len(),
{
    if ps.len() == 0 {
        Seq::empty()
    } else {
        enc_pair(ps.first()) + enc_pairs(ps.drop_first())
    }
}

/// Appending one pair extends the encoding by that pair's encoding.
pub proof fn lemma_enc_pairs_push(ps: Seq<(Seq<char>, Seq<char>)>, p: (Seq<char>, Seq<char>))
    ensures
        enc_pairs(ps.push(p)) == enc_pairs(ps) + enc_pair(p),
    decreases ps.len(),
{
    if ps.len() == 0 {
        assert(ps.push(p).drop_first() =~= Seq::<(Seq<char>, Seq<char>)>::empty());
        assert(enc_pairs(Seq::<(Seq<char>, Seq<char>)>::empty()) == Seq::<char>::empty());
        assert(enc_pairs(ps.push(p)) =~= enc_pairs(ps) + enc_pair(p));
    } else {
        assert(ps.push(p).drop_first() =~= ps.drop_first().push(p));
        lemma_enc_pairs_push(ps.drop_first(), p);
        assert(enc_pairs(ps.push(p)) =~= enc_pairs(ps) + enc_pair(p));
    }
}

/// A list of pairs, encoded as its element count, a semicolon, and the
/// encoded elements.
pub open spec fn enc_pair_list(ps: Seq<(Seq<char>, Seq<char>)>) -> Seq<char> {
    enc_nat(ps.len()) + seq![';'] + enc_pairs(ps)
}

/// Decode `count` pairs one after the other, starting at `pos`.
pub open spec fn dec_pairs(s: Seq<char>, pos: int, count: nat) -> Option<
    (Seq<(Seq<char>, Seq<char>)>, int),
>
    decreases count,
{
    if count == 0 {
        Some((Seq::empty(), pos))
    } else {
        match dec_pair(s, pos) {
            None => None,
            Some(r) => {
                match dec_pairs(s, r.1, (count - 1) as nat) {
                    None => None,
                    Some(t) => Some((seq![r.0] + t.0, t.1)),
                }
            },
        }
    }
}

/// Decode a list of pairs at `pos`: a count, a semicolon, and that many
/// pairs.
pub open spec fn dec_pair_list(s: Seq<char>, pos: int) -> Option<(Seq<(Seq<char>, Seq<char>)>, int)> {
    match dec_nat(s, pos) {
        None => None,
        Some(r) => {
            let (n, p) = r;
            if p < s.len() && s[p] == ';' {
                dec_pairs(s, p + 1, n as nat)
            } else {
                None
            }
        },
    }
}

/// Encoded pairs embedded one after the other decode to the encoded pairs.
pub proof fn lemma_dec_pairs_enc(s: Seq<char>, pos: int, ps: Seq<(Seq<char>, Seq<char>)>)
    requires
        0 <= pos,
        forall|i: int|
            0 <= i < ps.len() ==> str_bounded((#[trigger] ps[i]).0) && str_bounded(ps[i].1),
        pos + enc_pairs(ps).len() <= s.len(),
        s.subrange(pos, pos + enc_pairs(ps).len()) == enc_pairs(ps),
    ensures
        dec_pairs(s, pos, ps.len()) == Some((ps, pos + enc_pairs(ps).len())),
    decreases ps.len(),
{
    if ps.len() == 0 {
        assert(Seq::<(Seq<char>, Seq<char>)>::empty() =~= ps);
    } else {
        let p0 = ps.first();
        let rest = ps.drop_first();
        let l0 = enc_pair(p0).len();
        let l = enc_pairs(ps).len();
        assert(forall|i: int| 0 <= i < l ==> s[pos + i] == #[trigger] enc_pairs(ps)[i]) by {
            assert(forall|i: int|
                0 <= i < l ==> #[trigger] enc_pairs(ps)[i] == s.subrange(pos, pos + l)[i]);
        }
        assert(s.subrange(pos, pos + l0) =~= enc_pair(p0)) by {
            assert(forall|i: int| 0 <= i < l0 ==> #[trigger] enc_pair(p0)[i] == enc_pairs(ps)[i]);
        }
        lemma_dec_pair_enc(s, pos, p0);
        assert(s.subrange(pos + l0, pos + l0 + enc_pairs(rest).len()) =~= enc_pairs(rest)) by {
            assert(forall|i: int|
                0 <= i < enc_pairs(rest).len() ==> #[trigger] enc_pairs(rest)[i] == enc_pairs(
                    ps,
                )[l0 + i]);
        }
        assert(forall|i: int| 0 <= i < rest.len() ==> rest[i] == ps[i + 1]);
        lemma_dec_pairs_enc(s, pos + l0, rest);
        assert(seq![p0] + rest =~= ps);
    }
}

/// An encoded pair list embedded in a text decodes to the encoded list.
pub proof fn lemma_dec_pair_list_enc(s: Seq<char>, pos: int, ps: Seq<(Seq<char>, Seq<char>)>)
    requires
        0 <= pos,
        pairs_bounded(ps),
        pos + enc_pair_list(ps).len() <= s.len(),
        s.subrange(pos, pos + enc_pair_list(ps).len()) == enc_pair_list(ps),
    ensures
        dec_pair_list(s, pos) == Some((ps, pos + enc_pair_list(ps).len())),
{
    let digits = enc_nat(ps.len());
    let a = digits.len();
    let l = enc_pair_list(ps).len();
    assert(forall|i: int| 0 <= i < l ==> s[pos + i] == #[trigger] enc_pair_list(ps)[i]) by {
        assert(forall|i: int|
            0 <= i < l ==> #[trigger] enc_pair_list(ps)[i] == s.subrange(pos, pos + l)[i]);
    }
    assert(s.subrange(pos, pos + a) =~= digits) by {
        assert(forall|i: int| 0 <= i < a ==> #[trigger] digits[i] == enc_pair_list(ps)[i]);
    }
    assert(enc_pair_list(ps)[a as int] == ';');
    assert(s[pos + a] == ';');
    lemma_dec_nat_enc(s, pos, ps.len());
    assert(s.subrange(pos + a + 1, pos + a + 1 + enc_pairs(ps).len()) =~= enc_pairs(ps)) by {
        assert(forall|i: int|
            0 <= i < enc_pairs(ps).len() ==> #[trigger] enc_pairs(ps)[i] == enc_pair_list(ps)[a + 1
                + i]);
    }
    lemma_dec_pairs_enc(s, pos + a + 1, ps);
}

/// A room whose parts are short enough to exist in memory.
pub open spec fn room_bounded(r: RoomV) -> bool {
    &&& str_bounded(r.id)
    &&& str_bounded(r.description)
    &&& pairs_bounded(r.exits)
    &&& strs_bounded(r.items)
    &&& strs_bounded(r.features)
}

/// A room table whose rooms are short enough to exist in memory.
pub open spec fn rooms_bounded(rs: Seq<RoomV>) -> bool {
    rs.len() <= usize::MAX && forall|i: int| 0 <= i < rs.len() ==> room_bounded(#[trigger] rs[i])
}

/// A world whose parts are short enough to exist in memory.  Every world
/// held in memory satisfies this; the predicate only excludes mathematical
/// worlds beyond the machine.
pub open spec fn world_bounded(w: WorldV) -> bool {
    &&& str_bounded(w.player_location)
    &&& str_bounded(w.player.name)
    &&& strs_bounded(w.player.inventory)
    &&& rooms_bounded(w.rooms)
}

/// A room, encoded as its tagged identifier, description, exits, items and
/// features.
pub open spec fn enc_room(r: RoomV) -> Seq<char> {
    seq!['r'] + enc_str(r.id) + seq!['d'] + enc_str(r.description) + seq!['x'] + enc_pair_list(
        r.exits,
    ) + seq!['i'] + enc_list(r.items) + seq!['f'] + enc_list(r.features)
}

/// Decode a room at `pos`.
pub open spec fn dec_room(s: Seq<char>, pos: int) -> Option<(RoomV, int)> {
    if !(0 <= pos < s.len() && s[pos] == 'r') {
        None
    } else {
        match dec_str(s, pos + 1) {
            None => None,
            Some(r1) => {
                let (id, p1) = r1;
                if !(p1 < s.len() && s[p1] == 'd') {
                    None
                } else {
                    match dec_str(s, p1 + 1) {
                        None => None,
                        Some(r2) => {
                            let (description, p2) = r2;
                            if !(p2 < s.len() && s[p2] == 'x') {
                                None
                            } else {
                                match dec_pair_list(s, p2 + 1) {
                                    None => None,
                                    Some(r3) => {
                                        let (exits, p3) = r3;
                                        if !(p3 < s.len() && s[p3] == 'i') {
                                            None
                                        } else {
                                            match dec_list(s, p3 + 1) {
                                                None => None,
                                                Some(r4) => {
                                                    let (items, p4) = r4;
                                                    if !(p4 < s.len() && s[p4] == 'f') {
                                                        None
                                                    } else {
                                                        match dec_list(s, p4 + 1) {
                                                            None => None,
                                                            Some(r5) => {
                                                                let (features, p5) = r5;
                                                                Some(
                                                                    (
                                                                        RoomV {
                                                                            id,
                                                                            description,
                                                                            exits,
                                                                            items,
                                                                            features,
                                                                        },
                                                                        p5,
                                                                    ),
                                                                )
                                                            },
                                                        }
                                                    }
                                                },
                                            }
                                        }
                                    },
                                }
                            }
                        },
                    }
                }
            },
        }
    }
}

/// An encoded room embedded in a text decodes to the encoded room.
#[verifier::rlimit(100)]
pub proof fn lemma_dec_room_enc(s: Seq<char>, pos: int, r: RoomV)
    requires
        0 <= pos,
        room_bounded(r),
        pos + enc_room(r).len() <= s.len(),
        s.subrange(pos, pos + enc_room(r).len()) == enc_room(r),
    ensures
        dec_room(s, pos) == Some((r, pos + enc_room(r).len())),
{
    let l = enc_room(r).len();
    let e_id = enc_str(r.id);
    let e_desc = enc_str(r.description);
    let e_exits = enc_pair_list(r.exits);
    let e_items = enc_list(r.items);
    let e_features = enc_list(r.features);
    let q1 = 1 + e_id.len();
    let q2 = q1 + 1 + e_desc.len();
    let q3 = q2 + 1 + e_exits.len();
    let q4 = q3 + 1 + e_items.len();
    assert(forall|i: int| 0 <= i < l ==> s[pos + i] == #[trigger] enc_room(r)[i]) by {
        assert(forall|i: int|
            0 <= i < l ==> #[trigger] enc_room(r)[i] == s.subrange(pos, pos + l)[i]);
    }
    assert(enc_room(r)[0] == 'r');
    assert(s[pos + 0] == 'r');
    assert(s.subrange(pos + 1, pos + 1 + e_id.len()) =~= e_id) by {
        assert(forall|i: int| 0 <= i < e_id.len() ==> #[trigger] e_id[i] == enc_room(r)[1 + i]);
    }
    lemma_dec_str_enc(s, pos + 1, r.id);
    assert(enc_room(r)[q1 as int] == 'd');
    assert(s[pos + q1] == 'd');
    assert(s.subrange(pos + q1 + 1, pos + q1 + 1 + e_desc.len()) =~= e_desc) by {
        assert(forall|i: int|
            0 <= i < e_desc.len() ==> #[trigger] e_desc[i] == enc_room(r)[q1 + 1 + i]);
    }
    lemma_dec_str_enc(s, pos + q1 + 1, r.description);
    assert(enc_room(r)[q2 as int] == 'x');
    assert(s[pos + q2] == 'x');
    assert(s.subrange(pos + q2 + 1, pos + q2 + 1 + e_exits.len()) =~= e_exits) by {
        assert(forall|i: int|
            0 <= i < e_exits.len() ==> #[trigger] e_exits[i] == enc_room(r)[q2 + 1 + i]);
    }
    lemma_dec_pair_list_enc(s, pos + q2 + 1, r.exits);
    assert(enc_room(r)[q3 as int] == 'i');
    assert(s[pos + q3] == 'i');
    assert(s.subrange(pos + q3 + 1, pos + q3 + 1 + e_items.len()) =~= e_items) by {
        assert(forall|i: int|
            0 <= i < e_items.len() ==> #[trigger] e_items[i] == enc_room(r)[q3 + 1 + i]);
    }
    lemma_dec_list_enc(s, pos + q3 + 1, r.items);
    assert(enc_room(r)[q4 as int] == 'f');
    assert(s[pos + q4] == 'f');
    assert(s.subrange(pos + q4 + 1, pos + q4 + 1 + e_features.len()) =~= e_features) by {
        assert(forall|i: int|
            0 <= i < e_features.len() ==> #[trigger] e_features[i] == enc_room(r)[q4 + 1 + i]);
    }
    lemma_dec_list_enc(s, pos + q4 + 1, r.features);
    assert(RoomV {
        id: r.id,
        description: r.description,
        exits: r.exits,
        items: r.items,
        features: r.features,
    } == r);
}

/// A room table, encoded one room after the other.
pub open spec fn enc_rooms(rs: Seq<RoomV>) -> Seq<char>
    decreases rs.len(),
{
    if rs.len() == 0 {
        Seq::empty()
    } else {
        enc_room(rs.first()) + enc_rooms(rs.drop_first())
    }
}

/// Appending one room extends the encoding by that room's encoding.
pub proof fn lemma_enc_rooms_push(rs: Seq<RoomV>, r: RoomV)
    ensures
        enc_rooms(rs.push(r)) == enc_rooms(rs) + enc_room(r),
    decreases rs.len(),
{
    if rs.len() == 0 {
        assert(rs.push(r).drop_first() =~= Seq::<RoomV>::empty());
        assert(enc_rooms(Seq::<RoomV>::empty()) == Seq::<char>::empty());
        assert(enc_rooms(rs.push(r)) =~= enc_rooms(rs) + enc_room(r));
    } else {
        assert(rs.push(r).drop_first() =~= rs.drop_first().push(r));
        lemma_enc_rooms_push(rs.drop_first(), r);
        assert(enc_rooms(rs.push(r)) =~= enc_rooms(rs) + enc_room(r));
    }
}

/// Decode `count` rooms one after the other, starting at `pos`.
pub open spec fn dec_rooms(s: Seq<char>, pos: int, count: nat) -> Option<(Seq<RoomV>, int)>
    decreases count,
{
    if count == 0 {
        Some((Seq::empty(), pos))
    } else {
        match dec_room(s, pos) {
            None => None,
            Some(r) => {
                match dec_rooms(s, r.1, (count - 1) as nat) {
                    None => None,
                    Some(t) => Some((seq![r.0] + t.0, t.1)),
                }
            },
        }
    }
}

/// Encoded rooms embedded one after the other decode to the encoded rooms.
pub proof fn lemma_dec_rooms_enc(s: Seq<char>, pos: int, rs: Seq<RoomV>)
    requires
        0 <= pos,
        forall|i: int| 0 <= i < rs.len() ==> room_bounded(#[trigger] rs[i]),
        pos + enc_rooms(rs).len() <= s.len(),
        s.subrange(pos, pos + enc_rooms(rs).len()) == enc_rooms(rs),
    ensures
        dec_rooms(s, pos, rs.len()) == Some((rs, pos + enc_rooms(rs).len())),
    decreases rs.len(),
{
    if rs.len() == 0 {
        assert(Seq::<RoomV>::empty() =~= rs);
    } else {
        let r0 = rs.first();
        let rest = rs.drop_first();
        let l0 = enc_room(r0).len();
        let l = enc_rooms(rs).len();
        assert(forall|i: int| 0 <= i < l ==> s[pos + i] == #[trigger] enc_rooms(rs)[i]) by {
            assert(forall|i: int|
                0 <= i < l ==> #[trigger] enc_rooms(rs)[i] == s.subrange(pos, pos + l)[i]);
        }
        assert(s.subrange(pos, pos + l0) =~= enc_room(r0)) by {
            assert(forall|i: int| 0 <= i < l0 ==> #[trigger] enc_room(r0)[i] == enc_rooms(rs)[i]);
        }
        lemma_dec_room_enc(s, pos, r0);
        assert(s.subrange(pos + l0, pos + l0 + enc_rooms(rest).len()) =~= enc_rooms(rest)) by {
            assert(forall|i: int|
                0 <= i < enc_rooms(rest).len() ==> #[trigger] enc_rooms(rest)[i] == enc_rooms(
                    rs,
                )[l0 + i]);
        }
        assert(forall|i: int| 0 <= i < rest.len() ==> rest[i] == rs[i + 1]);
        lemma_dec_rooms_enc(s, pos + l0, rest);
        assert(seq![r0] + rest =~= rs);
    }
}

/// The fixed first line of every snapshot.
pub open spec fn snap_header() -> Seq<char> {
    "adventure snapshot\n"@
}

/// A world, encoded as the header line, the tagged location, player name,
/// inventory, and room table.
pub open spec fn enc_world(w: WorldV) -> Seq<char> {
    snap_header() + seq!['L'] + enc_str(w.player_location) + seq!['P'] + enc_str(w.player.name)
        + seq!['I'] + enc_list(w.player.inventory) + seq!['R'] + enc_nat(w.rooms.len()) + seq![';']
        + enc_rooms(w.rooms)
}

/// Decode a whole snapshot: the header, the tagged fields, and the room
/// table, with nothing left over.
pub open spec fn dec_world(s: Seq<char>) -> Option<WorldV> {
    let h = snap_header();
    if !(s.len() >= h.len() && s.subrange(0, h.len() as int) == h) {
        None
    } else {
        let p0 = h.len() as int;
        if !(p0 < s.len() && s[p0] == 'L') {
            None
        } else {
            match dec_str(s, p0 + 1) {
                None => None,
                Some(r1) => {
                    let (location, p1) = r1;
                    if !(p1 < s.len() && s[p1] == 'P') {
                        None
                    } else {
                        match dec_str(s, p1 + 1) {
                            None => None,
                            Some(r2) => {
                                let (name, p2) = r2;
                                if !(p2 < s.len() && s[p2] == 'I') {
                                    None
                                } else {
                                    match dec_list(s, p2 + 1) {
                                        None => None,
                                        Some(r3) => {
                                            let (inventory, p3) = r3;
                                            if !(p3 < s.len() && s[p3] == 'R') {
                                                None
                                            } else {
                                                match dec_nat(s, p3 + 1) {
                                                    None => None,
                                                    Some(r4) => {
                                                        let (n, p4) = r4;
                                                        if !(p4 < s.len() && s[p4] == ';') {
                                                            None
                                                        } else {
                                                            match dec_rooms(s, p4 + 1, n as nat) {
                                                                None => None,
                                                                Some(r5) => {
                                                                    let (rooms, p5) = r5;
                                                                    if p5 == s.len() {
                                                                        Some(
                                                                            WorldV {
                                                                                rooms,
                                                                                player_location:
                                                                                    location,
                                                                                player: PlayerV {
                                                                                    name,
                                                                                    inventory,
                                                                                },
                                                                            },
                                                                        )
                                                                    } else {
                                                                        None
                                                                    }
                                                                },
                                                            }
                                                        }
                                                    },
                                                }
                                            }
                                        },
                                    }
                                }
                            },
                        }
                    }
                },
            }
        }
    }
}

/// A snapshot of a world decodes to that world, whatever cycles its exits
/// form: the codec loses nothing.
#[verifier::rlimit(100)]
pub proof fn lemma_dec_world_enc(w: WorldV)
    requires
        world_bounded(w),
    ensures
        dec_world(enc_world(w)) == Some(w),
{
    let s = enc_world(w);
    let h = snap_header();
    let e_loc = enc_str(w.player_location);
    let e_name = enc_str(w.player.name);
    let e_inv = enc_list(w.player.inventory);
    let digits = enc_nat(w.rooms.len());
    let e_rooms = enc_rooms(w.rooms);
    let p0 = h.len() as int;
    let q1 = p0 + 1 + e_loc.len();
    let q2 = q1 + 1 + e_name.len();
    let q3 = q2 + 1 + e_inv.len();
    let q4 = q3 + 1 + digits.len();
    assert(s.subrange(0, p0) =~= h);
    assert(s[p0] == 'L');
    assert(s.subrange(p0 + 1, p0 + 1 + e_loc.len()) =~= e_loc);
    lemma_dec_str_enc(s, p0 + 1, w.player_location);
    assert(s[q1] == 'P');
    assert(s.subrange(q1 + 1, q1 + 1 + e_name.len()) =~= e_name);
    lemma_dec_str_enc(s, q1 + 1, w.player.name);
    assert(s[q2] == 'I');
    assert(s.subrange(q2 + 1, q2 + 1 + e_inv.len()) =~= e_inv);
    lemma_dec_list_enc(s, q2 + 1, w.player.inventory);
    assert(s[q3] == 'R');
    assert(s.subrange(q3 + 1, q3 + 1 + digits.len()) =~= digits);
    assert(s[q4] == ';');
    lemma_dec_nat_enc(s, q3 + 1, w.rooms.len());
    assert(s.subrange(q4 + 1, q4 + 1 + e_rooms.len()) =~= e_rooms);
    lemma_dec_rooms_enc(s, q4 + 1, w.rooms);
    assert(q4 + 1 + e_rooms.len() == s.len());
    assert(PlayerV { name: w.player.name, inventory: w.player.inventory } == w.player);
    assert(WorldV {
        rooms: w.rooms,
        player_location: w.player_location,
        player: w.player,
    } == w);
}

/// The string views of a list of string pairs, in order.
pub open spec fn pair_views(ps: Seq<(String, String)>) -> Seq<(Seq<char>, Seq<char>)> {
    ps.map_values(|p: (String, String)| (p.0@, p.1@))
}

/// The digit character for a value below ten.
fn digit_to_char_exec(d: u8) -> (c: char)
    requires
        d < 10,
    ensures
        c == digit_char(d as int),
{
    if d == 0 {
        '0'
    } else if d == 1 {
        '1'
    } else if d == 2 {
        '2'
    } else if d == 3 {
        '3'
    } else if d == 4 {
        '4'
    } else if d == 5 {
        '5'
    } else if d == 6 {
        '6'
    } else if d == 7 {
        '7'
    } else if d == 8 {
        '8'
    } else {
        '9'
    }
}

/// Append a number to the output, least significant digit first.
pub fn enc_nat_push(out: &mut String, n: usize)
    ensures
        final(out)@ == old(out)@ + enc_nat(n as nat),
    decreases n,
{
    let d = (n % 10) as u8;
    push_char(out, digit_to_char_exec(d));
    if n >= 10 {
        enc_nat_push(out, n / 10);
    }
    proof {
        assert(out@ =~= old(out)@ + enc_nat(n as nat));
    }
}

/// Append a string to the output: its length, a colon, its characters.
pub fn enc_str_push(out: &mut String, x: &str)
    ensures
        final(out)@ == old(out)@ + enc_str(x@),
{
    let n = x.unicode_len();
    enc_nat_push(out, n);
    push_char(out, ':');
    out.append(x);
    proof {
        assert(out@ =~= old(out)@ + enc_str(x@));
    }
}

/// Append a list of strings to the output: its count, a semicolon, and the
/// encoded elements.
pub fn enc_list_push(out: &mut String, names: &Vec<String>)
    ensures
        final(out)@ == old(out)@ + enc_list(crate::text::string_views(names@)),
{
    let ghost views = crate::text::string_views(names@);
    enc_nat_push(out, names.len());
    push_char(out, ';');
    let ghost base = out@;
    let mut i: usize = 0;
    while i < names.len()
        invariant
            views == crate::text::string_views(names@),
            views.len() == names.len(),
            i <= names.len(),
            out@ == base + enc_strs(views.take(i as int)),
        decreases names.len() - i,
    {
        enc_str_push(out, names[i].as_str());
        proof {
            lemma_enc_strs_push(views.take(i as int), views[i as int]);
            assert(views.take(i + 1) =~= views.take(i as int).push(views[i as int]));
            assert(out@ =~= base + enc_strs(views.take(i + 1)));
        }
        i = i + 1;
    }
    proof {
        assert(views.take(names.len() as int) =~= views);
        assert(out@ =~= old(out)@ + enc_list(views));
    }
}

/// Append a list of string pairs to the output: its count, a semicolon,
/// and the encoded pairs.
pub fn enc_pair_list_push(out: &mut String, pairs: &Vec<(String, String)>)
    ensures
        final(out)@ == old(out)@ + enc_pair_list(pair_views(pairs@)),
{
    let ghost views = pair_views(pairs@);
    enc_nat_push(out, pairs.len());
    push_char(out, ';');
    let ghost base = out@;
    let mut i: usize = 0;
    while i < pairs.len()
        invariant
            views == pair_views(pairs@),
            views.len() == pairs.len(),
            i <= pairs.len(),
            out@ == base + enc_pairs(views.take(i as int)),
        decreases pairs.len() - i,
    {
        enc_str_push(out, pairs[i].0.as_str());
        enc_str_push(out, pairs[i].1.as_str());
        proof {
            lemma_enc_pairs_push(views.take(i as int), views[i as int]);
            assert(views.take(i + 1) =~= views.take(i as int).push(views[i as int]));
            assert(out@ =~= base + enc_pairs(views.take(i + 1)));
        }
        i = i + 1;
    }
    proof {
        assert(views.take(pairs.len() as int) =~= views);
        assert(out@ =~= old(out)@ + enc_pair_list(views));
    }
}

/// Append a room to the output, with its field tags.
pub fn enc_room_push(out: &mut String, room: &Room)
    ensures
        final(out)@ == old(out)@ + enc_room(room@),
{
    push_char(out, 'r');
    enc_str_push(out, room.id.as_str());
    push_char(out, 'd');
    enc_str_push(out, room.description.as_str());
    push_char(out, 'x');
    proof {
        assert(pair_views(room.exits@) =~= room@.exits);
    }
    enc_pair_list_push(out, &room.exits);
    push_char(out, 'i');
    let items = room.get_item_names();
    enc_list_push(out, &items);
    push_char(out, 'f');
    let features = room.get_feature_names();
    enc_list_push(out, &features);
    proof {
        assert(out@ =~= old(out)@ + enc_room(room@));
    }
}

/// Whether the character is a decimal digit.
fn is_digit_exec(c: char) -> (r: bool)
    ensures
        r == is_digit(c),
{
    c == '0' || c == '1' || c == '2' || c == '3' || c == '4' || c == '5' || c == '6' || c == '7'
        || c == '8' || c == '9'
}

/// The value of a digit character.
fn digit_val_exec(c: char) -> (d: u8)
    requires
        is_digit(c),
    ensures
        d as int == digit_val(c),
        d < 10,
{
    if c == '0' {
        0
    } else if c == '1' {
        1
    } else if c == '2' {
        2
    } else if c == '3' {
        3
    } else if c == '4' {
        4
    } else if c == '5' {
        5
    } else if c == '6' {
        6
    } else if c == '7' {
        7
    } else if c == '8' {
        8
    } else {
        9
    }
}

/// When a number fails to decode at some digit of a run, it fails at every
/// earlier digit of that run.
proof fn lemma_dec_nat_none(s: Seq<char>, j: int, q: int)
    requires
        0 <= j <= q,
        q < s.len(),
        forall|idx: int| j <= idx <= q ==> is_digit(s[idx]),
        dec_nat(s, q) is None,
    ensures
        dec_nat(s, j) is None,
    decreases q - j,
{
    if j < q {
        lemma_dec_nat_none(s, j + 1, q);
    }
}

/// Decode a number at `pos`, exactly as [`dec_nat`] reads it.
fn dec_nat_exec(s: &str, pos: usize) -> (r: Option<(usize, usize)>)
    ensures
        dec_nat(s@, pos as int) matches Some(v) ==> (r matches Some(p) && p.0 as int == v.0
            && p.1 as int == v.1 && p.1 <= s@.len()),
        dec_nat(s@, pos as int) is None ==> r is None,
{
    let len = s.unicode_len();
    if pos >= len {
        return None;
    }
    if !is_digit_exec(s.get_char(pos)) {
        return None;
    }
    let mut k: usize = 1;
    while pos + k < len
        invariant
            len == s@.len(),
            pos < len,
            1 <= k,
            pos + k <= len,
            forall|idx: int| pos <= idx < pos + k ==> is_digit(s@[idx]),
        ensures
            1 <= k,
            pos + k <= len,
            forall|idx: int| pos <= idx < pos + k ==> is_digit(s@[idx]),
            pos + k == len || !is_digit(s@[pos + k]),
        decreases len - pos - k,
    {
        if !is_digit_exec(s.get_char(pos + k)) {
            break ;
        }
        k = k + 1;
    }
    let mut i: usize = k - 1;
    let mut acc: usize = digit_val_exec(s.get_char(pos + i)) as usize;
    proof {
        assert(dec_nat(s@, (pos + i) as int) == Some((acc as int, (pos + k) as int)));
    }
    while i > 0
        invariant
            len == s@.len(),
            pos + k <= len,
            1 <= k,
            i < k,
            pos + k == len || !is_digit(s@[pos + k]),
            forall|idx: int| pos <= idx < pos + k ==> is_digit(s@[idx]),
            dec_nat(s@, (pos + i) as int) == Some((acc as int, (pos + k) as int)),
        decreases i,
    {
        i = i - 1;
        let d = digit_val_exec(s.get_char(pos + i)) as usize;
        if acc > (usize::MAX - d) / 10 {
            proof {
                assert(10 * acc + d > usize::MAX) by (nonlinear_arith)
                    requires
                        acc > (usize::MAX - d) / 10,
                        d < 10,
                ;
                assert(dec_nat(s@, (pos + i) as int) is None);
                lemma_dec_nat_none(s@, pos as int, (pos + i) as int);
            }
            return None;
        }
        proof {
            assert(10 * acc + d <= usize::MAX) by (nonlinear_arith)
                requires
                    acc <= (usize::MAX - d) / 10,
                    d < 10,
            ;
        }
        acc = acc * 10 + d;
        proof {
            assert(dec_nat(s@, (pos + i) as int) == Some((acc as int, (pos + k) as int)));
        }
    }
    Some((acc, pos + k))
}

/// Decode a string at `pos`, exactly as [`dec_str`] reads it.
fn dec_str_exec(s: &str, pos: usize) -> (r: Option<(String, usize)>)
    ensures
        dec_str(s@, pos as int) matches Some(v) ==> (r matches Some(p) && p.0@ == v.0 && p.1 as int
            == v.1 && p.1 <= s@.len()),
        dec_str(s@, pos as int) is None ==> r is None,
{
    let len = s.unicode_len();
    match dec_nat_exec(s, pos) {
        None => None,
        Some(np) => {
            let (n, p) = np;
            if p >= len {
                return None;
            }
            if s.get_char(p) != ':' {
                return None;
            }
            if n > len - (p + 1) {
                return None;
            }
            let word = s.substring_char(p + 1, p + 1 + n);
            Some((word.to_owned(), p + 1 + n))
        },
    }
}

/// Decode `count` strings at `pos`, exactly as [`dec_strs`] reads them.
fn dec_strs_exec(s: &str, pos: usize, count: usize) -> (r: Option<(Vec<String>, usize)>)
    requires
        pos <= s@.len(),
    ensures
        dec_strs(s@, pos as int, count as nat) matches Some(v) ==> (r matches Some(p)
            && crate::text::string_views(p.0@) == v.0 && p.1 as int == v.1 && p.1 <= s@.len()),
        dec_strs(s@, pos as int, count as nat) is None ==> r is None,
{
    let ghost whole = dec_strs(s@, pos as int, count as nat);
    let mut acc: Vec<String> = Vec::new();
    let mut p = pos;
    let mut i: usize = 0;
    while i < count
        invariant
            whole == dec_strs(s@, pos as int, count as nat),
            i <= count,
            p <= s@.len(),
            whole == match dec_strs(s@, p as int, (count - i) as nat) {
                Some(t) => Some((crate::text::string_views(acc@) + t.0, t.1)),
                None => None::<(Seq<Seq<char>>, int)>,
            },
        decreases count - i,
    {
        match dec_str_exec(s, p) {
            None => {
                return None;
            },
            Some(xp) => {
                let (x, p2) = xp;
                proof {
                    let t_rest = dec_strs(s@, p2 as int, (count - i - 1) as nat);
                    match t_rest {
                        Some(t) => {
                            assert(crate::text::string_views(acc@.push(x))
                                =~= crate::text::string_views(acc@).push(x@));
                            assert(crate::text::string_views(acc@) + (seq![x@] + t.0)
                                =~= crate::text::string_views(acc@.push(x)) + t.0);
                        },
                        None => {},
                    }
                }
                acc.push(x);
                p = p2;
            },
        }
        i = i + 1;
    }
    proof {
        assert(crate::text::string_views(acc@) + Seq::<Seq<char>>::empty()
            =~= crate::text::string_views(acc@));
    }
    Some((acc, p))
}

/// Decode a list of strings at `pos`, exactly as [`dec_list`] reads it.
fn dec_list_exec(s: &str, pos: usize) -> (r: Option<(Vec<String>, usize)>)
    ensures
        dec_list(s@, pos as int) matches Some(v) ==> (r matches Some(p)
            && crate::text::string_views(p.0@) == v.0 && p.1 as int == v.1 && p.1 <= s@.len()),
        dec_list(s@, pos as int) is None ==> r is None,
{
    let len = s.unicode_len();
    match dec_nat_exec(s, pos) {
        None => None,
        Some(np) => {
            let (n, p) = np;
            if p >= len {
                return None;
            }
            if s.get_char(p) != ';' {
                return None;
            }
            dec_strs_exec(s, p + 1, n)
        },
    }
}

/// Decode `count` pairs at `pos`, exactly as [`dec_pairs`] reads them.
fn dec_pairs_exec(s: &str, pos: usize, count: usize) -> (r: Option<(Vec<(String, String)>, usize)>)
    requires
        pos <= s@.len(),
    ensures
        dec_pairs(s@, pos as int, count as nat) matches Some(v) ==> (r matches Some(p)
            && pair_views(p.0@) == v.0 && p.1 as int == v.1 && p.1 <= s@.len()),
        dec_pairs(s@, pos as int, count as nat) is None ==> r is None,
{
    let ghost whole = dec_pairs(s@, pos as int, count as nat);
    let mut acc: Vec<(String, String)> = Vec::new();
    let mut p = pos;
    let mut i: usize = 0;
    while i < count
        invariant
            whole == dec_pairs(s@, pos as int, count as nat),
            i <= count,
            p <= s@.len(),
            whole == match dec_pairs(s@, p as int, (count - i) as nat) {
                Some(t) => Some((pair_views(acc@) + t.0, t.1)),
                None => None::<(Seq<(Seq<char>, Seq<char>)>, int)>,
            },
        decreases count - i,
    {
        match dec_str_exec(s, p) {
            None => {
                return None;
            },
            Some(kp) => {
                let (key, p1) = kp;
                match dec_str_exec(s, p1) {
                    None => {
                        return None;
                    },
                    Some(vp) => {
                        let (value, p2) = vp;
                        proof {
                            let t_rest = dec_pairs(s@, p2 as int, (count - i - 1) as nat);
                            match t_rest {
                                Some(t) => {
                                    assert(pair_views(acc@.push((key, value))) =~= pair_views(
                                        acc@,
                                    ).push((key@, value@)));
                                    assert(pair_views(acc@) + (seq![(key@, value@)] + t.0)
                                        =~= pair_views(acc@.push((key, value))) + t.0);
                                },
                                None => {},
                            }
                        }
                        acc.push((key, value));
                        p = p2;
                    },
                }
            },
        }
        i = i + 1;
    }
    proof {
        assert(pair_views(acc@) + Seq::<(Seq<char>, Seq<char>)>::empty() =~= pair_views(acc@));
    }
    Some((acc, p))
}

/// Decode a list of pairs at `pos`, exactly as [`dec_pair_list`] reads it.
fn dec_pair_list_exec(s: &str, pos: usize) -> (r: Option<(Vec<(String, String)>, usize)>)
    ensures
        dec_pair_list(s@, pos as int) matches Some(v) ==> (r matches Some(p) && pair_views(p.0@)
            == v.0 && p.1 as int == v.1 && p.1 <= s@.len()),
        dec_pair_list(s@, pos as int) is None ==> r is None,
{
    let len = s.unicode_len();
    match dec_nat_exec(s, pos) {
        None => None,
        Some(np) => {
            let (n, p) = np;
            if p >= len {
                return None;
            }
            if s.get_char(p) != ';' {
                return None;
            }
            dec_pairs_exec(s, p + 1, n)
        },
    }
}

/// Items built from a list of names, in order.
fn items_from_names(names: Vec<String>) -> (items: Vec<crate::entities::item::Item>)
    ensures
        crate::entities::item_names(items@) == crate::text::string_views(names@),
{
    let mut items: Vec<crate::entities::item::Item> = Vec::new();
    let mut i: usize = 0;
    while i < names.len()
        invariant
            i <= names.len(),
            items@.len() == i,
            crate::entities::item_names(items@) =~= crate::text::string_views(names@).take(
                i as int,
            ),
        decreases names.len() - i,
    {
        items.push(crate::entities::item::Item::new(names[i].clone()));
        proof {
            assert(crate::entities::item_names(items@) =~= crate::text::string_views(names@).take(
                i + 1,
            ));
        }
        i = i + 1;
    }
    proof {
        assert(crate::text::string_views(names@).take(names.len() as int)
            =~= crate::text::string_views(names@));
    }
    items
}

/// Features built from a list of names, in order.
fn features_from_names(names: Vec<String>) -> (features: Vec<crate::entities::feature::Feature>)
    ensures
        crate::entities::feature_names(features@) == crate::text::string_views(names@),
{
    let mut features: Vec<crate::entities::feature::Feature> = Vec::new();
    let mut i: usize = 0;
    while i < names.len()
        invariant
            i <= names.len(),
            features@.len() == i,
            crate::entities::feature_names(features@) =~= crate::text::string_views(names@).take(
                i as int,
            ),
        decreases names.len() - i,
    {
        features.push(crate::entities::feature::Feature::new(names[i].clone()));
        proof {
            assert(crate::entities::feature_names(features@) =~= crate::text::string_views(
                names@,
            ).take(i + 1));
        }
        i = i + 1;
    }
    proof {
        assert(crate::text::string_views(names@).take(names.len() as int)
            =~= crate::text::string_views(names@));
    }
    features
}

/// Decode a room at `pos`, exactly as [`dec_room`] reads it.
fn dec_room_exec(s: &str, pos: usize) -> (r: Option<(Room, usize)>)
    ensures
        dec_room(s@, pos as int) matches Some(v) ==> (r matches Some(p) && p.0@ == v.0
            && p.1 as int == v.1 && p.1 <= s@.len()),
        dec_room(s@, pos as int) is None ==> r is None,
{
    let len = s.unicode_len();
    if pos >= len {
        return None;
    }
    if s.get_char(pos) != 'r' {
        return None;
    }
    let (id, p1) = match dec_str_exec(s, pos + 1) {
        None => {
            return None;
        },
        Some(v) => v,
    };
    if p1 >= len {
        return None;
    }
    if s.get_char(p1) != 'd' {
        return None;
    }
    let (description, p2) = match dec_str_exec(s, p1 + 1) {
        None => {
            return None;
        },
        Some(v) => v,
    };
    if p2 >= len {
        return None;
    }
    if s.get_char(p2) != 'x' {
        return None;
    }
    let (exits, p3) = match dec_pair_list_exec(s, p2 + 1) {
        None => {
            return None;
        },
        Some(v) => v,
    };
    if p3 >= len {
        return None;
    }
    if s.get_char(p3) != 'i' {
        return None;
    }
    let (item_names, p4) = match dec_list_exec(s, p3 + 1) {
        None => {
            return None;
        },
        Some(v) => v,
    };
    if p4 >= len {
        return None;
    }
    if s.get_char(p4) != 'f' {
        return None;
    }
    let (feature_names, p5) = match dec_list_exec(s, p4 + 1) {
        None => {
            return None;
        },
        Some(v) => v,
    };
    let room = Room {
        id,
        description,
        exits,
        items: items_from_names(item_names),
        features: features_from_names(feature_names),
    };
    proof {
        assert(room@.exits =~= pair_views(room.exits@));
    }
    Some((room, p5))
}

/// Decode `count` rooms at `pos`, exactly as [`dec_rooms`] reads them.
fn dec_rooms_exec(s: &str, pos: usize, count: usize) -> (r: Option<(Vec<Room>, usize)>)
    requires
        pos <= s@.len(),
    ensures
        dec_rooms(s@, pos as int, count as nat) matches Some(v) ==> (r matches Some(p)
            && crate::world_building::room_views(p.0@) == v.0 && p.1 as int == v.1 && p.1
            <= s@.len()),
        dec_rooms(s@, pos as int, count as nat) is None ==> r is None,
{
    let ghost whole = dec_rooms(s@, pos as int, count as nat);
    let mut acc: Vec<Room> = Vec::new();
    let mut p = pos;
    let mut i: usize = 0;
    while i < count
        invariant
            whole == dec_rooms(s@, pos as int, count as nat),
            i <= count,
            p <= s@.len(),
            whole == match dec_rooms(s@, p as int, (count - i) as nat) {
                Some(t) => Some((crate::world_building::room_views(acc@) + t.0, t.1)),
                None => None::<(Seq<RoomV>, int)>,
            },
        decreases count - i,
    {
        match dec_room_exec(s, p) {
            None => {
                return None;
            },
            Some(xp) => {
                let (room, p2) = xp;
                proof {
                    let t_rest = dec_rooms(s@, p2 as int, (count - i - 1) as nat);
                    match t_rest {
                        Some(t) => {
                            assert(crate::world_building::room_views(acc@.push(room))
                                =~= crate::world_building::room_views(acc@).push(room@));
                            assert(crate::world_building::room_views(acc@) + (seq![room@] + t.0)
                                =~= crate::world_building::room_views(acc@.push(room)) + t.0);
                        },
                        None => {},
                    }
                }
                acc.push(room);
                p = p2;
            },
        }
        i = i + 1;
    }
    proof {
        assert(crate::world_building::room_views(acc@) + Seq::<RoomV>::empty()
            =~= crate::world_building::room_views(acc@));
    }
    Some((acc, p))
}

/// Decode a whole snapshot, exactly as [`dec_world`] reads it: the room
/// list, the player's location, and the player, with nothing left over.
pub fn dec_world_exec(s: &str) -> (r: Option<(Vec<Room>, String, crate::entities::player::Player)>)
    ensures
        dec_world(s@) matches Some(w) ==> (r matches Some(t)
            && crate::world_building::room_views(t.0@) == w.rooms && t.1@ == w.player_location
            && t.2@ == w.player),
        dec_world(s@) is None ==> r is None,
{
    let len = s.unicode_len();
    let header = "adventure snapshot\n";
    let hlen = header.unicode_len();
    if len < hlen {
        return None;
    }
    let lead = s.substring_char(0, hlen);
    if !crate::text::str_eq(lead, header) {
        return None;
    }
    let p0 = hlen;
    if p0 >= len {
        return None;
    }
    if s.get_char(p0) != 'L' {
        return None;
    }
    let (location, p1) = match dec_str_exec(s, p0 + 1) {
        None => {
            return None;
        },
        Some(v) => v,
    };
    if p1 >= len {
        return None;
    }
    if s.get_char(p1) != 'P' {
        return None;
    }
    let (name, p2) = match dec_str_exec(s, p1 + 1) {
        None => {
            return None;
        },
        Some(v) => v,
    };
    if p2 >= len {
        return None;
    }
    if s.get_char(p2) != 'I' {
        return None;
    }
    let (inv_names, p3) = match dec_list_exec(s, p2 + 1) {
        None => {
            return None;
        },
        Some(v) => v,
    };
    if p3 >= len {
        return None;
    }
    if s.get_char(p3) != 'R' {
        return None;
    }
    let (n, p4) = match dec_nat_exec(s, p3 + 1) {
        None => {
            return None;
        },
        Some(v) => v,
    };
    if p4 >= len {
        return None;
    }
    if s.get_char(p4) != ';' {
        return None;
    }
    let (rooms, p5) = match dec_rooms_exec(s, p4 + 1, n) {
        None => {
            return None;
        },
        Some(v) => v,
    };
    if p5 != len {
        return None;
    }
    let player = crate::entities::player::Player { name, inventory: items_from_names(inv_names) };
    Some((rooms, location, player))
}

} // verus!
