//! The line protocol reads back what it writes: parsing the encoding of a valid frame
//! gives the frame back.

use vstd::prelude::*;
use crate::text::{decimal, digit_char, signed_decimal};
use crate::types::Side;
use super::lexer::{
    all_digits, back_space, digits_value, is_space, pieces, pieces_from, skip_space, trimmed,
    words, words_from,
};
use super::{
    MAX_BATCH_COMMANDS, WireCommand, command_of, command_text, commands_from, frame_of,
    frame_text, joined, side_of, side_text, signed_of, unsigned_of,
};

verus! {

/// A token of the protocol: non-empty, with neither white space nor `|` in it.
pub open spec fn plain_token(t: Seq<char>) -> bool {
    &&& t.len() > 0
    &&& forall|k: int| 0 <= k < t.len() ==> !is_space(#[trigger] t[k]) && t[k] != '|'
}

/// Tokens separated by single spaces.
pub open spec fn spaced(ts: Seq<Seq<char>>) -> Seq<char>
    decreases ts.len(),
{
    if ts.len() <= 1 {
        if ts.len() == 1 {
            ts[0]
        } else {
            Seq::empty()
        }
    } else {
        ts[0] + " "@ + spaced(ts.drop_first())
    }
}

/// The tokens of a command's text.
pub open spec fn tokens(c: WireCommand) -> Seq<Seq<char>> {
    match c {
        WireCommand::Add { id, participant_id, instrument_id, side, price, quantity } => seq![
            "ADD"@,
            decimal(id as nat),
            decimal(participant_id as nat),
            decimal(instrument_id as nat),
            side_text(side),
            signed_decimal(price as int),
            signed_decimal(quantity as int),
        ],
        WireCommand::Market { id, participant_id, instrument_id, side, quantity } => seq![
            "MARKET"@,
            decimal(id as nat),
            decimal(participant_id as nat),
            decimal(instrument_id as nat),
            side_text(side),
            signed_decimal(quantity as int),
        ],
        WireCommand::CancelById { order_id, instrument_id } => seq![
            "CANCELID"@,
            decimal(order_id as nat),
            decimal(instrument_id as nat),
        ],
    }
}

/// A command the protocol can carry: its instrument is not zero.
pub open spec fn valid_command(c: WireCommand) -> bool {
    match c {
        WireCommand::Add { instrument_id, .. } => instrument_id != 0,
        WireCommand::Market { instrument_id, .. } => instrument_id != 0,
        WireCommand::CancelById { instrument_id, .. } => instrument_id != 0,
    }
}

proof fn lemma_digit_char(d: nat)
    requires
        d < 10,
    ensures
        48 <= (digit_char(d) as u32) <= 57,
        (digit_char(d) as u32) - 48 == d,
{
}

/// The decimal text of `n` is a non-empty string of digits worth `n`.
proof fn lemma_decimal(n: nat)
    ensures
        decimal(n).len() > 0,
        all_digits(decimal(n)),
        digits_value(decimal(n)) == n,
    decreases n,
{
    let s = decimal(n);
    if n < 10 {
        lemma_digit_char(n);
        assert(s == seq![digit_char(n)]);
        assert(s.drop_last() =~= Seq::<char>::empty());
        assert(digits_value(s.drop_last()) == 0);
        assert(digits_value(s) == digits_value(s.drop_last()) * 10 + ((s.last() as u32) - 48) as nat);
    } else {
        lemma_decimal(n / 10);
        lemma_digit_char(n % 10);
        assert(s.drop_last() =~= decimal(n / 10));
        assert(s.last() == digit_char(n % 10));
        assert(digits_value(s) == digits_value(s.drop_last()) * 10 + ((s.last() as u32) - 48) as nat);
        assert((n / 10) * 10 + n % 10 == n) by (nonlinear_arith);
        assert forall|k: int| 0 <= k < s.len() implies 48 <= #[trigger] (s[k] as u32) <= 57 by {
            if k < s.len() - 1 {
                assert(s[k] == decimal(n / 10)[k]);
            }
        }
    }
}

proof fn lemma_digits_plain(s: Seq<char>)
    requires
        s.len() > 0,
        all_digits(s),
    ensures
        plain_token(s),
        s[0] != '+' && s[0] != '-',
{
    assert forall|k: int| 0 <= k < s.len() implies !is_space(#[trigger] s[k]) && s[k] != '|' by {
        assert(48 <= (s[k] as u32) <= 57);
    }
    assert(48 <= (s[0] as u32) <= 57);
}

/// An unsigned field reads back its value.
proof fn lemma_unsigned_roundtrip(n: nat, max: nat)
    requires
        n <= max,
    ensures
        unsigned_of(decimal(n), max) == Ok::<nat, super::WireParseError>(n),
        plain_token(decimal(n)),
{
    lemma_decimal(n);
    lemma_digits_plain(decimal(n));
}

/// A signed field reads back its value.
proof fn lemma_signed_roundtrip(v: i64)
    ensures
        signed_of(signed_decimal(v as int)) == Ok::<int, super::WireParseError>(v as int),
        plain_token(signed_decimal(v as int)),
{
    if v < 0 {
        let m = (-(v as int)) as nat;
        lemma_decimal(m);
        lemma_digits_plain(decimal(m));
        let s = signed_decimal(v as int);
        assert(s == seq!['-'] + decimal(m));
        assert(s.drop_first() =~= decimal(m));
        assert forall|k: int| 0 <= k < s.len() implies !is_space(#[trigger] s[k]) && s[k] != '|' by {
            if k > 0 {
                assert(s[k] == decimal(m)[k - 1]);
            }
        }
    } else {
        lemma_unsigned_roundtrip(v as nat, i64::MAX as nat);
    }
}

proof fn lemma_side_roundtrip(s: Side)
    ensures
        side_of(side_text(s)) == Ok::<Side, super::WireParseError>(s),
        plain_token(side_text(s)),
{
    reveal_strlit("B");
    reveal_strlit("S");
    reveal_strlit("BUY");
    reveal_strlit("SELL");
    let t = side_text(s);
    assert(t.len() == 1);
    match s {
        Side::Buy => {
            assert(t == "B"@);
        },
        Side::Sell => {
            assert(t[0] == 'S');
            assert("B"@[0] == 'B');
            assert(t != "B"@);
            assert(t != "BUY"@);
            assert(t == "S"@);
        },
    }
    assert(!is_space(t[0]) && t[0] != '|');
}

/// Reading a token's chars extends the word begun before it.
proof fn lemma_words_token(s: Seq<char>, i: int, t: Seq<char>, cur: Seq<char>, k: int)
    requires
        0 <= i,
        0 <= k <= t.len(),
        i + t.len() <= s.len(),
        s.subrange(i, i + t.len()) == t,
        plain_token(t),
    ensures
        words_from(s, i, cur) == words_from(s, i + k, cur + t.subrange(0, k)),
    decreases k,
{
    if k == 0 {
        assert(cur + t.subrange(0, 0) =~= cur);
    } else {
        lemma_words_token(s, i, t, cur, k - 1);
        assert(s[i + k - 1] == t[k - 1]);
        assert(!is_space(t[k - 1]));
        assert((cur + t.subrange(0, k - 1)).push(s[i + k - 1]) =~= cur + t.subrange(0, k));
    }
}

/// The words of a text made of space-separated plain tokens are those tokens.
proof fn lemma_words_spaced(s: Seq<char>, i: int, ts: Seq<Seq<char>>)
    requires
        0 <= i <= s.len(),
        ts.len() > 0,
        forall|j: int| 0 <= j < ts.len() ==> plain_token(#[trigger] ts[j]),
        s.subrange(i, s.len() as int) == spaced(ts),
    ensures
        words_from(s, i, Seq::empty()) == ts,
    decreases ts.len(),
{
    let t0 = ts[0];
    assert(plain_token(t0));
    let rest_text = s.subrange(i, s.len() as int);
    assert(rest_text.len() == s.len() - i);
    if ts.len() == 1 {
        assert(rest_text == t0);
        assert(s.subrange(i, i + t0.len()) =~= rest_text);
        lemma_words_token(s, i, t0, Seq::empty(), t0.len() as int);
        assert(Seq::<char>::empty() + t0.subrange(0, t0.len() as int) =~= t0);
        assert(i + t0.len() == s.len());
        assert(ts =~= seq![t0]);
    } else {
        let tail = ts.drop_first();
        assert(rest_text == t0 + " "@ + spaced(tail));
        reveal_strlit(" ");
        assert(" "@ =~= seq![' ']);
        assert(rest_text.len() == t0.len() + 1 + spaced(tail).len());
        assert forall|m: int| 0 <= m < t0.len() implies s.subrange(i, i + t0.len())[m] == t0[m] by {
            assert(s.subrange(i, i + t0.len())[m] == rest_text[m]);
        }
        assert(s.subrange(i, i + t0.len()) =~= t0);
        lemma_words_token(s, i, t0, Seq::empty(), t0.len() as int);
        assert(Seq::<char>::empty() + t0.subrange(0, t0.len() as int) =~= t0);
        let j = i + t0.len();
        assert(s[j] == rest_text[t0.len() as int]);
        assert(s[j] == ' ');
        assert(is_space(' '));
        assert forall|m: int| 0 <= m < spaced(tail).len() implies s.subrange(j + 1, s.len() as int)[m] == spaced(tail)[m] by {
            assert(s.subrange(j + 1, s.len() as int)[m] == rest_text[t0.len() + 1 + m]);
        }
        assert(s.subrange(j + 1, s.len() as int) =~= spaced(tail));
        assert forall|m: int| 0 <= m < tail.len() implies plain_token(#[trigger] tail[m]) by {
            assert(tail[m] == ts[m + 1]);
        }
        lemma_words_spaced(s, j + 1, tail);
        assert(words_from(s, j, t0) == seq![t0] + words_from(s, j + 1, Seq::empty()));
        assert(seq![t0] + tail =~= ts);
    }
}

proof fn lemma_spaced_pair(a: Seq<char>, ts: Seq<Seq<char>>)
    requires
        ts.len() > 0,
    ensures
        spaced(seq![a] + ts) == a + " "@ + spaced(ts),
{
    assert((seq![a] + ts).drop_first() =~= ts);
}

proof fn lemma_spaced_one(a: Seq<char>)
    ensures
        spaced(seq![a]) == a,
{
}

#[verifier::rlimit(100)]
proof fn lemma_text_spaced(c: WireCommand)
    ensures
        command_text(c) == spaced(tokens(c)),
{
    reveal_strlit("ADD");
    reveal_strlit("MARKET");
    reveal_strlit("CANCELID");
    reveal_strlit("ADD ");
    reveal_strlit("MARKET ");
    reveal_strlit("CANCELID ");
    reveal_strlit(" ");
    let ts = tokens(c);
    let sp = " "@;
    match c {
        WireCommand::Add { .. } => {
            let (t0, t1, t2, t3, t4, t5, t6) = (ts[0], ts[1], ts[2], ts[3], ts[4], ts[5], ts[6]);
            lemma_spaced_one(t6);
            lemma_spaced_pair(t5, seq![t6]);
            lemma_spaced_pair(t4, seq![t5, t6]);
            assert(seq![t4] + seq![t5, t6] =~= seq![t4, t5, t6]);
            assert(seq![t5] + seq![t6] =~= seq![t5, t6]);
            lemma_spaced_pair(t3, seq![t4, t5, t6]);
            assert(seq![t3] + seq![t4, t5, t6] =~= seq![t3, t4, t5, t6]);
            lemma_spaced_pair(t2, seq![t3, t4, t5, t6]);
            assert(seq![t2] + seq![t3, t4, t5, t6] =~= seq![t2, t3, t4, t5, t6]);
            lemma_spaced_pair(t1, seq![t2, t3, t4, t5, t6]);
            assert(seq![t1] + seq![t2, t3, t4, t5, t6] =~= seq![t1, t2, t3, t4, t5, t6]);
            lemma_spaced_pair(t0, seq![t1, t2, t3, t4, t5, t6]);
            assert(seq![t0] + seq![t1, t2, t3, t4, t5, t6] =~= ts);
            let right = t0 + sp + (t1 + sp + (t2 + sp + (t3 + sp + (t4 + sp + (t5 + sp + t6)))));
            assert(spaced(ts) == right);
            assert(command_text(c) =~= right);
        },
        WireCommand::Market { .. } => {
            let (t0, t1, t2, t3, t4, t5) = (ts[0], ts[1], ts[2], ts[3], ts[4], ts[5]);
            lemma_spaced_one(t5);
            lemma_spaced_pair(t4, seq![t5]);
            assert(seq![t4] + seq![t5] =~= seq![t4, t5]);
            lemma_spaced_pair(t3, seq![t4, t5]);
            assert(seq![t3] + seq![t4, t5] =~= seq![t3, t4, t5]);
            lemma_spaced_pair(t2, seq![t3, t4, t5]);
            assert(seq![t2] + seq![t3, t4, t5] =~= seq![t2, t3, t4, t5]);
            lemma_spaced_pair(t1, seq![t2, t3, t4, t5]);
            assert(seq![t1] + seq![t2, t3, t4, t5] =~= seq![t1, t2, t3, t4, t5]);
            lemma_spaced_pair(t0, seq![t1, t2, t3, t4, t5]);
            assert(seq![t0] + seq![t1, t2, t3, t4, t5] =~= ts);
            let right = t0 + sp + (t1 + sp + (t2 + sp + (t3 + sp + (t4 + sp + t5))));
            assert(spaced(ts) == right);
            assert(command_text(c) =~= right);
        },
        WireCommand::CancelById { .. } => {
            let (t0, t1, t2) = (ts[0], ts[1], ts[2]);
            lemma_spaced_one(t2);
            lemma_spaced_pair(t1, seq![t2]);
            assert(seq![t1] + seq![t2] =~= seq![t1, t2]);
            lemma_spaced_pair(t0, seq![t1, t2]);
            assert(seq![t0] + seq![t1, t2] =~= ts);
            let right = t0 + sp + (t1 + sp + t2);
            assert(spaced(ts) == right);
            assert(command_text(c) =~= right);
        },
    }
}

proof fn lemma_tokens_plain(c: WireCommand)
    ensures
        forall|j: int| 0 <= j < tokens(c).len() ==> plain_token(#[trigger] tokens(c)[j]),
{
    reveal_strlit("ADD");
    reveal_strlit("MARKET");
    reveal_strlit("CANCELID");
    let ts = tokens(c);
    match c {
        WireCommand::Add { id, participant_id, instrument_id, side, price, quantity } => {
            lemma_unsigned_roundtrip(id as nat, id as nat);
            lemma_unsigned_roundtrip(participant_id as nat, participant_id as nat);
            lemma_unsigned_roundtrip(instrument_id as nat, instrument_id as nat);
            lemma_side_roundtrip(side);
            lemma_signed_roundtrip(price);
            lemma_signed_roundtrip(quantity);
        },
        WireCommand::Market { id, participant_id, instrument_id, side, quantity } => {
            lemma_unsigned_roundtrip(id as nat, id as nat);
            lemma_unsigned_roundtrip(participant_id as nat, participant_id as nat);
            lemma_unsigned_roundtrip(instrument_id as nat, instrument_id as nat);
            lemma_side_roundtrip(side);
            lemma_signed_roundtrip(quantity);
        },
        WireCommand::CancelById { order_id, instrument_id } => {
            lemma_unsigned_roundtrip(order_id as nat, order_id as nat);
            lemma_unsigned_roundtrip(instrument_id as nat, instrument_id as nat);
        },
    }
    assert forall|j: int| 0 <= j < ts.len() implies plain_token(#[trigger] ts[j]) by {
        if j == 0 {
            assert(forall|k: int| 0 <= k < ts[0].len() ==> (ts[0][k] as u32) >= 65);
        }
    }
}

proof fn lemma_add_roundtrip(id: u64, participant_id: u64, instrument_id: u32, side: Side, price: i64, quantity: i64)
    requires
        instrument_id != 0,
    ensures
        ({
            let c = WireCommand::Add { id, participant_id, instrument_id, side, price, quantity };
            command_of(tokens(c)) == Ok::<WireCommand, super::WireParseError>(c)
        }),
{
    reveal_strlit("ADD");
    lemma_unsigned_roundtrip(id as nat, u64::MAX as nat);
    lemma_unsigned_roundtrip(participant_id as nat, u64::MAX as nat);
    lemma_unsigned_roundtrip(instrument_id as nat, u32::MAX as nat);
    lemma_side_roundtrip(side);
    lemma_signed_roundtrip(price);
    lemma_signed_roundtrip(quantity);
}

proof fn lemma_market_roundtrip(id: u64, participant_id: u64, instrument_id: u32, side: Side, quantity: i64)
    requires
        instrument_id != 0,
    ensures
        ({
            let c = WireCommand::Market { id, participant_id, instrument_id, side, quantity };
            command_of(tokens(c)) == Ok::<WireCommand, super::WireParseError>(c)
        }),
{
    reveal_strlit("ADD");
    reveal_strlit("MARKET");
    lemma_unsigned_roundtrip(id as nat, u64::MAX as nat);
    lemma_unsigned_roundtrip(participant_id as nat, u64::MAX as nat);
    lemma_unsigned_roundtrip(instrument_id as nat, u32::MAX as nat);
    lemma_side_roundtrip(side);
    lemma_signed_roundtrip(quantity);
    assert("MARKET"@.len() == 6 && "ADD"@.len() == 3);
}

proof fn lemma_cancel_roundtrip(order_id: u64, instrument_id: u32)
    requires
        instrument_id != 0,
    ensures
        ({
            let c = WireCommand::CancelById { order_id, instrument_id };
            command_of(tokens(c)) == Ok::<WireCommand, super::WireParseError>(c)
        }),
{
    reveal_strlit("ADD");
    reveal_strlit("MARKET");
    reveal_strlit("CANCELID");
    lemma_unsigned_roundtrip(order_id as nat, u64::MAX as nat);
    lemma_unsigned_roundtrip(instrument_id as nat, u32::MAX as nat);
    assert("CANCELID"@.len() == 8 && "ADD"@.len() == 3 && "MARKET"@.len() == 6);
}

/// A command's words parse back to the command.
proof fn lemma_command_roundtrip(c: WireCommand)
    requires
        valid_command(c),
    ensures
        command_of(tokens(c)) == Ok::<WireCommand, super::WireParseError>(c),
{
    match c {
        WireCommand::Add { id, participant_id, instrument_id, side, price, quantity } => {
            lemma_add_roundtrip(id, participant_id, instrument_id, side, price, quantity);
        },
        WireCommand::Market { id, participant_id, instrument_id, side, quantity } => {
            lemma_market_roundtrip(id, participant_id, instrument_id, side, quantity);
        },
        WireCommand::CancelById { order_id, instrument_id } => {
            lemma_cancel_roundtrip(order_id, instrument_id);
        },
    }
}

/// The text of space-separated plain tokens is non-empty, holds no `|`, and begins and
/// ends with a token's char.
proof fn lemma_spaced_chars(ts: Seq<Seq<char>>)
    requires
        ts.len() > 0,
        forall|j: int| 0 <= j < ts.len() ==> plain_token(#[trigger] ts[j]),
    ensures
        spaced(ts).len() > 0,
        spaced(ts)[0] == ts[0][0],
        spaced(ts).last() == ts.last().last(),
        forall|k: int| 0 <= k < spaced(ts).len() ==> #[trigger] spaced(ts)[k] != '|',
    decreases ts.len(),
{
    reveal_strlit(" ");
    assert(plain_token(ts[0]));
    if ts.len() == 1 {
        assert(spaced(ts) == ts[0]);
    } else {
        let tail = ts.drop_first();
        assert forall|m: int| 0 <= m < tail.len() implies plain_token(#[trigger] tail[m]) by {
            assert(tail[m] == ts[m + 1]);
        }
        lemma_spaced_chars(tail);
        let a = ts[0];
        let whole = a + " "@ + spaced(tail);
        assert(spaced(ts) == whole);
        assert(tail.last() == ts.last());
        assert forall|k: int| 0 <= k < whole.len() implies #[trigger] whole[k] != '|' by {
            if k < a.len() {
                assert(whole[k] == a[k]);
            } else if k > a.len() {
                assert(whole[k] == spaced(tail)[k - a.len() - 1]);
            }
        }
    }
}

/// A text that begins and ends with non-space chars is its own trim, also with one
/// trailing line break.
proof fn lemma_trim_text(text: Seq<char>)
    requires
        text.len() > 0,
        !is_space(text[0]),
        !is_space(text.last()),
    ensures
        trimmed(text) == text,
        trimmed(text + "\n"@) == text,
{
    reveal_strlit("\n");
    let n = text.len() as int;
    assert(skip_space(text, 0) == 0);
    assert(back_space(text, 0, n) == n);
    assert(text.subrange(0, n) =~= text);
    let line = text + "\n"@;
    assert(line.len() == n + 1);
    assert(line[0] == text[0]);
    assert(skip_space(line, 0) == 0);
    assert(line[n] == '\n');
    assert(is_space(line[n]));
    assert(line[n - 1] == text.last());
    assert(back_space(line, 0, n) == n);
    assert(back_space(line, 0, n + 1) == back_space(line, 0, n));
    assert(line.subrange(0, n) =~= text);
}

/// What makes a command's text a well-formed single line: non-empty tokens text, no `|`,
/// non-space ends, and its words are its tokens.
proof fn lemma_text_facts(c: WireCommand)
    ensures
        command_text(c).len() > 0,
        !is_space(command_text(c)[0]),
        !is_space(command_text(c).last()),
        command_text(c)[0] != 'B',
        forall|k: int| 0 <= k < command_text(c).len() ==> #[trigger] command_text(c)[k] != '|',
        trimmed(command_text(c)) == command_text(c),
        trimmed(command_text(c) + "\n"@) == command_text(c),
        words(command_text(c)) == tokens(c),
{
    lemma_text_spaced(c);
    lemma_tokens_plain(c);
    let ts = tokens(c);
    lemma_spaced_chars(ts);
    assert(plain_token(ts[0]));
    assert(plain_token(ts.last()));
    reveal_strlit("ADD");
    reveal_strlit("MARKET");
    reveal_strlit("CANCELID");
    assert(ts[0][0] != 'B');
    lemma_trim_text(command_text(c));
    let text = command_text(c);
    assert(text.subrange(0, text.len() as int) =~= text);
    lemma_words_spaced(text, 0, ts);
}

/// The texts of a batch, one per command.
pub open spec fn texts(cs: Seq<WireCommand>) -> Seq<Seq<char>> {
    cs.map_values(|c: WireCommand| command_text(c))
}

/// The batch body read from its front: the first text, a `|`, and the rest.
proof fn lemma_joined_front(cs: Seq<WireCommand>)
    requires
        cs.len() >= 2,
    ensures
        joined(cs) == command_text(cs[0]) + "|"@ + joined(cs.drop_first()),
    decreases cs.len(),
{
    if cs.len() == 2 {
        assert(cs.drop_last().len() == 1);
        assert(cs.drop_first().len() == 1);
        assert(joined(cs.drop_last()) == command_text(cs[0]));
        assert(joined(cs.drop_first()) == command_text(cs[1]));
        assert(joined(cs) =~= command_text(cs[0]) + "|"@ + joined(cs.drop_first()));
    } else {
        let init = cs.drop_last();
        lemma_joined_front(init);
        assert(init.drop_first() =~= cs.drop_first().drop_last());
        assert(cs.drop_first().last() == cs.last());
        assert(init[0] == cs[0]);
        assert(joined(cs) =~= command_text(cs[0]) + "|"@ + joined(cs.drop_first()));
    }
}

/// Reading a piece's chars extends the piece begun before it.
proof fn lemma_pieces_run(s: Seq<char>, i: int, t: Seq<char>, cur: Seq<char>, k: int)
    requires
        0 <= i,
        0 <= k <= t.len(),
        i + t.len() <= s.len(),
        s.subrange(i, i + t.len()) == t,
        forall|m: int| 0 <= m < t.len() ==> #[trigger] t[m] != '|',
    ensures
        pieces_from(s, i, cur) == pieces_from(s, i + k, cur + t.subrange(0, k)),
    decreases k,
{
    if k == 0 {
        assert(cur + t.subrange(0, 0) =~= cur);
    } else {
        lemma_pieces_run(s, i, t, cur, k - 1);
        assert(s[i + k - 1] == t[k - 1]);
        assert((cur + t.subrange(0, k - 1)).push(s[i + k - 1]) =~= cur + t.subrange(0, k));
    }
}

/// The pieces of a batch body are the texts of its commands.
proof fn lemma_pieces_joined(s: Seq<char>, i: int, cs: Seq<WireCommand>)
    requires
        0 <= i <= s.len(),
        cs.len() > 0,
        s.subrange(i, s.len() as int) == joined(cs),
    ensures
        pieces_from(s, i, Seq::empty()) == texts(cs),
    decreases cs.len(),
{
    reveal_strlit("|");
    let t0 = command_text(cs[0]);
    lemma_text_facts(cs[0]);
    let rest_text = s.subrange(i, s.len() as int);
    assert(rest_text.len() == s.len() - i);
    if cs.len() == 1 {
        assert(rest_text == t0);
        assert(s.subrange(i, i + t0.len()) =~= rest_text);
        lemma_pieces_run(s, i, t0, Seq::empty(), t0.len() as int);
        assert(Seq::<char>::empty() + t0.subrange(0, t0.len() as int) =~= t0);
        assert(texts(cs) =~= seq![t0]);
    } else {
        let tail = cs.drop_first();
        lemma_joined_front(cs);
        assert(rest_text == t0 + "|"@ + joined(tail));
        assert("|"@ =~= seq!['|']);
        assert(rest_text.len() == t0.len() + 1 + joined(tail).len());
        assert forall|m: int| 0 <= m < t0.len() implies s.subrange(i, i + t0.len())[m] == t0[m] by {
            assert(s.subrange(i, i + t0.len())[m] == rest_text[m]);
        }
        assert(s.subrange(i, i + t0.len()) =~= t0);
        lemma_pieces_run(s, i, t0, Seq::empty(), t0.len() as int);
        assert(Seq::<char>::empty() + t0.subrange(0, t0.len() as int) =~= t0);
        let j = i + t0.len();
        assert(s[j] == rest_text[t0.len() as int]);
        assert(s[j] == '|');
        assert forall|m: int| 0 <= m < joined(tail).len() implies s.subrange(j + 1, s.len() as int)[m] == joined(tail)[m] by {
            assert(s.subrange(j + 1, s.len() as int)[m] == rest_text[t0.len() + 1 + m]);
        }
        assert(s.subrange(j + 1, s.len() as int) =~= joined(tail));
        lemma_pieces_joined(s, j + 1, tail);
        assert(pieces_from(s, j, t0) == seq![t0] + pieces_from(s, j + 1, Seq::empty()));
        assert(seq![t0] + texts(tail) =~= texts(cs));
    }
}

/// The commands of a batch's pieces, from `k` on, are the batch's commands from `k` on.
#[verifier::spinoff_prover]
proof fn lemma_commands_from(cs: Seq<WireCommand>, k: int)
    requires
        0 <= k <= cs.len(),
        forall|j: int| 0 <= j < cs.len() ==> valid_command(#[trigger] cs[j]),
    ensures
        commands_from(texts(cs), k) == Ok::<Seq<WireCommand>, super::WireParseError>(cs.subrange(k, cs.len() as int)),
    decreases cs.len() - k,
{
    if k < cs.len() {
        lemma_commands_from(cs, k + 1);
        let c = cs[k];
        assert(valid_command(c));
        lemma_text_facts(c);
        lemma_command_roundtrip(c);
        let t = texts(cs)[k];
        assert(t == command_text(c));
        assert(command_of(words(trimmed(t))) == Ok::<WireCommand, super::WireParseError>(c));
        assert(seq![c] + cs.subrange(k + 1, cs.len() as int) =~= cs.subrange(k, cs.len() as int));
    } else {
        assert(cs.subrange(k, cs.len() as int) =~= Seq::<WireCommand>::empty());
    }
}

/// Parsing the line that a valid frame is encoded as gives back the frame's commands:
/// a single command is sent as its text and a line break, several as a `BATCH` line.
pub proof fn law_frame_roundtrip(cs: Seq<WireCommand>)
    requires
        0 < cs.len() <= MAX_BATCH_COMMANDS,
        forall|j: int| 0 <= j < cs.len() ==> valid_command(#[trigger] cs[j]),
    ensures
        frame_text(cs) matches Ok(line) && frame_of(line) == Ok::<Seq<WireCommand>, super::WireParseError>(cs),
{
    reveal_strlit("BATCH ");
    reveal_strlit("\n");
    if cs.len() == 1 {
        let c = cs[0];
        lemma_text_facts(c);
        lemma_command_roundtrip(c);
        let text = command_text(c);
        assert(trimmed(text + "\n"@) == text);
        assert(text[0] != 'B');
        assert("BATCH "@[0] == 'B');
        assert(text.len() >= 6 ==> text.subrange(0, 6) != "BATCH "@);
        assert(cs =~= seq![c]);
    } else {
        let body = joined(cs);
        let t = "BATCH "@ + body;
        let line = t + "\n"@;
        lemma_joined_front(cs);
        lemma_text_facts(cs[0]);
        lemma_text_facts(cs.last());
        assert(body.len() > 0);
        assert(body[0] == command_text(cs[0])[0]);
        assert(cs.drop_last().len() >= 1);
        assert(body == joined(cs.drop_last()) + "|"@ + command_text(cs.last()));
        assert(body.last() == command_text(cs.last()).last());
        assert(t.last() == body.last());
        assert(t[0] == 'B');
        assert(is_space(' ') && !is_space('B'));
        lemma_trim_text(t);
        assert(frame_text(cs) == Ok::<Seq<char>, super::WireParseError>(line));
        assert(t.subrange(0, 6) =~= "BATCH "@);
        assert(t.subrange(6, t.len() as int) =~= body);
        assert(body.subrange(0, body.len() as int) =~= body);
        lemma_pieces_joined(body, 0, cs);
        let ps = pieces(body);
        assert(ps == texts(cs));
        assert forall|k: int| 0 <= k < ps.len() implies #[trigger] trimmed(ps[k]).len() != 0 by {
            lemma_text_facts(cs[k]);
            assert(ps[k] == command_text(cs[k]));
        }
        lemma_commands_from(cs, 0);
        assert(cs.subrange(0, cs.len() as int) =~= cs);
    }
}

} // verus!
