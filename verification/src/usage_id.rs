//! The names under which the use of samples is recorded: no two samples of a session
//! share one.
use vstd::prelude::*;
use crate::text::{
    all_digits, concat2, concat3, decimal, decimal_of, is_digit, lemma_decimal, same_decimal,
};

verus! {

broadcast use vstd::string::group_string_axioms;

/// A message of a turn, by its position there. The first one goes by the turn alone.
pub open spec fn message_label(turn_id: u64, message: nat) -> Seq<char> {
    if message == 0 {
        "turn-"@ + decimal(turn_id as nat)
    } else {
        "turn-"@ + decimal(turn_id as nat) + "-message-"@ + decimal(message)
    }
}

/// The record that a sample's use leaves.
pub open spec fn usage_id_of(turn_id: u64, message: nat, round: u32) -> Seq<char> {
    message_label(turn_id, message) + "-sample-"@ + decimal(round as nat)
}

/// The record that an answer of a model that calls no tools leaves.
pub open spec fn plain_usage_id(turn_id: u64, message: nat) -> Seq<char> {
    message_label(turn_id, message) + "-legacy"@
}

fn label(turn_id: u64, message: u64) -> (r: String)
    ensures
        r@ == message_label(turn_id, message as nat),
{
    let turn = concat2("turn-", &decimal_of(turn_id));
    if message == 0 {
        turn
    } else {
        concat3(&turn, "-message-", &decimal_of(message))
    }
}

pub fn sample_usage_id(turn_id: u64, message: u64, round: u32) -> (r: String)
    ensures
        r@ == usage_id_of(turn_id, message as nat, round),
{
    concat3(&label(turn_id, message), "-sample-", &decimal_of(round as u64))
}

pub fn answer_usage_id(turn_id: u64, message: u64) -> (r: String)
    ensures
        r@ == plain_usage_id(turn_id, message as nat),
{
    concat2(&label(turn_id, message), "-legacy")
}

/// What follows a label: it starts with a hyphen, and not as the position of a message
/// does.
spec fn is_tail(s: Seq<char>) -> bool {
    s.len() >= 2 && s[0] == '-' && s[1] != 'm'
}

/// Digits end where something else begins.
proof fn lemma_digits_end(d: Seq<char>, s: Seq<char>, e: Seq<char>, t: Seq<char>)
    requires
        all_digits(d),
        all_digits(e),
        s.len() > 0,
        t.len() > 0,
        s[0] == '-',
        t[0] == '-',
        d + s == e + t,
    ensures
        d == e,
        s == t,
{
    let l = d + s;
    let r = e + t;
    if d.len() < e.len() {
        assert(l[d.len() as int] == s[0]);
        assert(r[d.len() as int] == e[d.len() as int]);
        assert(is_digit(e[d.len() as int]));
    }
    if e.len() < d.len() {
        assert(r[e.len() as int] == t[0]);
        assert(l[e.len() as int] == d[e.len() as int]);
        assert(is_digit(d[e.len() as int]));
    }
    assert(d =~= l.subrange(0, d.len() as int));
    assert(e =~= r.subrange(0, e.len() as int));
    assert(s =~= l.subrange(d.len() as int, l.len() as int));
    assert(t =~= r.subrange(e.len() as int, r.len() as int));
}

/// What follows the number of the turn.
spec fn after_turn(message: nat, tail: Seq<char>) -> Seq<char> {
    if message == 0 {
        tail
    } else {
        "-message-"@ + (decimal(message) + tail)
    }
}

proof fn lemma_label(turn_id: u64, message: nat, tail: Seq<char>)
    requires
        is_tail(tail),
    ensures
        message_label(turn_id, message) + tail == "turn-"@ + (decimal(turn_id as nat) + after_turn(
            message,
            tail,
        )),
        after_turn(message, tail).len() > 0,
        after_turn(message, tail)[0] == '-',
{
    reveal_strlit("-message-");
    assert(message_label(turn_id, message) + tail =~= "turn-"@ + (decimal(turn_id as nat)
        + after_turn(message, tail)));
}

/// The same text was made of the same turn, the same message and the same tail.
proof fn lemma_labels_differ(
    turn_a: u64,
    message_a: nat,
    tail_a: Seq<char>,
    turn_b: u64,
    message_b: nat,
    tail_b: Seq<char>,
)
    requires
        is_tail(tail_a),
        is_tail(tail_b),
        message_label(turn_a, message_a) + tail_a == message_label(turn_b, message_b) + tail_b,
    ensures
        turn_a == turn_b,
        message_a == message_b,
        tail_a == tail_b,
{
    lemma_label(turn_a, message_a, tail_a);
    lemma_label(turn_b, message_b, tail_b);
    lemma_decimal(turn_a as nat);
    lemma_decimal(turn_b as nat);
    let rest_a = after_turn(message_a, tail_a);
    let rest_b = after_turn(message_b, tail_b);
    let numbered_a = decimal(turn_a as nat) + rest_a;
    let numbered_b = decimal(turn_b as nat) + rest_b;
    let whole_a = "turn-"@ + numbered_a;
    let whole_b = "turn-"@ + numbered_b;
    let n = "turn-"@.len() as int;
    assert(numbered_a =~= whole_a.subrange(n, whole_a.len() as int));
    assert(numbered_b =~= whole_b.subrange(n, whole_b.len() as int));
    lemma_digits_end(decimal(turn_a as nat), rest_a, decimal(turn_b as nat), rest_b);
    same_decimal(turn_a as nat, turn_b as nat);
    reveal_strlit("-message-");
    if message_a == 0 && message_b != 0 {
        assert(rest_b[1] == 'm');
    } else if message_a != 0 && message_b == 0 {
        assert(rest_a[1] == 'm');
    } else if message_a != 0 {
        lemma_decimal(message_a);
        lemma_decimal(message_b);
        let m = "-message-"@.len() as int;
        let placed_a = decimal(message_a) + tail_a;
        let placed_b = decimal(message_b) + tail_b;
        assert(placed_a =~= rest_a.subrange(m, rest_a.len() as int));
        assert(placed_b =~= rest_b.subrange(m, rest_b.len() as int));
        lemma_digits_end(decimal(message_a), tail_a, decimal(message_b), tail_b);
        same_decimal(message_a, message_b);
    }
}

/// Two samples whose use goes by the same name are the same sample of the same message
/// of the same turn.
pub proof fn sample_ids_are_distinct(
    turn_a: u64,
    message_a: nat,
    round_a: u32,
    turn_b: u64,
    message_b: nat,
    round_b: u32,
)
    requires
        usage_id_of(turn_a, message_a, round_a) == usage_id_of(turn_b, message_b, round_b),
    ensures
        turn_a == turn_b,
        message_a == message_b,
        round_a == round_b,
{
    reveal_strlit("-sample-");
    let tail_a = "-sample-"@ + decimal(round_a as nat);
    let tail_b = "-sample-"@ + decimal(round_b as nat);
    assert(usage_id_of(turn_a, message_a, round_a) =~= message_label(turn_a, message_a) + tail_a);
    assert(usage_id_of(turn_b, message_b, round_b) =~= message_label(turn_b, message_b) + tail_b);
    lemma_labels_differ(turn_a, message_a, tail_a, turn_b, message_b, tail_b);
    let n = "-sample-"@.len() as int;
    assert(decimal(round_a as nat) =~= tail_a.subrange(n, tail_a.len() as int));
    assert(decimal(round_b as nat) =~= tail_b.subrange(n, tail_b.len() as int));
    same_decimal(round_a as nat, round_b as nat);
}

/// Two answers of a model that calls no tools whose use goes by the same name answer the
/// same message of the same turn.
pub proof fn answer_ids_are_distinct(turn_a: u64, message_a: nat, turn_b: u64, message_b: nat)
    requires
        plain_usage_id(turn_a, message_a) == plain_usage_id(turn_b, message_b),
    ensures
        turn_a == turn_b,
        message_a == message_b,
{
    reveal_strlit("-legacy");
    lemma_labels_differ(turn_a, message_a, "-legacy"@, turn_b, message_b, "-legacy"@);
}

// ---------------------------------------------------------------------------
// Laws
// ---------------------------------------------------------------------------

/// How the uses of a turn are named: after the turn, the message where it is not the first,
/// and the round of the sample.
pub proof fn how_uses_are_named(turn_id: u64, message: nat, round: u32)
    ensures
        usage_id_of(turn_id, 0, round) == "turn-"@ + decimal(turn_id as nat) + "-sample-"@
            + decimal(round as nat),
        message > 0 ==> usage_id_of(turn_id, message, round) == "turn-"@ + decimal(turn_id as nat)
            + "-message-"@ + decimal(message) + "-sample-"@ + decimal(round as nat),
        plain_usage_id(turn_id, 0) == "turn-"@ + decimal(turn_id as nat) + "-legacy"@,
        message > 0 ==> plain_usage_id(turn_id, message) == "turn-"@ + decimal(turn_id as nat)
            + "-message-"@ + decimal(message) + "-legacy"@,
{
}

} // verus!
