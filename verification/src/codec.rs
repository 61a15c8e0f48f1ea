//! A lossless textual serialization for [`Message`] and [`UserInfo`].
//!
//! The form is a single line of characters. A record starts with a tag
//! character (`M` for a message, `U` for a user record) and is followed
//! by its fields in order:
//!
//! - text is written as its character count in decimal, a `:`, and the
//!   characters themselves, so any text round-trips unharmed;
//! - an optional field is written as `-` when absent, or `+` followed
//!   by its value, so absence stays distinct from every present value;
//! - the metadata mapping is written as its entry count in decimal, a
//!   `:`, and each key and value as text in order.
//!
//! Every field name position and value is preserved, and parsing
//! rejects any leftover trailing characters as well as a metadata block
//! with a repeated key.

use crate::types::Message;
use crate::types::MessageView;
use crate::types::UserInfo;
use crate::types::UserInfoView;
use crate::types::entries_view;
use crate::types::keys_unique;
use crate::types::opt_entries_view;
use crate::types::opt_str_view;
use vstd::prelude::*;
use vstd::string::StrSliceExecFns;
use vstd::string::StringExecFns;

verus! {

/// The digit character for `d`, for `d` under ten.
pub open spec fn digit_char(d: nat) -> char {
    if d == 0 {
        '0'
    } else if d == 1 {
        '1'
    } else if d == 2 {
        '2'
    } else if d == 3 {
        '3'
    } else if d == 4 {
        '4'
    } else if d == 5 {
        '5'
    } else if d == 6 {
        '6'
    } else if d == 7 {
        '7'
    } else if d == 8 {
        '8'
    } else {
        '9'
    }
}

/// The value of a digit character, or ten for any other character.
pub open spec fn digit_val(c: char) -> nat {
    if c == '0' {
        0
    } else if c == '1' {
        1
    } else if c == '2' {
        2
    } else if c == '3' {
        3
    } else if c == '4' {
        4
    } else if c == '5' {
        5
    } else if c == '6' {
        6
    } else if c == '7' {
        7
    } else if c == '8' {
        8
    } else if c == '9' {
        9
    } else {
        10
    }
}

/// The decimal representation of `n`, most significant digit first.
pub open spec fn dec_rep(n: nat) -> Seq<char>
    decreases n,
{
    if n < 10 {
        seq![digit_char(n)]
    } else {
        dec_rep(n / 10).push(digit_char(n % 10))
    }
}

/// Serialized text: the character count in decimal, `:`, then the
/// characters.
pub open spec fn ser_str(s: Seq<char>) -> Seq<char> {
    dec_rep(s.len()) + seq![':'] + s
}

/// Serialized optional text: `-` for absent, `+` and the text for
/// present.
pub open spec fn ser_opt_str(o: Option<Seq<char>>) -> Seq<char> {
    match o {
        None => seq!['-'],
        Some(s) => seq!['+'] + ser_str(s),
    }
}

/// Serialized metadata entries, each key and value as text in order.
pub open spec fn ser_pairs(es: Seq<(Seq<char>, Seq<char>)>) -> Seq<char>
    decreases es.len(),
{
    if es.len() == 0 {
        Seq::empty()
    } else {
        ser_str(es.first().0) + ser_str(es.first().1) + ser_pairs(es.drop_first())
    }
}

/// Serialized optional metadata: `-` for absent; `+`, the entry count
/// in decimal, `:`, and the entries for present.
pub open spec fn ser_opt_entries(o: Option<Seq<(Seq<char>, Seq<char>)>>) -> Seq<char> {
    match o {
        None => seq!['-'],
        Some(es) => seq!['+'] + dec_rep(es.len()) + seq![':'] + ser_pairs(es),
    }
}

/// The serialized form of a message.
pub open spec fn spec_serialize_message(v: MessageView) -> Seq<char> {
    seq!['M'] + ser_str(v.content) + ser_opt_str(v.timestamp) + ser_opt_entries(v.metadata)
}

/// The serialized form of a user record.
pub open spec fn spec_serialize_user_info(v: UserInfoView) -> Seq<char> {
    seq!['U'] + ser_str(v.name) + ser_opt_str(v.email) + ser_opt_entries(v.metadata)
}

/// Read decimal digits into `acc` until a `:`; the count read so far
/// never exceeds the machine word range.
pub open spec fn parse_num_rec(s: Seq<char>, acc: nat) -> Option<(nat, Seq<char>)>
    decreases s.len(),
{
    if s.len() == 0 {
        None
    } else if s.first() == ':' {
        Some((acc, s.drop_first()))
    } else if digit_val(s.first()) < 10 {
        if acc * 10 + digit_val(s.first()) > usize::MAX as nat {
            None
        } else {
            parse_num_rec(s.drop_first(), acc * 10 + digit_val(s.first()))
        }
    } else {
        None
    }
}

/// Read a decimal count terminated by `:`.
pub open spec fn parse_num(s: Seq<char>) -> Option<(nat, Seq<char>)> {
    parse_num_rec(s, 0)
}

/// Read text: a count, then that many characters.
pub open spec fn parse_str(s: Seq<char>) -> Option<(Seq<char>, Seq<char>)> {
    match parse_num(s) {
        None => None,
        Some((n, r)) => if n <= r.len() {
            Some((r.take(n as int), r.skip(n as int)))
        } else {
            None
        },
    }
}

/// Read optional text: `-` for absent, `+` and text for present.
pub open spec fn parse_opt_str(s: Seq<char>) -> Option<(Option<Seq<char>>, Seq<char>)> {
    if s.len() == 0 {
        None
    } else if s.first() == '-' {
        Some((None, s.drop_first()))
    } else if s.first() == '+' {
        match parse_str(s.drop_first()) {
            None => None,
            Some((v, r)) => Some((Some(v), r)),
        }
    } else {
        None
    }
}

/// Read `count` metadata entries, each a key and a value as text.
pub open spec fn parse_pairs(s: Seq<char>, count: nat) -> Option<
    (Seq<(Seq<char>, Seq<char>)>, Seq<char>),
>
    decreases count,
{
    if count == 0 {
        Some((Seq::empty(), s))
    } else {
        match parse_str(s) {
            None => None,
            Some((k, r1)) => match parse_str(r1) {
                None => None,
                Some((v, r2)) => match parse_pairs(r2, (count - 1) as nat) {
                    None => None,
                    Some((ps, r3)) => Some((seq![(k, v)] + ps, r3)),
                },
            },
        }
    }
}

/// Read optional metadata: `-` for absent; `+`, a count, and that many
/// entries for present.
pub open spec fn parse_opt_entries(s: Seq<char>) -> Option<
    (Option<Seq<(Seq<char>, Seq<char>)>>, Seq<char>),
> {
    if s.len() == 0 {
        None
    } else if s.first() == '-' {
        Some((None, s.drop_first()))
    } else if s.first() == '+' {
        match parse_num(s.drop_first()) {
            None => None,
            Some((n, r)) => match parse_pairs(r, n) {
                None => None,
                Some((ps, r2)) => Some((Some(ps), r2)),
            },
        }
    } else {
        None
    }
}

/// The message that `s` is the serialized form of: the tag `M`, the
/// three fields in order, nothing left over, and no repeated metadata
/// key.
pub open spec fn spec_deserialize_message(s: Seq<char>) -> Option<MessageView> {
    if s.len() == 0 || s.first() != 'M' {
        None
    } else {
        match parse_str(s.drop_first()) {
            None => None,
            Some((content, r1)) => match parse_opt_str(r1) {
                None => None,
                Some((ts, r2)) => match parse_opt_entries(r2) {
                    None => None,
                    Some((meta, r3)) => {
                        let v = MessageView { content, timestamp: ts, metadata: meta };
                        if r3.len() == 0 && v.wf() {
                            Some(v)
                        } else {
                            None
                        }
                    },
                },
            },
        }
    }
}

/// The user record that `s` is the serialized form of, as for
/// [`spec_deserialize_message`] with the tag `U`.
pub open spec fn spec_deserialize_user_info(s: Seq<char>) -> Option<UserInfoView> {
    if s.len() == 0 || s.first() != 'U' {
        None
    } else {
        match parse_str(s.drop_first()) {
            None => None,
            Some((name, r1)) => match parse_opt_str(r1) {
                None => None,
                Some((email, r2)) => match parse_opt_entries(r2) {
                    None => None,
                    Some((meta, r3)) => {
                        let v = UserInfoView { name, email, metadata: meta };
                        if r3.len() == 0 && v.wf() {
                            Some(v)
                        } else {
                            None
                        }
                    },
                },
            },
        }
    }
}

/// Ten to the power `k`.
pub open spec fn pow10(k: nat) -> nat
    decreases k,
{
    if k == 0 {
        1
    } else {
        10 * pow10((k - 1) as nat)
    }
}

/// The digit count of the decimal representation of `n`.
pub open spec fn dec_len(n: nat) -> nat
    decreases n,
{
    if n < 10 {
        1
    } else {
        1 + dec_len(n / 10)
    }
}

/// Every count fits the machine word, as do the lengths of all keys
/// and values.
pub open spec fn entries_fit(es: Seq<(Seq<char>, Seq<char>)>) -> bool {
    &&& es.len() <= usize::MAX as nat
    &&& forall|i: int|
        0 <= i < es.len() ==> es[i].0.len() <= usize::MAX as nat && es[i].1.len()
            <= usize::MAX as nat
}

/// Every text length and entry count of the message fits the machine
/// word; true of every message a program can hold.
pub open spec fn message_fits(v: MessageView) -> bool {
    &&& v.content.len() <= usize::MAX as nat
    &&& (v.timestamp matches Some(t) ==> t.len() <= usize::MAX as nat)
    &&& (v.metadata matches Some(es) ==> entries_fit(es))
}

/// Every text length and entry count of the user record fits the
/// machine word.
pub open spec fn user_info_fits(v: UserInfoView) -> bool {
    &&& v.name.len() <= usize::MAX as nat
    &&& (v.email matches Some(t) ==> t.len() <= usize::MAX as nat)
    &&& (v.metadata matches Some(es) ==> entries_fit(es))
}

/// Reading digits consumes exactly a decimal representation and
/// accumulates its value.
proof fn lemma_parse_num_rec_dec(n: nat, acc: nat, tail: Seq<char>)
    requires
        acc * pow10(dec_len(n)) + n <= usize::MAX as nat,
    ensures
        parse_num_rec(dec_rep(n) + tail, acc) == parse_num_rec(
            tail,
            acc * pow10(dec_len(n)) + n,
        ),
    decreases n,
{
    if n < 10 {
        let s = dec_rep(n) + tail;
        assert(s.first() == digit_char(n));
        assert(digit_val(digit_char(n)) == n);
        assert(digit_char(n) != ':');
        assert(dec_len(n) == 1);
        assert(pow10(0) == 1);
        assert(pow10(1) == 10);
        assert(s.drop_first() =~= tail);
    } else {
        let d = n % 10;
        let m = n / 10;
        vstd::arithmetic::div_mod::lemma_fundamental_div_mod(n as int, 10);
        let p = pow10(dec_len(m));
        assert(pow10(dec_len(n)) == 10 * p);
        let acc2 = acc * p + m;
        assert((acc * p + m) * 10 + d == acc * (10 * p) + (10 * m + d)) by (nonlinear_arith);
        assert(acc2 * 10 + d == acc * pow10(dec_len(n)) + n);
        assert(acc2 <= acc2 * 10 + d) by (nonlinear_arith);
        assert(acc * p + m <= usize::MAX as nat);
        assert(dec_rep(n) + tail =~= dec_rep(m) + (seq![digit_char(d)] + tail));
        lemma_parse_num_rec_dec(m, acc, seq![digit_char(d)] + tail);
        let s2 = seq![digit_char(d)] + tail;
        assert(s2.first() == digit_char(d));
        assert(digit_val(digit_char(d)) == d);
        assert(digit_char(d) != ':');
        assert(s2.drop_first() =~= tail);
    }
}

/// Reading a count consumes exactly a decimal representation and its
/// terminating `:`.
proof fn lemma_parse_num_dec(n: nat, rest: Seq<char>)
    requires
        n <= usize::MAX as nat,
    ensures
        parse_num(dec_rep(n) + seq![':'] + rest) == Some((n, rest)),
{
    let tail = seq![':'] + rest;
    assert(dec_rep(n) + seq![':'] + rest =~= dec_rep(n) + tail);
    lemma_parse_num_rec_dec(n, 0, tail);
    assert(tail.first() == ':');
    assert(tail.drop_first() =~= rest);
}

/// Reading text consumes exactly a serialized text.
proof fn lemma_parse_str_ser(x: Seq<char>, rest: Seq<char>)
    requires
        x.len() <= usize::MAX as nat,
    ensures
        parse_str(ser_str(x) + rest) == Some((x, rest)),
{
    assert(ser_str(x) + rest =~= dec_rep(x.len()) + seq![':'] + (x + rest));
    lemma_parse_num_dec(x.len(), x + rest);
    assert((x + rest).take(x.len() as int) =~= x);
    assert((x + rest).skip(x.len() as int) =~= rest);
}

/// Reading optional text consumes exactly a serialized optional text.
proof fn lemma_parse_opt_str_ser(o: Option<Seq<char>>, rest: Seq<char>)
    requires
        o matches Some(x) ==> x.len() <= usize::MAX as nat,
    ensures
        parse_opt_str(ser_opt_str(o) + rest) == Some((o, rest)),
{
    match o {
        None => {
            let s = ser_opt_str(o) + rest;
            assert(s.first() == '-');
            assert(s.drop_first() =~= rest);
        },
        Some(x) => {
            let s = ser_opt_str(o) + rest;
            assert(s =~= seq!['+'] + (ser_str(x) + rest));
            assert(s.first() == '+');
            assert(s.drop_first() =~= ser_str(x) + rest);
            lemma_parse_str_ser(x, rest);
        },
    }
}

/// Reading entries consumes exactly the serialized entries, count for
/// count.
proof fn lemma_parse_pairs_ser(es: Seq<(Seq<char>, Seq<char>)>, rest: Seq<char>)
    requires
        forall|i: int|
            0 <= i < es.len() ==> es[i].0.len() <= usize::MAX as nat && es[i].1.len()
                <= usize::MAX as nat,
    ensures
        parse_pairs(ser_pairs(es) + rest, es.len()) == Some((es, rest)),
    decreases es.len(),
{
    if es.len() == 0 {
        assert(ser_pairs(es) + rest =~= rest);
        assert(parse_pairs(rest, 0) == Some((Seq::<(Seq<char>, Seq<char>)>::empty(), rest)));
        assert(es =~= Seq::<(Seq<char>, Seq<char>)>::empty());
    } else {
        let k = es.first().0;
        let v = es.first().1;
        let tl = es.drop_first();
        assert(es[0].0 == k && es[0].1 == v);
        assert(ser_pairs(es) + rest =~= ser_str(k) + (ser_str(v) + (ser_pairs(tl) + rest)));
        lemma_parse_str_ser(k, ser_str(v) + (ser_pairs(tl) + rest));
        lemma_parse_str_ser(v, ser_pairs(tl) + rest);
        assert(forall|i: int| 0 <= i < tl.len() ==> tl[i] == es[i + 1]);
        lemma_parse_pairs_ser(tl, rest);
        assert(seq![(k, v)] + tl =~= es);
    }
}

/// Reading optional metadata consumes exactly the serialized optional
/// metadata.
proof fn lemma_parse_opt_entries_ser(o: Option<Seq<(Seq<char>, Seq<char>)>>, rest: Seq<char>)
    requires
        o matches Some(es) ==> entries_fit(es),
    ensures
        parse_opt_entries(ser_opt_entries(o) + rest) == Some((o, rest)),
{
    match o {
        None => {
            let s = ser_opt_entries(o) + rest;
            assert(s.first() == '-');
            assert(s.drop_first() =~= rest);
        },
        Some(es) => {
            let s = ser_opt_entries(o) + rest;
            assert(s =~= seq!['+'] + (dec_rep(es.len()) + seq![':'] + (ser_pairs(es) + rest)));
            assert(s.first() == '+');
            assert(s.drop_first() =~= dec_rep(es.len()) + seq![':'] + (ser_pairs(es) + rest));
            lemma_parse_num_dec(es.len(), ser_pairs(es) + rest);
            lemma_parse_pairs_ser(es, rest);
        },
    }
}

/// Serializing a message and reading the text back yields the message
/// unchanged: the form loses nothing.
pub proof fn lemma_message_round_trip(v: MessageView)
    requires
        v.wf(),
        message_fits(v),
    ensures
        spec_deserialize_message(spec_serialize_message(v)) == Some(v),
{
    let a = ser_str(v.content);
    let b = ser_opt_str(v.timestamp);
    let c = ser_opt_entries(v.metadata);
    let s = spec_serialize_message(v);
    assert(s =~= seq!['M'] + (a + (b + c)));
    assert(s.first() == 'M');
    assert(s.drop_first() =~= a + (b + c));
    assert(a + (b + c) =~= ser_str(v.content) + (b + c));
    lemma_parse_str_ser(v.content, b + c);
    assert(b + c =~= ser_opt_str(v.timestamp) + c);
    lemma_parse_opt_str_ser(v.timestamp, c);
    assert(c =~= ser_opt_entries(v.metadata) + Seq::<char>::empty());
    lemma_parse_opt_entries_ser(v.metadata, Seq::empty());
    assert(spec_deserialize_message(s) == Some(v));
}

/// Serializing a user record and reading the text back yields the
/// record unchanged.
pub proof fn lemma_user_info_round_trip(v: UserInfoView)
    requires
        v.wf(),
        user_info_fits(v),
    ensures
        spec_deserialize_user_info(spec_serialize_user_info(v)) == Some(v),
{
    let a = ser_str(v.name);
    let b = ser_opt_str(v.email);
    let c = ser_opt_entries(v.metadata);
    let s = spec_serialize_user_info(v);
    assert(s =~= seq!['U'] + (a + (b + c)));
    assert(s.first() == 'U');
    assert(s.drop_first() =~= a + (b + c));
    lemma_parse_str_ser(v.name, b + c);
    assert(b + c =~= ser_opt_str(v.email) + c);
    lemma_parse_opt_str_ser(v.email, c);
    assert(c =~= ser_opt_entries(v.metadata) + Seq::<char>::empty());
    lemma_parse_opt_entries_ser(v.metadata, Seq::empty());
    assert(spec_deserialize_user_info(s) == Some(v));
}

/// Appending an entry extends the serialized entries at the end.
proof fn lemma_ser_pairs_push(es: Seq<(Seq<char>, Seq<char>)>, e: (Seq<char>, Seq<char>))
    ensures
        ser_pairs(es.push(e)) == ser_pairs(es) + ser_str(e.0) + ser_str(e.1),
    decreases es.len(),
{
    if es.len() == 0 {
        assert(es.push(e).first() == e);
        assert(es.push(e).drop_first() =~= Seq::<(Seq<char>, Seq<char>)>::empty());
        assert(ser_pairs(Seq::<(Seq<char>, Seq<char>)>::empty()) == Seq::<char>::empty());
        assert(ser_pairs(es.push(e)) =~= ser_pairs(es) + ser_str(e.0) + ser_str(e.1));
    } else {
        assert(es.push(e).first() == es.first());
        assert(es.push(e).drop_first() =~= es.drop_first().push(e));
        lemma_ser_pairs_push(es.drop_first(), e);
        assert(ser_pairs(es.push(e)) =~= ser_pairs(es) + ser_str(e.0) + ser_str(e.1));
    }
}

/// The one-character string for a digit.
fn digit_str(d: usize) -> (r: &'static str)
    requires
        d < 10,
    ensures
        r@ == seq![digit_char(d as nat)],
{
    let r: &'static str = if d == 0 {
        "0"
    } else if d == 1 {
        "1"
    } else if d == 2 {
        "2"
    } else if d == 3 {
        "3"
    } else if d == 4 {
        "4"
    } else if d == 5 {
        "5"
    } else if d == 6 {
        "6"
    } else if d == 7 {
        "7"
    } else if d == 8 {
        "8"
    } else {
        "9"
    };
    proof {
        reveal_strlit("0");
        reveal_strlit("1");
        reveal_strlit("2");
        reveal_strlit("3");
        reveal_strlit("4");
        reveal_strlit("5");
        reveal_strlit("6");
        reveal_strlit("7");
        reveal_strlit("8");
        reveal_strlit("9");
        assert(r@ =~= seq![digit_char(d as nat)]);
    }
    r
}

/// Append the decimal representation of `n`.
fn append_dec(out: &mut String, n: usize)
    ensures
        final(out)@ == old(out)@ + dec_rep(n as nat),
    decreases n,
{
    if n < 10 {
        let ds = digit_str(n);
        out.append(ds);
    } else {
        append_dec(out, n / 10);
        let ds = digit_str(n % 10);
        out.append(ds);
        proof {
            assert(old(out)@ + dec_rep((n / 10) as nat) + seq![digit_char((n % 10) as nat)] =~= old(
                out,
            )@ + dec_rep(n as nat));
        }
    }
}

/// Append a text field: its character count, `:`, the characters.
fn append_ser_str(out: &mut String, s: &str)
    ensures
        final(out)@ == old(out)@ + ser_str(s@),
{
    let n = s.unicode_len();
    append_dec(out, n);
    out.append(":");
    out.append(s);
    proof {
        reveal_strlit(":");
        assert((":")@ =~= seq![':']);
        assert(old(out)@ + dec_rep(n as nat) + (":")@ + s@ =~= old(out)@ + ser_str(s@));
    }
}

/// Append an optional text field.
fn append_opt_str(out: &mut String, o: &Option<String>)
    ensures
        final(out)@ == old(out)@ + ser_opt_str(opt_str_view(*o)),
{
    match o {
        None => {
            out.append("-");
            proof {
                reveal_strlit("-");
                assert(old(out)@ + ("-")@ =~= old(out)@ + ser_opt_str(opt_str_view(*o)));
            }
        },
        Some(sv) => {
            out.append("+");
            append_ser_str(out, sv.as_str());
            proof {
                reveal_strlit("+");
                assert(old(out)@ + ("+")@ + ser_str(sv@) =~= old(out)@ + ser_opt_str(
                    opt_str_view(*o),
                ));
            }
        },
    }
}

/// Append the metadata entries: their count, `:`, each key and value.
fn append_entries(out: &mut String, es: &Vec<(String, String)>)
    ensures
        final(out)@ == old(out)@ + dec_rep(es@.len()) + seq![':'] + ser_pairs(entries_view(es@)),
{
    let n = es.len();
    append_dec(out, n);
    out.append(":");
    proof {
        reveal_strlit(":");
        assert((":")@ =~= seq![':']);
    }
    let ghost base = out@;
    let mut i: usize = 0;
    while i < n
        invariant
            i <= n,
            n == es@.len(),
            base == old(out)@ + dec_rep(es@.len()) + seq![':'],
            out@ == base + ser_pairs(entries_view(es@).take(i as int)),
        decreases n - i,
    {
        let e = &es[i];
        append_ser_str(out, e.0.as_str());
        append_ser_str(out, e.1.as_str());
        proof {
            let ev = entries_view(es@);
            assert(ev.take(i + 1) =~= ev.take(i as int).push(ev[i as int]));
            lemma_ser_pairs_push(ev.take(i as int), ev[i as int]);
            assert(out@ =~= base + ser_pairs(ev.take(i + 1)));
        }
        i = i + 1;
    }
    proof {
        assert(entries_view(es@).take(n as int) =~= entries_view(es@));
        assert(out@ =~= old(out)@ + dec_rep(es@.len()) + seq![':'] + ser_pairs(entries_view(es@)));
    }
}

/// Write a message in its serialized textual form.
pub fn serialize_message(m: &Message) -> (r: String)
    ensures
        r@ == spec_serialize_message(m@),
{
    let mut out = String::from_str("M");
    proof {
        reveal_strlit("M");
        assert(out@ =~= seq!['M']);
    }
    append_ser_str(&mut out, m.content.as_str());
    append_opt_str(&mut out, &m.timestamp);
    match &m.metadata {
        None => {
            out.append("-");
            proof {
                reveal_strlit("-");
                assert(("-")@ =~= seq!['-']);
            }
        },
        Some(es) => {
            out.append("+");
            proof {
                reveal_strlit("+");
                assert(("+")@ =~= seq!['+']);
            }
            append_entries(&mut out, es);
        },
    }
    proof {
        assert(out@ =~= spec_serialize_message(m@));
    }
    out
}

/// Write a user record in its serialized textual form.
pub fn serialize_user_info(u: &UserInfo) -> (r: String)
    ensures
        r@ == spec_serialize_user_info(u@),
{
    let mut out = String::from_str("U");
    proof {
        reveal_strlit("U");
        assert(out@ =~= seq!['U']);
    }
    append_ser_str(&mut out, u.name.as_str());
    append_opt_str(&mut out, &u.email);
    match &u.metadata {
        None => {
            out.append("-");
            proof {
                reveal_strlit("-");
                assert(("-")@ =~= seq!['-']);
            }
        },
        Some(es) => {
            out.append("+");
            proof {
                reveal_strlit("+");
                assert(("+")@ =~= seq!['+']);
            }
            append_entries(&mut out, es);
        },
    }
    proof {
        assert(out@ =~= spec_serialize_user_info(u@));
    }
    out
}

/// The value of a digit character.
fn digit_of(c: char) -> (r: Option<usize>)
    ensures
        match r {
            Some(d) => d < 10 && digit_val(c) == d as nat,
            None => digit_val(c) == 10,
        },
{
    if c == '0' {
        Some(0)
    } else if c == '1' {
        Some(1)
    } else if c == '2' {
        Some(2)
    } else if c == '3' {
        Some(3)
    } else if c == '4' {
        Some(4)
    } else if c == '5' {
        Some(5)
    } else if c == '6' {
        Some(6)
    } else if c == '7' {
        Some(7)
    } else if c == '8' {
        Some(8)
    } else if c == '9' {
        Some(9)
    } else {
        None
    }
}

/// Read a decimal count terminated by `:`, starting at `i`.
fn p_num(s: &str, i: usize) -> (r: Option<(usize, usize)>)
    requires
        i <= s@.len(),
    ensures
        match r {
            Some(p) => i <= p.1 <= s@.len() && parse_num(s@.skip(i as int)) == Some(
                (p.0 as nat, s@.skip(p.1 as int)),
            ),
            None => parse_num(s@.skip(i as int)) is None,
        },
{
    let len = s.unicode_len();
    let mut acc: usize = 0;
    let mut j: usize = i;
    while j < len
        invariant
            i <= j <= len,
            len == s@.len(),
            parse_num_rec(s@.skip(i as int), 0) == parse_num_rec(s@.skip(j as int), acc as nat),
        decreases len - j,
    {
        let c = s.get_char(j);
        proof {
            assert(s@.skip(j as int).first() == s@[j as int]);
            assert(s@.skip(j as int).drop_first() =~= s@.skip(j + 1));
        }
        if c == ':' {
            return Some((acc, j + 1));
        }
        match digit_of(c) {
            None => {
                return None;
            },
            Some(d) => {
                proof {
                    vstd::arithmetic::div_mod::lemma_fundamental_div_mod(
                        usize::MAX - d,
                        10,
                    );
                    vstd::arithmetic::div_mod::lemma_mod_bound(usize::MAX - d, 10);
                }
                if acc > (usize::MAX - d) / 10 {
                    proof {
                        assert(acc * 10 + d > usize::MAX);
                    }
                    return None;
                }
                proof {
                    assert(acc * 10 + d <= usize::MAX);
                }
                acc = acc * 10 + d;
                j = j + 1;
            },
        }
    }
    proof {
        assert(s@.skip(j as int).len() == 0);
    }
    None
}

/// Read a text field, starting at `i`.
fn p_str(s: &str, i: usize) -> (r: Option<(String, usize)>)
    requires
        i <= s@.len(),
    ensures
        match r {
            Some(p) => i <= p.1 <= s@.len() && parse_str(s@.skip(i as int)) == Some(
                (p.0@, s@.skip(p.1 as int)),
            ),
            None => parse_str(s@.skip(i as int)) is None,
        },
{
    match p_num(s, i) {
        None => None,
        Some((n, j)) => {
            let len = s.unicode_len();
            if n <= len - j {
                let sub = s.substring_char(j, j + n);
                let owned = String::from_str(sub);
                proof {
                    assert(s@.skip(j as int).take(n as int) =~= s@.subrange(
                        j as int,
                        j + n,
                    ));
                    assert(s@.skip(j as int).skip(n as int) =~= s@.skip(j + n));
                }
                Some((owned, j + n))
            } else {
                proof {
                    assert(s@.skip(j as int).len() < n);
                }
                None
            }
        },
    }
}

/// Read an optional text field, starting at `i`.
fn p_opt_str(s: &str, i: usize) -> (r: Option<(Option<String>, usize)>)
    requires
        i <= s@.len(),
    ensures
        match r {
            Some(p) => i <= p.1 <= s@.len() && parse_opt_str(s@.skip(i as int)) == Some(
                (opt_str_view(p.0), s@.skip(p.1 as int)),
            ),
            None => parse_opt_str(s@.skip(i as int)) is None,
        },
{
    let len = s.unicode_len();
    if i == len {
        return None;
    }
    let c = s.get_char(i);
    proof {
        assert(s@.skip(i as int).first() == s@[i as int]);
        assert(s@.skip(i as int).drop_first() =~= s@.skip(i + 1));
    }
    if c == '-' {
        return Some((None, i + 1));
    }
    if c == '+' {
        match p_str(s, i + 1) {
            None => {
                return None;
            },
            Some((v, j)) => {
                return Some((Some(v), j));
            },
        }
    }
    None
}

/// Read `count` metadata entries, starting at `i`.
fn p_pairs(s: &str, i: usize, count: usize) -> (r: Option<(Vec<(String, String)>, usize)>)
    requires
        i <= s@.len(),
    ensures
        match r {
            Some(p) => i <= p.1 <= s@.len() && parse_pairs(s@.skip(i as int), count as nat)
                == Some((entries_view(p.0@), s@.skip(p.1 as int))),
            None => parse_pairs(s@.skip(i as int), count as nat) is None,
        },
{
    let mut es: Vec<(String, String)> = Vec::new();
    let mut j: usize = i;
    let mut t: usize = 0;
    proof {
        assert(entries_view(es@) =~= Seq::<(Seq<char>, Seq<char>)>::empty());
    }
    while t < count
        invariant
            i <= j <= s@.len(),
            t <= count,
            parse_pairs(s@.skip(i as int), count as nat) == (match parse_pairs(
                s@.skip(j as int),
                (count - t) as nat,
            ) {
                None => None,
                Some(pr) => Some((entries_view(es@) + pr.0, pr.1)),
            }),
        decreases count - t,
    {
        match p_str(s, j) {
            None => {
                return None;
            },
            Some((k, j1)) => {
                match p_str(s, j1) {
                    None => {
                        return None;
                    },
                    Some((v, j2)) => {
                        proof {
                            let tail = parse_pairs(s@.skip(j2 as int), (count - (t + 1)) as nat);
                            match tail {
                                None => {},
                                Some(pr) => {
                                    assert(entries_view(es@.push((k, v))) =~= entries_view(
                                        es@,
                                    ).push((k@, v@)));
                                    assert(entries_view(es@).push((k@, v@)) + pr.0 =~= entries_view(
                                        es@,
                                    ) + (seq![(k@, v@)] + pr.0));
                                },
                            }
                        }
                        es.push((k, v));
                        j = j2;
                        t = t + 1;
                    },
                }
            },
        }
    }
    proof {
        assert(parse_pairs(s@.skip(j as int), 0) == Some(
            (Seq::<(Seq<char>, Seq<char>)>::empty(), s@.skip(j as int)),
        ));
        assert(entries_view(es@) + Seq::<(Seq<char>, Seq<char>)>::empty() =~= entries_view(es@));
    }
    Some((es, j))
}

/// Read an optional metadata block, starting at `i`.
fn p_opt_entries(s: &str, i: usize) -> (r: Option<(Option<Vec<(String, String)>>, usize)>)
    requires
        i <= s@.len(),
    ensures
        match r {
            Some(p) => i <= p.1 <= s@.len() && parse_opt_entries(s@.skip(i as int)) == Some(
                (opt_entries_view(p.0), s@.skip(p.1 as int)),
            ),
            None => parse_opt_entries(s@.skip(i as int)) is None,
        },
{
    let len = s.unicode_len();
    if i == len {
        return None;
    }
    let c = s.get_char(i);
    proof {
        assert(s@.skip(i as int).first() == s@[i as int]);
        assert(s@.skip(i as int).drop_first() =~= s@.skip(i + 1));
    }
    if c == '-' {
        return Some((None, i + 1));
    }
    if c == '+' {
        match p_num(s, i + 1) {
            None => {
                return None;
            },
            Some((cnt, jc)) => {
                match p_pairs(s, jc, cnt) {
                    None => {
                        return None;
                    },
                    Some((es, je)) => {
                        return Some((Some(es), je));
                    },
                }
            },
        }
    }
    None
}

/// Read a message back from its serialized textual form.
///
/// Returns `Some` exactly on the texts that
/// [`spec_deserialize_message`] accepts: a complete, well-formed
/// serialized message with nothing left over.
pub fn deserialize_message(s: &str) -> (r: Option<Message>)
    ensures
        match r {
            Some(m) => spec_deserialize_message(s@) == Some(m@) && m@.wf(),
            None => spec_deserialize_message(s@) is None,
        },
{
    let len = s.unicode_len();
    if len == 0 {
        return None;
    }
    let c0 = s.get_char(0);
    if c0 != 'M' {
        return None;
    }
    proof {
        assert(s@.drop_first() =~= s@.skip(1));
    }
    let (content, i1) = match p_str(s, 1) {
        None => {
            return None;
        },
        Some(p) => p,
    };
    let (ts, i2) = match p_opt_str(s, i1) {
        None => {
            return None;
        },
        Some(p) => p,
    };
    let (meta, i3) = match p_opt_entries(s, i2) {
        None => {
            return None;
        },
        Some(p) => p,
    };
    if i3 != len {
        proof {
            assert(s@.skip(i3 as int).len() > 0);
        }
        return None;
    }
    let meta_ok = match &meta {
        None => true,
        Some(es) => keys_unique(es),
    };
    if !meta_ok {
        return None;
    }
    let m = Message { content, timestamp: ts, metadata: meta };
    Some(m)
}

/// Read a user record back from its serialized textual form.
///
/// Returns `Some` exactly on the texts that
/// [`spec_deserialize_user_info`] accepts.
pub fn deserialize_user_info(s: &str) -> (r: Option<UserInfo>)
    ensures
        match r {
            Some(u) => spec_deserialize_user_info(s@) == Some(u@) && u@.wf(),
            None => spec_deserialize_user_info(s@) is None,
        },
{
    let len = s.unicode_len();
    if len == 0 {
        return None;
    }
    let c0 = s.get_char(0);
    if c0 != 'U' {
        return None;
    }
    proof {
        assert(s@.drop_first() =~= s@.skip(1));
    }
    let (name, i1) = match p_str(s, 1) {
        None => {
            return None;
        },
        Some(p) => p,
    };
    let (email, i2) = match p_opt_str(s, i1) {
        None => {
            return None;
        },
        Some(p) => p,
    };
    let (meta, i3) = match p_opt_entries(s, i2) {
        None => {
            return None;
        },
        Some(p) => p,
    };
    if i3 != len {
        proof {
            assert(s@.skip(i3 as int).len() > 0);
        }
        return None;
    }
    let meta_ok = match &meta {
        None => true,
        Some(es) => keys_unique(es),
    };
    if !meta_ok {
        return None;
    }
    let u = UserInfo { name, email, metadata: meta };
    Some(u)
}

} // verus!
