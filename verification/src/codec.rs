//! The text codec for the persisted records.
//!
//! A record is stored as human-readable lines of `key = value` pairs:
//! the message list as a bracketed list of quoted strings, the status
//! fields as quoted strings, and the numeric fields in decimal. Quoted
//! strings escape the backslash, the double quote, and the common
//! control characters. The serializer and the parser are both specified
//! against the same mathematical grammar, and parsing a serialized
//! record is proved to give the record back.

use vstd::prelude::*;
use vstd::string::StrSliceExecFns;

use crate::record::Config;
use crate::record::ConfigView;
use crate::record::Messages;
use crate::record::MessagesView;
use crate::record::StoreError;

verus! {

// ---------------------------------------------------------------------
// Characters and digits
// ---------------------------------------------------------------------

/// Is `c` a decimal digit?
pub open spec fn is_digit_char(c: char) -> bool {
    ('0' as int) <= (c as int) <= ('9' as int)
}

/// The numeric value of a decimal digit character.
pub open spec fn digit_val(c: char) -> nat {
    ((c as int) - ('0' as int)) as nat
}

/// The character for a decimal digit value below ten.
pub open spec fn digit_char(d: nat) -> char {
    if d == 0 {
        '0'
    } else if d == 1 {
        '1'
    } else if d == 2 {
        '2'
    } else if d == 3 {
        '3'
    } else if d == 4 {
        '4'
    } else if d == 5 {
        '5'
    } else if d == 6 {
        '6'
    } else if d == 7 {
        '7'
    } else if d == 8 {
        '8'
    } else {
        '9'
    }
}

proof fn lemma_digit_char_val(d: nat)
    requires
        d < 10,
    ensures
        is_digit_char(digit_char(d)),
        digit_val(digit_char(d)) == d,
{
}

// ---------------------------------------------------------------------
// String escaping
// ---------------------------------------------------------------------

/// How a single character appears inside a quoted string.
pub open spec fn esc_char(c: char) -> Seq<char> {
    if c == '\\' {
        seq!['\\', '\\']
    } else if c == '"' {
        seq!['\\', '"']
    } else if c == '\n' {
        seq!['\\', 'n']
    } else if c == '\r' {
        seq!['\\', 'r']
    } else if c == '\t' {
        seq!['\\', 't']
    } else {
        seq![c]
    }
}

/// The character that an escape code stands for, if it is one.
pub open spec fn unesc_char(c: char) -> Option<char> {
    if c == '\\' {
        Some('\\')
    } else if c == '"' {
        Some('"')
    } else if c == 'n' {
        Some('\n')
    } else if c == 'r' {
        Some('\r')
    } else if c == 't' {
        Some('\t')
    } else {
        None
    }
}

/// The escaped form of a string's characters.
pub open spec fn esc(s: Seq<char>) -> Seq<char>
    decreases s.len(),
{
    if s.len() == 0 {
        Seq::empty()
    } else {
        esc_char(s[0]) + esc(s.skip(1))
    }
}

/// The escaped form of a single character's string.
pub proof fn lemma_esc_single(c: char)
    ensures
        esc(seq![c]) == esc_char(c),
{
    assert(seq![c].skip(1) =~= Seq::<char>::empty());
    assert(esc(seq![c]) == esc_char(c) + esc(Seq::<char>::empty()));
    assert(esc_char(c) + Seq::<char>::empty() =~= esc_char(c));
}

/// Escaping distributes over concatenation.
pub proof fn lemma_esc_append(a: Seq<char>, b: Seq<char>)
    ensures
        esc(a + b) == esc(a) + esc(b),
    decreases a.len(),
{
    if a.len() == 0 {
        assert(a + b =~= b);
        assert(esc(a) + esc(b) =~= esc(b));
    } else {
        assert((a + b).skip(1) =~= a.skip(1) + b);
        lemma_esc_append(a.skip(1), b);
        assert(esc(a + b) =~= esc(a) + esc(b));
    }
}

// ---------------------------------------------------------------------
// Decimal numbers
// ---------------------------------------------------------------------

/// The decimal digits of `n`, most significant first, no leading zeros.
pub open spec fn dec_digits(n: nat) -> Seq<char>
    decreases n,
{
    if n < 10 {
        seq![digit_char(n)]
    } else {
        dec_digits(n / 10).push(digit_char(n % 10))
    }
}

/// The value of a sequence of decimal digit characters.
pub open spec fn val_digits(d: Seq<char>) -> nat
    decreases d.len(),
{
    if d.len() == 0 {
        0
    } else {
        val_digits(d.drop_last()) * 10 + digit_val(d.last())
    }
}

/// The digits of a number are digits, there is at least one, and their
/// value is the number again.
pub proof fn lemma_dec_digits(n: nat)
    ensures
        dec_digits(n).len() >= 1,
        forall|i: int| 0 <= i < dec_digits(n).len() ==> is_digit_char(#[trigger] dec_digits(n)[i]),
        val_digits(dec_digits(n)) == n,
    decreases n,
{
    if n < 10 {
        lemma_digit_char_val(n);
        let d = dec_digits(n);
        assert(d.drop_last() =~= Seq::<char>::empty());
        assert(d.last() == digit_char(n));
        assert(val_digits(d) == val_digits(Seq::<char>::empty()) * 10 + digit_val(digit_char(n)));
    } else {
        lemma_dec_digits(n / 10);
        lemma_digit_char_val(n % 10);
        let d = dec_digits(n);
        assert(d.drop_last() =~= dec_digits(n / 10));
        assert(d.last() == digit_char(n % 10));
        assert(val_digits(d) == val_digits(dec_digits(n / 10)) * 10 + digit_val(
            digit_char(n % 10),
        ));
        assert(val_digits(d) == (n / 10) * 10 + n % 10);
        assert((n / 10) * 10 + n % 10 == n) by (nonlinear_arith);
    }
}

/// Ten to the `k`.
pub open spec fn pow10(k: nat) -> nat
    decreases k,
{
    if k == 0 {
        1
    } else {
        10 * pow10((k - 1) as nat)
    }
}

proof fn lemma_pow10_pos(k: nat)
    ensures
        pow10(k) >= 1,
    decreases k,
{
    if k > 0 {
        lemma_pow10_pos((k - 1) as nat);
    }
}

/// The value of concatenated digit strings.
pub proof fn lemma_val_append(a: Seq<char>, b: Seq<char>)
    ensures
        val_digits(a + b) == val_digits(a) * pow10(b.len()) + val_digits(b),
    decreases b.len(),
{
    if b.len() == 0 {
        assert(a + b =~= a);
        assert(val_digits(a + b) == val_digits(a) * 1 + 0);
    } else {
        let b0 = b.drop_last();
        lemma_val_append(a, b0);
        let x = val_digits(a);
        let y = pow10(b0.len());
        let z = val_digits(b0);
        let g = digit_val(b.last());
        assert((a + b).drop_last() =~= a + b0);
        assert((a + b).last() == b.last());
        assert(val_digits(a + b) == val_digits(a + b0) * 10 + g);
        assert(val_digits(a + b0) == x * y + z);
        assert((x * y + z) * 10 + g == x * (y * 10) + (z * 10 + g)) by (nonlinear_arith);
        assert(pow10(b.len()) == 10 * pow10((b.len() - 1) as nat));
        assert(b0.len() == b.len() - 1);
        assert(pow10(b.len()) == y * 10);
        assert(val_digits(b) == val_digits(b.drop_last()) * 10 + digit_val(b.last()));
        assert(val_digits(b) == z * 10 + g);
        assert(val_digits(a + b) == x * pow10(b.len()) + val_digits(b));
    }
}

/// Appending digits never lowers the value.
pub proof fn lemma_val_prefix_le(d: Seq<char>, i: int)
    requires
        0 <= i <= d.len(),
    ensures
        val_digits(d.take(i)) <= val_digits(d),
{
    let a = d.take(i);
    let b = d.skip(i);
    assert(d =~= a + b);
    lemma_val_append(a, b);
    lemma_pow10_pos(b.len());
    assert(val_digits(a) * pow10(b.len()) >= val_digits(a) * 1) by (nonlinear_arith)
        requires pow10(b.len()) >= 1;
}

/// How many leading characters of `s` are decimal digits.
pub open spec fn digit_prefix_len(s: Seq<char>) -> nat
    decreases s.len(),
{
    if s.len() > 0 && is_digit_char(s[0]) {
        1 + digit_prefix_len(s.skip(1))
    } else {
        0
    }
}

/// The digit prefix of digits followed by a non-digit is exactly the digits.
pub proof fn lemma_digit_prefix_of_append(d: Seq<char>, rest: Seq<char>)
    requires
        forall|i: int| 0 <= i < d.len() ==> is_digit_char(#[trigger] d[i]),
        rest.len() == 0 || !is_digit_char(rest[0]),
    ensures
        digit_prefix_len(d + rest) == d.len(),
    decreases d.len(),
{
    if d.len() == 0 {
        assert(d + rest =~= rest);
        if rest.len() > 0 {
            assert(digit_prefix_len(rest) == 0);
        }
    } else {
        assert((d + rest).skip(1) =~= d.skip(1) + rest);
        lemma_digit_prefix_of_append(d.skip(1), rest);
    }
}

/// Parses a decimal number: the longest digit prefix, whose value must
/// fit in a `u64`. Returns the value and the remaining input.
pub open spec fn parse_dec(s: Seq<char>) -> Option<(nat, Seq<char>)> {
    let k = digit_prefix_len(s) as int;
    if k == 0 {
        None
    } else if val_digits(s.take(k)) > u64::MAX {
        None
    } else {
        Some((val_digits(s.take(k)), s.skip(k)))
    }
}

/// Parsing the decimal form of `n` gives `n` back and leaves the rest.
pub proof fn lemma_parse_dec_inverts(n: nat, rest: Seq<char>)
    requires
        n <= u64::MAX,
        rest.len() == 0 || !is_digit_char(rest[0]),
    ensures
        parse_dec(dec_digits(n) + rest) == Some((n, rest)),
{
    let d = dec_digits(n);
    lemma_dec_digits(n);
    lemma_digit_prefix_of_append(d, rest);
    let s = d + rest;
    let k = digit_prefix_len(s) as int;
    assert(k == d.len());
    assert(s.take(k) =~= d);
    assert(s.skip(k) =~= rest);
}

// ---------------------------------------------------------------------
// Serialization
// ---------------------------------------------------------------------

/// A string as it stands between its quotes, closing quote included.
pub open spec fn quoted_tail(s: Seq<char>) -> Seq<char> {
    esc(s) + seq!['"']
}

/// The serialized list of messages, brackets excluded.
pub open spec fn ser_list(ms: Seq<Seq<char>>) -> Seq<char>
    decreases ms.len(),
{
    if ms.len() == 0 {
        Seq::empty()
    } else if ms.len() == 1 {
        seq!['"'] + quoted_tail(ms[0])
    } else {
        seq!['"'] + quoted_tail(ms[0]) + seq![',', ' '] + ser_list(ms.skip(1))
    }
}

/// Appending one element to a serialized list.
pub proof fn lemma_ser_list_push(ms: Seq<Seq<char>>, x: Seq<char>)
    ensures
        ms.len() == 0 ==> ser_list(ms.push(x)) == seq!['"'] + quoted_tail(x),
        ms.len() > 0 ==> ser_list(ms.push(x)) == ser_list(ms) + seq![',', ' '] + seq!['"']
            + quoted_tail(x),
    decreases ms.len(),
{
    let p = ms.push(x);
    if ms.len() == 0 {
        assert(p.len() == 1);
        assert(p[0] == x);
        assert(ser_list(p) =~= seq!['"'] + quoted_tail(x));
    } else {
        lemma_ser_list_push(ms.skip(1), x);
        assert(p.skip(1) =~= ms.skip(1).push(x));
        assert(p[0] == ms[0]);
        if ms.len() == 1 {
            assert(ms.skip(1).len() == 0);
            assert(ser_list(p) == seq!['"'] + quoted_tail(p[0]) + seq![',', ' ']
                + ser_list(p.skip(1)));
            assert(ser_list(p) =~= ser_list(ms) + seq![',', ' '] + seq!['"'] + quoted_tail(x));
        } else {
            assert(ser_list(p) =~= ser_list(ms) + seq![',', ' '] + seq!['"'] + quoted_tail(x));
        }
    }
}

pub open spec fn lit_motds() -> Seq<char> {
    "motds = ["@
}

pub open spec fn lit_likes() -> Seq<char> {
    "\nlikes = \""@
}

pub open spec fn lit_working_on() -> Seq<char> {
    "\nworking_on = \""@
}

pub open spec fn lit_current_motd() -> Seq<char> {
    "\ncurrent_motd = "@
}

pub open spec fn lit_last_update() -> Seq<char> {
    "\nlast_motd_update = "@
}

pub open spec fn lit_newline() -> Seq<char> {
    "\n"@
}

pub open spec fn lit_password() -> Seq<char> {
    "admin_password = \""@
}

pub open spec fn lit_port() -> Seq<char> {
    "\nport = "@
}

/// The serialized text of a message record.
pub open spec fn spec_ser_messages(m: MessagesView) -> Seq<char> {
    lit_motds() + ser_list(m.motds) + seq![']'] + lit_likes() + quoted_tail(m.likes)
        + lit_working_on() + quoted_tail(m.working_on) + lit_current_motd() + dec_digits(
        m.current_motd as nat,
    ) + lit_last_update() + dec_digits(m.last_motd_update as nat) + lit_newline()
}

// ---------------------------------------------------------------------
// The parsing grammar
// ---------------------------------------------------------------------

/// Consumes an expected literal prefix of the input.
pub open spec fn eat(s: Seq<char>, lit: Seq<char>) -> Option<Seq<char>> {
    if lit.is_prefix_of(s) {
        Some(s.skip(lit.len() as int))
    } else {
        None
    }
}

/// Eating a literal off itself leaves the rest.
pub proof fn lemma_eat_inverts(lit: Seq<char>, rest: Seq<char>)
    ensures
        eat(lit + rest, lit) == Some(rest),
{
    let s = lit + rest;
    assert(lit =~= s.subrange(0, lit.len() as int));
    assert(s.skip(lit.len() as int) =~= rest);
}

/// Parses the inside of a quoted string up to and including the closing
/// quote, undoing the escapes. Returns the string and the remaining input.
pub open spec fn parse_string_body(s: Seq<char>) -> Option<(Seq<char>, Seq<char>)>
    decreases s.len(),
{
    if s.len() == 0 {
        None
    } else if s[0] == '"' {
        Some((Seq::empty(), s.skip(1)))
    } else if s[0] == '\\' {
        if s.len() < 2 {
            None
        } else {
            match unesc_char(s[1]) {
                Option::None => None,
                Option::Some(c) => match parse_string_body(s.skip(2)) {
                    Option::None => None,
                    Option::Some(p) => Some((seq![c] + p.0, p.1)),
                },
            }
        }
    } else {
        match parse_string_body(s.skip(1)) {
            Option::None => None,
            Option::Some(p) => Some((seq![s[0]] + p.0, p.1)),
        }
    }
}

/// A parsed string body consumes at least its closing quote.
pub proof fn lemma_psb_shrinks(s: Seq<char>)
    ensures
        match parse_string_body(s) {
            Option::Some(p) => p.1.len() < s.len(),
            Option::None => true,
        },
    decreases s.len(),
{
    if s.len() == 0 {
    } else if s[0] == '"' {
    } else if s[0] == '\\' {
        if s.len() >= 2 {
            lemma_psb_shrinks(s.skip(2));
        }
    } else {
        lemma_psb_shrinks(s.skip(1));
    }
}

/// Parsing an escaped string followed by its closing quote gives the
/// string back.
pub proof fn lemma_psb_inverts(v: Seq<char>, rest: Seq<char>)
    ensures
        parse_string_body(quoted_tail(v) + rest) == Some((v, rest)),
    decreases v.len(),
{
    let s = quoted_tail(v) + rest;
    if v.len() == 0 {
        assert(esc(v) =~= Seq::<char>::empty());
        assert(s =~= seq!['"'] + rest);
        assert(s[0] == '"');
        assert(s.skip(1) =~= rest);
        assert(Seq::<char>::empty() =~= v);
    } else {
        let c = v[0];
        let e = esc_char(c);
        let tail = esc(v.skip(1)) + seq!['"'] + rest;
        assert(esc(v) == e + esc(v.skip(1)));
        assert(s =~= e + tail);
        assert(quoted_tail(v.skip(1)) + rest =~= tail);
        lemma_psb_inverts(v.skip(1), rest);
        if c == '\\' || c == '"' || c == '\n' || c == '\r' || c == '\t' {
            assert(e.len() == 2);
            assert(s[0] == e[0] && s[1] == e[1]);
            assert(e[0] == '\\');
            assert(unesc_char(e[1]) == Some(c));
            assert(s.skip(2) =~= tail);
            assert(parse_string_body(s) == Some((seq![c] + v.skip(1), rest)));
            assert(seq![c] + v.skip(1) =~= v);
        } else {
            assert(e =~= seq![c]);
            assert(s[0] == c);
            assert(c != '"' && c != '\\');
            assert(s.skip(1) =~= tail);
            assert(parse_string_body(s) == Some((seq![c] + v.skip(1), rest)));
            assert(seq![c] + v.skip(1) =~= v);
        }
    }
}

/// Parses the list of quoted strings up to and including the closing
/// bracket. Returns the strings and the remaining input.
pub open spec fn parse_list(s: Seq<char>) -> Option<(Seq<Seq<char>>, Seq<char>)>
    decreases s.len(),
    via parse_list_decreases
{
    if s.len() == 0 {
        None
    } else if s[0] == ']' {
        Some((Seq::empty(), s.skip(1)))
    } else if s[0] == '"' {
        match parse_string_body(s.skip(1)) {
            Option::None => None,
            Option::Some(p) => {
                if p.1.len() == 0 {
                    None
                } else if p.1[0] == ']' {
                    Some((seq![p.0], p.1.skip(1)))
                } else if p.1.len() >= 2 && p.1[0] == ',' && p.1[1] == ' ' {
                    match parse_list(p.1.skip(2)) {
                        Option::None => None,
                        Option::Some(q) => Some((seq![p.0] + q.0, q.1)),
                    }
                } else {
                    None
                }
            },
        }
    } else {
        None
    }
}

#[via_fn]
proof fn parse_list_decreases(s: Seq<char>) {
    if s.len() > 0 && s[0] != ']' && s[0] == '"' {
        lemma_psb_shrinks(s.skip(1));
    }
}

/// Parsing a serialized list followed by its closing bracket gives the
/// list back.
pub proof fn lemma_parse_list_inverts(ms: Seq<Seq<char>>, rest: Seq<char>)
    ensures
        parse_list(ser_list(ms) + seq![']'] + rest) == Some((ms, rest)),
    decreases ms.len(),
{
    let s = ser_list(ms) + seq![']'] + rest;
    if ms.len() == 0 {
        assert(s =~= seq![']'] + rest);
        assert(s[0] == ']');
        assert(s.skip(1) =~= rest);
        assert(Seq::<Seq<char>>::empty() =~= ms);
    } else if ms.len() == 1 {
        let r1 = seq![']'] + rest;
        assert(s =~= seq!['"'] + (quoted_tail(ms[0]) + r1));
        assert(s[0] == '"');
        assert(s.skip(1) =~= quoted_tail(ms[0]) + r1);
        lemma_psb_inverts(ms[0], r1);
        assert(r1[0] == ']');
        assert(r1.skip(1) =~= rest);
        assert(seq![ms[0]] =~= ms);
    } else {
        let inner = ser_list(ms.skip(1)) + seq![']'] + rest;
        let r1 = seq![',', ' '] + inner;
        assert(s =~= seq!['"'] + (quoted_tail(ms[0]) + r1));
        assert(s[0] == '"');
        assert(s.skip(1) =~= quoted_tail(ms[0]) + r1);
        lemma_psb_inverts(ms[0], r1);
        assert(r1[0] == ',' && r1[1] == ' ');
        assert(r1.len() >= 2);
        assert(r1.skip(2) =~= inner);
        lemma_parse_list_inverts(ms.skip(1), rest);
        assert(parse_list(s) == Some((seq![ms[0]] + ms.skip(1), rest)));
        assert(seq![ms[0]] + ms.skip(1) =~= ms);
    }
}

/// Parses the stored text of a message record.
pub open spec fn spec_parse_messages(s: Seq<char>) -> Option<MessagesView> {
    match eat(s, lit_motds()) {
        Option::None => None,
        Option::Some(s1) => match parse_list(s1) {
            Option::None => None,
            Option::Some(p1) => match eat(p1.1, lit_likes()) {
                Option::None => None,
                Option::Some(s2) => match parse_string_body(s2) {
                    Option::None => None,
                    Option::Some(p2) => match eat(p2.1, lit_working_on()) {
                        Option::None => None,
                        Option::Some(s3) => match parse_string_body(s3) {
                            Option::None => None,
                            Option::Some(p3) => match eat(p3.1, lit_current_motd()) {
                                Option::None => None,
                                Option::Some(s4) => match parse_dec(s4) {
                                    Option::None => None,
                                    Option::Some(p4) => if p4.0 > usize::MAX {
                                        None
                                    } else {
                                        match eat(p4.1, lit_last_update()) {
                                            Option::None => None,
                                            Option::Some(s5) => match parse_dec(s5) {
                                                Option::None => None,
                                                Option::Some(p5) => match eat(
                                                    p5.1,
                                                    lit_newline(),
                                                ) {
                                                    Option::None => None,
                                                    Option::Some(s6) => if s6.len() == 0 {
                                                        Some(
                                                            MessagesView {
                                                                motds: p1.0,
                                                                likes: p2.0,
                                                                working_on: p3.0,
                                                                current_motd: p4.0 as int,
                                                                last_motd_update: p5.0 as int,
                                                            },
                                                        )
                                                    } else {
                                                        None
                                                    },
                                                },
                                            },
                                        }
                                    },
                                },
                            },
                        },
                    },
                },
            },
        },
    }
}

/// Parses the stored text of a settings record.
pub open spec fn spec_parse_config(s: Seq<char>) -> Option<ConfigView> {
    match eat(s, lit_password()) {
        Option::None => None,
        Option::Some(s1) => match parse_string_body(s1) {
            Option::None => None,
            Option::Some(p1) => match eat(p1.1, lit_port()) {
                Option::None => None,
                Option::Some(s2) => match parse_dec(s2) {
                    Option::None => None,
                    Option::Some(p2) => if p2.0 > u16::MAX {
                        None
                    } else {
                        match eat(p2.1, lit_newline()) {
                            Option::None => None,
                            Option::Some(s3) => if s3.len() == 0 {
                                Some(ConfigView { admin_password: p1.0, port: p2.0 as int })
                            } else {
                                None
                            },
                        }
                    },
                },
            },
        },
    }
}

/// Round trip: parsing the serialized text of any record gives the
/// record back.
#[verifier::rlimit(50)]
pub proof fn lemma_messages_round_trip(m: MessagesView)
    requires
        m.in_bounds(),
    ensures
        spec_parse_messages(spec_ser_messages(m)) == Some(m),
{
    reveal_strlit("\nlast_motd_update = ");
    reveal_strlit("\n");
    let cm = m.current_motd as nat;
    let lu = m.last_motd_update as nat;
    let s_end = lit_newline();
    let s5 = dec_digits(lu) + s_end;
    let s4b = lit_last_update() + s5;
    let s4 = dec_digits(cm) + s4b;
    let s3b = lit_current_motd() + s4;
    let s3 = quoted_tail(m.working_on) + s3b;
    let s2b = lit_working_on() + s3;
    let s2 = quoted_tail(m.likes) + s2b;
    let s1b = lit_likes() + s2;
    let s1 = ser_list(m.motds) + seq![']'] + s1b;
    let s0 = lit_motds() + s1;
    assert(spec_ser_messages(m) =~= s0);
    lemma_eat_inverts(lit_motds(), s1);
    lemma_parse_list_inverts(m.motds, s1b);
    lemma_eat_inverts(lit_likes(), s2);
    lemma_psb_inverts(m.likes, s2b);
    lemma_eat_inverts(lit_working_on(), s3);
    lemma_psb_inverts(m.working_on, s3b);
    lemma_eat_inverts(lit_current_motd(), s4);
    assert(s4b[0] == '\n');
    assert(!is_digit_char('\n'));
    assert(cm <= u64::MAX);
    lemma_parse_dec_inverts(cm, s4b);
    lemma_eat_inverts(lit_last_update(), s5);
    assert(s_end[0] == '\n');
    lemma_parse_dec_inverts(lu, s_end);
    assert(s_end =~= lit_newline() + Seq::<char>::empty());
    lemma_eat_inverts(lit_newline(), Seq::empty());
    assert(spec_parse_messages(s0) == Some(
        MessagesView {
            motds: m.motds,
            likes: m.likes,
            working_on: m.working_on,
            current_motd: cm as int,
            last_motd_update: lu as int,
        },
    ));
    assert(MessagesView {
        motds: m.motds,
        likes: m.likes,
        working_on: m.working_on,
        current_motd: cm as int,
        last_motd_update: lu as int,
    } =~= m);
}

/// Round trip for every executable record: the text a save writes
/// parses back to an equal record, whatever the record holds.
pub proof fn lemma_record_round_trip(m: &Messages)
    ensures
        spec_parse_messages(spec_ser_messages(m@)) == Some(m@),
{
    m.lemma_in_bounds();
    lemma_messages_round_trip(m@);
}

// ---------------------------------------------------------------------
// Executable serializer
// ---------------------------------------------------------------------

/// The characters of a string, in order.
fn str_to_chars(s: &str) -> (r: Vec<char>)
    ensures
        r@ == s@,
{
    let n = s.unicode_len();
    let mut r: Vec<char> = Vec::new();
    let mut i: usize = 0;
    while i < n
        invariant
            n == s@.len(),
            i <= n,
            r@ == s@.take(i as int),
        decreases n - i,
    {
        r.push(s.get_char(i));
        i = i + 1;
        assert(r@ =~= s@.take(i as int));
    }
    assert(r@ =~= s@);
    r
}

/// Relies on `String: FromIterator<char>`: collecting characters yields
/// the string with exactly those characters.
#[verifier::external_body]
pub(crate) fn chars_to_string(v: &Vec<char>) -> (r: String)
    ensures
        r@ == v@,
{
    v.iter().collect()
}

/// Appends the characters of a literal to the output.
pub(crate) fn append_lit(out: &mut Vec<char>, lit: &str)
    ensures
        final(out)@ == old(out)@ + lit@,
{
    let n = lit.unicode_len();
    let mut i: usize = 0;
    while i < n
        invariant
            n == lit@.len(),
            i <= n,
            out@ == old(out)@ + lit@.take(i as int),
        decreases n - i,
    {
        let c = lit.get_char(i);
        out.push(c);
        i = i + 1;
        assert(out@ =~= old(out)@ + lit@.take(i as int));
    }
    assert(out@ =~= old(out)@ + lit@);
}

/// Appends the escaped form of one character.
fn append_esc_char(out: &mut Vec<char>, c: char)
    ensures
        final(out)@ == old(out)@ + esc_char(c),
{
    if c == '\\' {
        out.push('\\');
        out.push('\\');
    } else if c == '"' {
        out.push('\\');
        out.push('"');
    } else if c == '\n' {
        out.push('\\');
        out.push('n');
    } else if c == '\r' {
        out.push('\\');
        out.push('r');
    } else if c == '\t' {
        out.push('\\');
        out.push('t');
    } else {
        out.push(c);
    }
    assert(out@ =~= old(out)@ + esc_char(c));
}

/// Appends the escaped form of a string.
fn append_esc(out: &mut Vec<char>, s: &str)
    ensures
        final(out)@ == old(out)@ + esc(s@),
{
    let n = s.unicode_len();
    let mut i: usize = 0;
    while i < n
        invariant
            n == s@.len(),
            i <= n,
            out@ == old(out)@ + esc(s@.take(i as int)),
        decreases n - i,
    {
        let c = s.get_char(i);
        append_esc_char(out, c);
        i = i + 1;
        proof {
            lemma_esc_append(s@.take(i - 1), seq![s@[i - 1]]);
            lemma_esc_single(s@[i - 1]);
            assert(s@.take(i as int) =~= s@.take(i - 1) + seq![s@[i - 1]]);
            assert(out@ =~= old(out)@ + esc(s@.take(i as int)));
        }
    }
    assert(s@.take(n as int) =~= s@);
}

/// The character for a digit value below ten.
fn digit_to_char(d: u64) -> (c: char)
    requires
        d < 10,
    ensures
        c == digit_char(d as nat),
{
    if d == 0 {
        '0'
    } else if d == 1 {
        '1'
    } else if d == 2 {
        '2'
    } else if d == 3 {
        '3'
    } else if d == 4 {
        '4'
    } else if d == 5 {
        '5'
    } else if d == 6 {
        '6'
    } else if d == 7 {
        '7'
    } else if d == 8 {
        '8'
    } else {
        '9'
    }
}

/// Appends the decimal form of `n`.
pub(crate) fn append_dec(out: &mut Vec<char>, n: u64)
    ensures
        final(out)@ == old(out)@ + dec_digits(n as nat),
    decreases n,
{
    if n < 10 {
        let c = digit_to_char(n);
        out.push(c);
        assert(out@ =~= old(out)@ + dec_digits(n as nat));
    } else {
        append_dec(out, n / 10);
        let c = digit_to_char(n % 10);
        out.push(c);
        assert(out@ =~= old(out)@ + dec_digits(n as nat));
    }
}

/// Appends a quoted string: its escaped characters and the closing quote.
fn append_quoted_tail(out: &mut Vec<char>, s: &str)
    ensures
        final(out)@ == old(out)@ + quoted_tail(s@),
{
    append_esc(out, s);
    out.push('"');
    assert(out@ =~= old(out)@ + quoted_tail(s@));
}

/// Appends the serialized message list, brackets excluded.
fn append_list(out: &mut Vec<char>, ms: &Vec<String>)
    ensures
        final(out)@ == old(out)@ + ser_list(ms@.map_values(|s: String| s@)),
{
    let ghost msv = ms@.map_values(|s: String| s@);
    let n = ms.len();
    let mut i: usize = 0;
    while i < n
        invariant
            n == ms.len(),
            i <= n,
            msv == ms@.map_values(|s: String| s@),
            out@ == old(out)@ + ser_list(msv.take(i as int)),
        decreases n - i,
    {
        if i > 0 {
            append_lit(out, ", ");
        }
        out.push('"');
        append_quoted_tail(out, ms[i].as_str());
        proof {
            reveal_strlit(", ");
            assert(msv.take(i + 1) =~= msv.take(i as int).push(msv[i as int]));
            lemma_ser_list_push(msv.take(i as int), msv[i as int]);
            assert(msv[i as int] == ms[i as int]@);
            if i == 0 {
                assert(out@ =~= old(out)@ + ser_list(msv.take(i + 1)));
            } else {
                assert(out@ =~= old(out)@ + ser_list(msv.take(i + 1)));
            }
        }
        i = i + 1;
    }
    assert(msv.take(n as int) =~= msv);
}

/// Serializes a message record to its stored text.
pub fn serialize_messages(m: &Messages) -> (r: String)
    ensures
        r@ == spec_ser_messages(m@),
{
    let mut out: Vec<char> = Vec::new();
    append_lit(&mut out, "motds = [");
    append_list(&mut out, &m.motds);
    out.push(']');
    append_lit(&mut out, "\nlikes = \"");
    append_quoted_tail(&mut out, m.likes.as_str());
    append_lit(&mut out, "\nworking_on = \"");
    append_quoted_tail(&mut out, m.working_on.as_str());
    append_lit(&mut out, "\ncurrent_motd = ");
    append_dec(&mut out, m.current_motd as u64);
    append_lit(&mut out, "\nlast_motd_update = ");
    append_dec(&mut out, m.last_motd_update);
    append_lit(&mut out, "\n");
    assert(out@ =~= spec_ser_messages(m@));
    chars_to_string(&out)
}

// ---------------------------------------------------------------------
// Executable parser
// ---------------------------------------------------------------------

/// Consumes the expected literal at `pos`, reporting the position after it.
fn eat_lit(s: &Vec<char>, pos: usize, lit: &str) -> (r: Option<usize>)
    requires
        pos <= s@.len(),
    ensures
        match r {
            Option::Some(p) => pos <= p <= s@.len() && eat(s@.skip(pos as int), lit@) == Some(
                s@.skip(p as int),
            ),
            Option::None => eat(s@.skip(pos as int), lit@) is None,
        },
{
    let n = lit.unicode_len();
    let slen = s.len();
    if n > slen - pos {
        assert(!lit@.is_prefix_of(s@.skip(pos as int)));
        return None;
    }
    let mut i: usize = 0;
    while i < n
        invariant
            slen == s@.len(),
            pos + n <= slen,
            n == lit@.len(),
            i <= n,
            forall|j: int| 0 <= j < i ==> lit@[j] == s@[pos + j],
        decreases n - i,
    {
        let c = s[pos + i];
        let l = lit.get_char(i);
        if c != l {
            proof {
                let rem = s@.skip(pos as int);
                if lit@.is_prefix_of(rem) {
                    assert(lit@[i as int] == rem.subrange(0, n as int)[i as int]);
                    assert(rem[i as int] == s@[pos + i]);
                }
            }
            return None;
        }
        i = i + 1;
    }
    proof {
        let rem = s@.skip(pos as int);
        assert forall|j: int| 0 <= j < n implies lit@[j] == rem.subrange(0, n as int)[j] by {
            assert(rem[j] == s@[pos + j]);
        }
        assert(lit@ =~= rem.subrange(0, n as int));
        assert(rem.skip(n as int) =~= s@.skip((pos + n) as int));
    }
    Some(pos + n)
}

/// Parses a quoted string's characters at `pos`, the opening quote
/// already consumed, up to and including the closing quote.
fn parse_string_body_exec(s: &Vec<char>, pos: usize) -> (r: Option<(Vec<char>, usize)>)
    requires
        pos <= s@.len(),
    ensures
        match r {
            Option::Some(p) => pos < p.1 <= s@.len() && parse_string_body(s@.skip(pos as int))
                == Some((p.0@, s@.skip(p.1 as int))),
            Option::None => parse_string_body(s@.skip(pos as int)) is None,
        },
    decreases s@.len() - pos,
{
    let ghost rem = s@.skip(pos as int);
    if pos == s.len() {
        return None;
    }
    let c = s[pos];
    assert(rem[0] == c);
    if c == '"' {
        assert(rem.skip(1) =~= s@.skip(pos + 1));
        let empty: Vec<char> = Vec::new();
        Some((empty, pos + 1))
    } else if c == '\\' {
        if pos + 1 == s.len() {
            assert(rem.len() < 2);
            return None;
        }
        let e = s[pos + 1];
        assert(rem[1] == e);
        let u: char;
        if e == '\\' {
            u = '\\';
        } else if e == '"' {
            u = '"';
        } else if e == 'n' {
            u = '\n';
        } else if e == 'r' {
            u = '\r';
        } else if e == 't' {
            u = '\t';
        } else {
            assert(unesc_char(rem[1]) is None);
            return None;
        }
        assert(unesc_char(rem[1]) == Some(u));
        assert(rem.skip(2) =~= s@.skip(pos + 2));
        match parse_string_body_exec(s, pos + 2) {
            Option::None => None,
            Option::Some((mut v, p)) => {
                let ghost v0 = v@;
                v.insert(0, u);
                assert(v@ =~= seq![u] + v0);
                Some((v, p))
            },
        }
    } else {
        assert(rem.skip(1) =~= s@.skip(pos + 1));
        match parse_string_body_exec(s, pos + 1) {
            Option::None => None,
            Option::Some((mut v, p)) => {
                let ghost v0 = v@;
                v.insert(0, c);
                assert(v@ =~= seq![c] + v0);
                Some((v, p))
            },
        }
    }
}

/// Is `c` a decimal digit? Mirrors the grammar's notion.
fn is_digit_exec(c: char) -> (r: bool)
    ensures
        r == is_digit_char(c),
{
    let x = c as u32;
    48 <= x && x <= 57
}

/// Parses a decimal number at `pos`: the longest run of digits, whose
/// value must fit in a `u64`.
fn parse_dec_exec(s: &Vec<char>, pos: usize) -> (r: Option<(u64, usize)>)
    requires
        pos <= s@.len(),
    ensures
        match r {
            Option::Some(p) => pos <= p.1 <= s@.len() && parse_dec(s@.skip(pos as int)) == Some(
                (p.0 as nat, s@.skip(p.1 as int)),
            ),
            Option::None => parse_dec(s@.skip(pos as int)) is None,
        },
{
    let ghost rem = s@.skip(pos as int);
    let mut cur: usize = pos;
    while cur < s.len() && is_digit_exec(s[cur])
        invariant
            pos <= cur <= s@.len(),
            rem == s@.skip(pos as int),
            digit_prefix_len(rem) == cur - pos + digit_prefix_len(s@.skip(cur as int)),
            forall|j: int| pos <= j < cur ==> is_digit_char(#[trigger] s@[j]),
        decreases s@.len() - cur,
    {
        proof {
            let t = s@.skip(cur as int);
            assert(t[0] == s@[cur as int]);
            assert(t.skip(1) =~= s@.skip(cur + 1));
        }
        cur = cur + 1;
    }
    proof {
        if cur < s@.len() {
            assert(s@.skip(cur as int)[0] == s@[cur as int]);
            assert(digit_prefix_len(s@.skip(cur as int)) == 0);
        } else {
            assert(s@.skip(cur as int).len() == 0);
        }
        assert(digit_prefix_len(rem) == cur - pos);
    }
    if cur == pos {
        return None;
    }
    let ghost k = (cur - pos) as int;
    let ghost dfull = rem.take(k);
    proof {
        assert forall|j: int| 0 <= j < k implies is_digit_char(#[trigger] dfull[j]) by {
            assert(dfull[j] == s@[pos + j]);
        }
    }
    let mut acc: u64 = 0;
    let mut i: usize = pos;
    while i < cur
        invariant
            pos <= i <= cur <= s@.len(),
            rem == s@.skip(pos as int),
            k == cur - pos,
            dfull == rem.take(k),
            digit_prefix_len(rem) == k,
            forall|j: int| pos <= j < cur ==> is_digit_char(#[trigger] s@[j]),
            acc as nat == val_digits(rem.take(i - pos)),
        decreases cur - i,
    {
        let c = s[i];
        let d: u64 = (c as u32 - 48) as u64;
        proof {
            assert(is_digit_char(s@[i as int]));
            assert(d as nat == digit_val(c));
            let t0 = rem.take(i - pos);
            let t1 = rem.take(i + 1 - pos);
            assert(t1.drop_last() =~= t0);
            assert(t1.last() == rem[i - pos]);
            assert(rem[i - pos] == s@[i as int]);
            assert(val_digits(t1) == val_digits(t0) * 10 + digit_val(c));
        }
        if acc > (u64::MAX - d) / 10 {
            proof {
                let t1 = rem.take(i + 1 - pos);
                let m = (u64::MAX - d) as int;
                vstd::arithmetic::div_mod::lemma_fundamental_div_mod(m, 10);
                assert(acc as int * 10 >= (m / 10 + 1) * 10) by (nonlinear_arith)
                    requires acc as int >= m / 10 + 1;
                assert(val_digits(t1) > u64::MAX);
                assert(dfull.take(i + 1 - pos) =~= t1);
                lemma_val_prefix_le(dfull, i + 1 - pos);
                assert(val_digits(dfull) > u64::MAX);
            }
            return None;
        }
        proof {
            let m = (u64::MAX - d) as int;
            vstd::arithmetic::div_mod::lemma_fundamental_div_mod(m, 10);
            assert(acc as int * 10 <= (m / 10) * 10) by (nonlinear_arith)
                requires acc as int <= m / 10;
        }
        acc = acc * 10 + d;
        i = i + 1;
    }
    proof {
        assert(rem.take(i - pos) == dfull);
        assert(rem.skip(k) =~= s@.skip(cur as int));
    }
    Some((acc, cur))
}

/// Parses the list of quoted strings at `pos`, the opening bracket
/// already consumed, up to and including the closing bracket.
fn parse_list_exec(s: &Vec<char>, pos: usize) -> (r: Option<(Vec<String>, usize)>)
    requires
        pos <= s@.len(),
    ensures
        match r {
            Option::Some(p) => pos < p.1 <= s@.len() && parse_list(s@.skip(pos as int)) == Some(
                (p.0@.map_values(|x: String| x@), s@.skip(p.1 as int)),
            ),
            Option::None => parse_list(s@.skip(pos as int)) is None,
        },
    decreases s@.len() - pos,
{
    let ghost rem = s@.skip(pos as int);
    if pos == s.len() {
        return None;
    }
    let c = s[pos];
    assert(rem[0] == c);
    if c == ']' {
        assert(rem.skip(1) =~= s@.skip(pos + 1));
        let empty: Vec<String> = Vec::new();
        assert(empty@.map_values(|x: String| x@) =~= Seq::<Seq<char>>::empty());
        Some((empty, pos + 1))
    } else if c == '"' {
        assert(rem.skip(1) =~= s@.skip(pos + 1));
        match parse_string_body_exec(s, pos + 1) {
            Option::None => None,
            Option::Some((v, p2)) => {
                let elem = chars_to_string(&v);
                let ghost prest = s@.skip(p2 as int);
                if p2 == s.len() {
                    assert(prest.len() == 0);
                    return None;
                }
                let c2 = s[p2];
                assert(prest[0] == c2);
                if c2 == ']' {
                    assert(prest.skip(1) =~= s@.skip(p2 + 1));
                    let mut vs: Vec<String> = Vec::new();
                    vs.push(elem);
                    assert(vs@.map_values(|x: String| x@) =~= seq![v@]);
                    Some((vs, p2 + 1))
                } else if c2 == ',' {
                    if p2 + 1 == s.len() {
                        assert(prest.len() == 1);
                        return None;
                    }
                    let c3 = s[p2 + 1];
                    assert(prest[1] == c3);
                    if c3 == ' ' {
                        assert(prest.skip(2) =~= s@.skip(p2 + 2));
                        match parse_list_exec(s, p2 + 2) {
                            Option::None => None,
                            Option::Some((mut vs, pend)) => {
                                let ghost vs0 = vs@;
                                vs.insert(0, elem);
                                proof {
                                    let f = |x: String| x@;
                                    assert(vs@ == vs0.insert(0, elem));
                                    assert(vs@.map_values(f) =~= seq![v@] + vs0.map_values(f));
                                }
                                Some((vs, pend))
                            },
                        }
                    } else {
                        None
                    }
                } else {
                    None
                }
            },
        }
    } else {
        None
    }
}

/// Parses the stored text of a message record; a text that does not
/// match the grammar is rejected as a parse error.
pub fn parse_messages(text: &str) -> (r: Result<Messages, StoreError>)
    ensures
        match r {
            Ok(m) => spec_parse_messages(text@) == Some(m@),
            Err(e) => spec_parse_messages(text@) is None && e == StoreError::ParseError,
        },
{
    let s = str_to_chars(text);
    assert(s@.skip(0) =~= text@);
    let p1 = match eat_lit(&s, 0, "motds = [") {
        Option::Some(p) => p,
        Option::None => {
            return Err(StoreError::ParseError);
        },
    };
    let (motds, p2) = match parse_list_exec(&s, p1) {
        Option::Some(p) => p,
        Option::None => {
            return Err(StoreError::ParseError);
        },
    };
    let p3 = match eat_lit(&s, p2, "\nlikes = \"") {
        Option::Some(p) => p,
        Option::None => {
            return Err(StoreError::ParseError);
        },
    };
    let (likes, p4) = match parse_string_body_exec(&s, p3) {
        Option::Some(p) => p,
        Option::None => {
            return Err(StoreError::ParseError);
        },
    };
    let p5 = match eat_lit(&s, p4, "\nworking_on = \"") {
        Option::Some(p) => p,
        Option::None => {
            return Err(StoreError::ParseError);
        },
    };
    let (working_on, p6) = match parse_string_body_exec(&s, p5) {
        Option::Some(p) => p,
        Option::None => {
            return Err(StoreError::ParseError);
        },
    };
    let p7 = match eat_lit(&s, p6, "\ncurrent_motd = ") {
        Option::Some(p) => p,
        Option::None => {
            return Err(StoreError::ParseError);
        },
    };
    let (cm, p8) = match parse_dec_exec(&s, p7) {
        Option::Some(p) => p,
        Option::None => {
            return Err(StoreError::ParseError);
        },
    };
    if cm > usize::MAX as u64 {
        return Err(StoreError::ParseError);
    }
    let p9 = match eat_lit(&s, p8, "\nlast_motd_update = ") {
        Option::Some(p) => p,
        Option::None => {
            return Err(StoreError::ParseError);
        },
    };
    let (lu, p10) = match parse_dec_exec(&s, p9) {
        Option::Some(p) => p,
        Option::None => {
            return Err(StoreError::ParseError);
        },
    };
    let p11 = match eat_lit(&s, p10, "\n") {
        Option::Some(p) => p,
        Option::None => {
            return Err(StoreError::ParseError);
        },
    };
    if p11 != s.len() {
        assert(s@.skip(p11 as int).len() != 0);
        return Err(StoreError::ParseError);
    }
    assert(s@.skip(p11 as int).len() == 0);
    let m = Messages {
        motds,
        likes: chars_to_string(&likes),
        working_on: chars_to_string(&working_on),
        current_motd: cm as usize,
        last_motd_update: lu,
    };
    assert(spec_parse_messages(text@) == Some(m@)) by {
        let parsed = spec_parse_messages(text@).unwrap();
        assert(parsed =~= m@);
    }
    Ok(m)
}

/// Parses the stored text of a settings record; a text that does not
/// match the grammar is rejected as a parse error.
pub fn parse_config(text: &str) -> (r: Result<Config, StoreError>)
    ensures
        match r {
            Ok(c) => spec_parse_config(text@) == Some(c@),
            Err(e) => spec_parse_config(text@) is None && e == StoreError::ParseError,
        },
{
    let s = str_to_chars(text);
    assert(s@.skip(0) =~= text@);
    let p1 = match eat_lit(&s, 0, "admin_password = \"") {
        Option::Some(p) => p,
        Option::None => {
            return Err(StoreError::ParseError);
        },
    };
    let (pw, p2) = match parse_string_body_exec(&s, p1) {
        Option::Some(p) => p,
        Option::None => {
            return Err(StoreError::ParseError);
        },
    };
    let p3 = match eat_lit(&s, p2, "\nport = ") {
        Option::Some(p) => p,
        Option::None => {
            return Err(StoreError::ParseError);
        },
    };
    let (port, p4) = match parse_dec_exec(&s, p3) {
        Option::Some(p) => p,
        Option::None => {
            return Err(StoreError::ParseError);
        },
    };
    if port > 65535 {
        return Err(StoreError::ParseError);
    }
    let p5 = match eat_lit(&s, p4, "\n") {
        Option::Some(p) => p,
        Option::None => {
            return Err(StoreError::ParseError);
        },
    };
    if p5 != s.len() {
        assert(s@.skip(p5 as int).len() != 0);
        return Err(StoreError::ParseError);
    }
    assert(s@.skip(p5 as int).len() == 0);
    let c = Config { admin_password: chars_to_string(&pw), port: port as u16 };
    assert(spec_parse_config(text@) == Some(c@)) by {
        let parsed = spec_parse_config(text@).unwrap();
        assert(parsed =~= c@);
    }
    Ok(c)
}

} // verus!
