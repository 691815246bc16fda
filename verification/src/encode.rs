//! The exact JSON wire shape of streams and of the push envelope.
//!
//! A stream serializes as an object of two mandatory fields: the label
//! mapping as a flat string-to-string object, and the entries as two-element
//! arrays of the timestamp's decimal digits (as a string) and the log text.
//! String contents are escaped the way the push endpoint expects JSON:
//! quote, backslash and the control characters, everything else verbatim.

use vstd::prelude::*;

use crate::stream::{Stream, StreamView, Streams};

verus! {

/// The decimal digit `d` as a character.
pub open spec fn digit_char(d: nat) -> char {
    if d == 0 {
        '0'
    } else if d == 1 {
        '1'
    } else if d == 2 {
        '2'
    } else if d == 3 {
        '3'
    } else if d == 4 {
        '4'
    } else if d == 5 {
        '5'
    } else if d == 6 {
        '6'
    } else if d == 7 {
        '7'
    } else if d == 8 {
        '8'
    } else {
        '9'
    }
}

/// The hexadecimal digit `d` as a lower-case character.
pub open spec fn hex_char(d: nat) -> char {
    if d < 10 {
        digit_char(d)
    } else if d == 10 {
        'a'
    } else if d == 11 {
        'b'
    } else if d == 12 {
        'c'
    } else if d == 13 {
        'd'
    } else if d == 14 {
        'e'
    } else {
        'f'
    }
}

/// The decimal digits of `n`, most significant first, with no sign, no
/// grouping and no padding: the exact decimal string form of `n`.
pub open spec fn dec_digits(n: nat) -> Seq<char>
    decreases n,
{
    if n < 10 {
        seq![digit_char(n)]
    } else {
        dec_digits(n / 10).push(digit_char(n % 10))
    }
}

/// The value a decimal digit character denotes; 10 marks a non-digit.
pub open spec fn digit_val(c: char) -> nat {
    if c == '0' {
        0
    } else if c == '1' {
        1
    } else if c == '2' {
        2
    } else if c == '3' {
        3
    } else if c == '4' {
        4
    } else if c == '5' {
        5
    } else if c == '6' {
        6
    } else if c == '7' {
        7
    } else if c == '8' {
        8
    } else if c == '9' {
        9
    } else {
        10
    }
}

/// The number a digit string denotes, read most significant first.
pub open spec fn dec_value(s: Seq<char>) -> nat
    decreases s.len(),
{
    if s.len() == 0 {
        0
    } else {
        dec_value(s.drop_last()) * 10 + digit_val(s.last())
    }
}

/// A rendered timestamp is its number's exact decimal form: the digits
/// denote the number itself, every character is a decimal digit, and there
/// is no padding — the leading digit is `0` only for the number zero.
pub proof fn lemma_dec_digits_value(n: nat)
    ensures
        dec_value(dec_digits(n)) == n,
        dec_digits(n).len() >= 1,
        forall|i: int| 0 <= i < dec_digits(n).len() ==> digit_val(#[trigger] dec_digits(n)[i]) < 10,
        dec_digits(n)[0] == '0' <==> n == 0,
    decreases n,
{
    if n < 10 {
        assert(dec_digits(n) == seq![digit_char(n)]);
        assert(dec_digits(n).drop_last() =~= Seq::<char>::empty());
        assert(dec_value(Seq::<char>::empty()) == 0);
        assert(dec_digits(n).last() == digit_char(n));
        assert(digit_val(digit_char(n)) == n);
        assert(dec_value(dec_digits(n)) == 0 * 10 + n);
    } else {
        lemma_dec_digits_value(n / 10);
        let d = dec_digits(n);
        assert(d == dec_digits(n / 10).push(digit_char(n % 10)));
        assert(d.drop_last() =~= dec_digits(n / 10));
        assert(d.last() == digit_char(n % 10));
        assert(digit_val(digit_char(n % 10)) == n % 10);
        assert(dec_value(d) == (n / 10) * 10 + n % 10);
        vstd::arithmetic::div_mod::lemma_fundamental_div_mod(n as int, 10);
        assert(n as int == 10 * (n as int / 10) + n as int % 10);
        assert((n / 10) * 10 + n % 10 == n);
        assert(dec_value(d) == n);
        assert(forall|i: int| 0 <= i < d.len() ==> digit_val(#[trigger] d[i]) < 10) by {
            assert(forall|i: int| 0 <= i < d.len() - 1 ==> d[i] == #[trigger] dec_digits(n / 10)[i]);
        }
        assert(d[0] == dec_digits(n / 10)[0]);
        assert(n / 10 != 0);
    }
}

/// How one character is written inside a JSON string: quote and backslash
/// get a backslash, the named control characters their short escape, the
/// remaining control characters a `\u00xx` escape, and everything else
/// stands as itself.
pub open spec fn esc_char(c: char) -> Seq<char> {
    if c == '"' {
        seq!['\\', '"']
    } else if c == '\\' {
        seq!['\\', '\\']
    } else if c == '\u{8}' {
        seq!['\\', 'b']
    } else if c == '\u{9}' {
        seq!['\\', 't']
    } else if c == '\u{a}' {
        seq!['\\', 'n']
    } else if c == '\u{c}' {
        seq!['\\', 'f']
    } else if c == '\u{d}' {
        seq!['\\', 'r']
    } else if (c as u32) < 0x20 {
        seq!['\\', 'u', '0', '0', hex_char((c as u32 / 16) as nat), hex_char((c as u32 % 16) as nat)]
    } else {
        seq![c]
    }
}

/// A whole string's contents, escaped character by character.
pub open spec fn json_escaped(s: Seq<char>) -> Seq<char>
    decreases s.len(),
{
    if s.len() == 0 {
        Seq::empty()
    } else {
        json_escaped(s.drop_last()) + esc_char(s.last())
    }
}

/// One label pair as a JSON object member.
pub open spec fn enc_label(p: (Seq<char>, Seq<char>)) -> Seq<char> {
    "\""@ + json_escaped(p.0) + "\":\""@ + json_escaped(p.1) + "\""@
}

/// The label pairs as the members of a JSON object, comma-separated, in
/// storage order.
pub open spec fn enc_labels(ls: Seq<(Seq<char>, Seq<char>)>) -> Seq<char>
    decreases ls.len(),
{
    if ls.len() == 0 {
        Seq::empty()
    } else if ls.len() == 1 {
        enc_label(ls[0])
    } else {
        enc_labels(ls.drop_last()) + ","@ + enc_label(ls.last())
    }
}

/// One entry as a two-element JSON array: the timestamp's decimal digits as
/// a string, then the escaped log text.
pub open spec fn enc_entry(e: (u128, Seq<char>)) -> Seq<char> {
    "[\""@ + dec_digits(e.0 as nat) + "\",\""@ + json_escaped(e.1) + "\"]"@
}

/// The entries as the elements of a JSON array, comma-separated, in call
/// order.
pub open spec fn enc_entries(es: Seq<(u128, Seq<char>)>) -> Seq<char>
    decreases es.len(),
{
    if es.len() == 0 {
        Seq::empty()
    } else if es.len() == 1 {
        enc_entry(es[0])
    } else {
        enc_entries(es.drop_last()) + ","@ + enc_entry(es.last())
    }
}

/// A stream's wire shape: both fields present even when empty.
pub open spec fn enc_stream(v: StreamView) -> Seq<char> {
    "{\"stream\":{"@ + enc_labels(v.labels) + "},\"values\":["@ + enc_entries(v.entries) + "]}"@
}

/// The streams of an envelope, comma-separated, in order.
pub open spec fn enc_stream_seq(vs: Seq<StreamView>) -> Seq<char>
    decreases vs.len(),
{
    if vs.len() == 0 {
        Seq::empty()
    } else if vs.len() == 1 {
        enc_stream(vs[0])
    } else {
        enc_stream_seq(vs.drop_last()) + ","@ + enc_stream(vs.last())
    }
}

/// The push envelope's wire shape.
pub open spec fn enc_streams(vs: Seq<StreamView>) -> Seq<char> {
    "{\"streams\":["@ + enc_stream_seq(vs) + "]}"@
}

/// The decimal digit `d`, written out.
fn digit_str(d: u128) -> (r: &'static str)
    requires
        d < 10,
    ensures
        r@ == seq![digit_char(d as nat)],
{
    proof {
        reveal_strlit("0");
        reveal_strlit("1");
        reveal_strlit("2");
        reveal_strlit("3");
        reveal_strlit("4");
        reveal_strlit("5");
        reveal_strlit("6");
        reveal_strlit("7");
        reveal_strlit("8");
        reveal_strlit("9");
    }
    let r: &'static str = if d == 0 {
        "0"
    } else if d == 1 {
        "1"
    } else if d == 2 {
        "2"
    } else if d == 3 {
        "3"
    } else if d == 4 {
        "4"
    } else if d == 5 {
        "5"
    } else if d == 6 {
        "6"
    } else if d == 7 {
        "7"
    } else if d == 8 {
        "8"
    } else {
        "9"
    };
    proof {
        assert(r@ =~= seq![digit_char(d as nat)]);
    }
    r
}

/// The hexadecimal digit `d`, written out in lower case.
fn hex_digit_str(d: u32) -> (r: &'static str)
    requires
        d < 16,
    ensures
        r@ == seq![hex_char(d as nat)],
{
    if d < 10 {
        let r = digit_str(d as u128);
        proof {
            assert(r@ =~= seq![hex_char(d as nat)]);
        }
        r
    } else {
        proof {
            reveal_strlit("a");
            reveal_strlit("b");
            reveal_strlit("c");
            reveal_strlit("d");
            reveal_strlit("e");
            reveal_strlit("f");
        }
        let r: &'static str = if d == 10 {
            "a"
        } else if d == 11 {
            "b"
        } else if d == 12 {
            "c"
        } else if d == 13 {
            "d"
        } else if d == 14 {
            "e"
        } else {
            "f"
        };
        proof {
            assert(r@ =~= seq![hex_char(d as nat)]);
        }
        r
    }
}

/// Appends the decimal digits of `n`.
fn append_dec(out: &mut String, n: u128)
    ensures
        final(out)@ == old(out)@ + dec_digits(n as nat),
    decreases n,
{
    let ghost pre = out@;
    if n < 10 {
        out.append(digit_str(n));
    } else {
        append_dec(out, n / 10);
        proof {
            assert((n / 10) as nat == (n as nat) / 10);
            assert((n % 10) as nat == (n as nat) % 10);
        }
        out.append(digit_str(n % 10));
        proof {
            assert(pre + dec_digits((n as nat) / 10) + seq![digit_char((n as nat) % 10)] =~= pre
                + dec_digits(n as nat));
        }
    }
}

/// Appends the escape of the character at `i`.
fn append_escaped_char(out: &mut String, s: &str, i: usize)
    requires
        i < s@.len(),
        i < usize::MAX,
    ensures
        final(out)@ == old(out)@ + esc_char(s@[i as int]),
{
    let ghost pre = out@;
    let c = s.get_char(i);
    if c == '"' {
        out.append("\\\"");
        proof {
            reveal_strlit("\\\"");
            assert(out@ =~= pre + esc_char(c));
        }
    } else if c == '\\' {
        out.append("\\\\");
        proof {
            reveal_strlit("\\\\");
            assert(out@ =~= pre + esc_char(c));
        }
    } else if c == '\u{8}' {
        out.append("\\b");
        proof {
            reveal_strlit("\\b");
            assert(out@ =~= pre + esc_char(c));
        }
    } else if c == '\t' {
        out.append("\\t");
        proof {
            reveal_strlit("\\t");
            assert(out@ =~= pre + esc_char(c));
        }
    } else if c == '\n' {
        out.append("\\n");
        proof {
            reveal_strlit("\\n");
            assert(out@ =~= pre + esc_char(c));
        }
    } else if c == '\u{c}' {
        out.append("\\f");
        proof {
            reveal_strlit("\\f");
            assert(out@ =~= pre + esc_char(c));
        }
    } else if c == '\r' {
        out.append("\\r");
        proof {
            reveal_strlit("\\r");
            assert(out@ =~= pre + esc_char(c));
        }
    } else {
        let x = c as u32;
        if x < 0x20 {
            out.append("\\u00");
            out.append(hex_digit_str(x / 16));
            out.append(hex_digit_str(x % 16));
            proof {
                reveal_strlit("\\u00");
                assert(out@ =~= pre + esc_char(c));
            }
        } else {
            let piece = s.substring_char(i, i + 1);
            out.append(piece);
            proof {
                assert(piece@ =~= seq![c]);
                assert(out@ =~= pre + esc_char(c));
            }
        }
    }
}

/// Appends the escaped contents of `s`.
fn append_escaped(out: &mut String, s: &str)
    ensures
        final(out)@ == old(out)@ + json_escaped(s@),
{
    let ghost pre = out@;
    let n = s.unicode_len();
    let mut i: usize = 0;
    while i < n
        invariant
            n == s@.len(),
            i <= n,
            out@ == pre + json_escaped(s@.take(i as int)),
        decreases n - i,
    {
        append_escaped_char(out, s, i);
        proof {
            let t = s@.take(i + 1 as int);
            assert(t.drop_last() =~= s@.take(i as int));
            assert(t.last() == s@[i as int]);
            assert(out@ =~= pre + json_escaped(t));
        }
        i += 1;
    }
    proof {
        assert(s@.take(n as int) =~= s@);
    }
}

/// Appends one label pair as an object member.
fn append_label(out: &mut String, key: &String, value: &String)
    ensures
        final(out)@ == old(out)@ + enc_label((key@, value@)),
{
    let ghost pre = out@;
    out.append("\"");
    append_escaped(out, key.as_str());
    out.append("\":\"");
    append_escaped(out, value.as_str());
    out.append("\"");
    proof {
        assert(out@ =~= pre + enc_label((key@, value@)));
    }
}

/// Appends one entry as a two-element array.
fn append_entry(out: &mut String, timestamp: u128, text: &String)
    ensures
        final(out)@ == old(out)@ + enc_entry((timestamp, text@)),
{
    let ghost pre = out@;
    out.append("[\"");
    append_dec(out, timestamp);
    out.append("\",\"");
    append_escaped(out, text.as_str());
    out.append("\"]");
    proof {
        assert(out@ =~= pre + enc_entry((timestamp, text@)));
    }
}

impl Stream {
    /// The stream's wire shape, exactly as the push endpoint expects it.
    pub fn to_json(&self) -> (r: String)
        ensures
            r@ == enc_stream(self@),
    {
        let mut out = String::new();
        out.append("{\"stream\":{");
        let ghost head = out@;
        let labels = self.labels();
        let n = labels.len();
        let mut i: usize = 0;
        while i < n
            invariant
                n == labels@.len(),
                i <= n,
                crate::stream::labels_view(labels@) == self@.labels,
                out@ == head + enc_labels(self@.labels.take(i as int)),
            decreases n - i,
        {
            if i > 0 {
                out.append(",");
            }
            let p = &labels[i];
            append_label(&mut out, &p.0, &p.1);
            proof {
                let t = self@.labels.take(i + 1 as int);
                assert(t.drop_last() =~= self@.labels.take(i as int));
                assert(t.last() == self@.labels[i as int]);
                assert(self@.labels[i as int] == (labels@[i as int].0@, labels@[i as int].1@));
                if i == 0 {
                    assert(self@.labels.take(0int) =~= Seq::<(Seq<char>, Seq<char>)>::empty());
                    assert(t =~= seq![self@.labels[0int]]);
                    assert(out@ =~= head + enc_labels(t));
                } else {
                    assert(out@ =~= head + enc_labels(t));
                }
            }
            i += 1;
        }
        proof {
            assert(self@.labels.take(n as int) =~= self@.labels);
        }
        out.append("},\"values\":[");
        let ghost mid = out@;
        let entries = self.entries();
        let m = entries.len();
        let mut j: usize = 0;
        while j < m
            invariant
                m == entries@.len(),
                j <= m,
                crate::stream::entries_view(entries@) == self@.entries,
                out@ == mid + enc_entries(self@.entries.take(j as int)),
            decreases m - j,
        {
            if j > 0 {
                out.append(",");
            }
            let e = &entries[j];
            append_entry(&mut out, e.0, &e.1);
            proof {
                let t = self@.entries.take(j + 1 as int);
                assert(t.drop_last() =~= self@.entries.take(j as int));
                assert(t.last() == self@.entries[j as int]);
                assert(self@.entries[j as int] == (entries@[j as int].0, entries@[j as int].1@));
                if j == 0 {
                    assert(self@.entries.take(0int) =~= Seq::<(u128, Seq<char>)>::empty());
                    assert(t =~= seq![self@.entries[0int]]);
                    assert(out@ =~= mid + enc_entries(t));
                } else {
                    assert(out@ =~= mid + enc_entries(t));
                }
            }
            j += 1;
        }
        proof {
            assert(self@.entries.take(m as int) =~= self@.entries);
        }
        out.append("]}");
        proof {
            assert(out@ =~= enc_stream(self@));
        }
        out
    }
}

impl Streams {
    /// The whole push envelope, exactly as the push endpoint expects it.
    pub fn to_json(&self) -> (r: String)
        ensures
            r@ == enc_streams(self@),
    {
        let mut out = String::new();
        out.append("{\"streams\":[");
        let ghost head = out@;
        let n = self.streams.len();
        let mut i: usize = 0;
        while i < n
            invariant
                n == self.streams@.len(),
                i <= n,
                out@ == head + enc_stream_seq(self@.take(i as int)),
            decreases n - i,
        {
            if i > 0 {
                out.append(",");
            }
            let sj = self.streams[i].to_json();
            out.append(sj.as_str());
            proof {
                let t = self@.take(i + 1 as int);
                assert(t.drop_last() =~= self@.take(i as int));
                assert(t.last() == self@[i as int]);
                assert(self@[i as int] == self.streams@[i as int]@);
                if i == 0 {
                    assert(self@.take(0int) =~= Seq::<StreamView>::empty());
                    assert(t =~= seq![self@[0int]]);
                    assert(out@ =~= head + enc_stream_seq(t));
                } else {
                    assert(out@ =~= head + enc_stream_seq(t));
                }
            }
            i += 1;
        }
        proof {
            assert(self@.take(n as int) =~= self@);
        }
        out.append("]}");
        proof {
            assert(out@ =~= enc_streams(self@));
        }
        out
    }
}

} // verus!
