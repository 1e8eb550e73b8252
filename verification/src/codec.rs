//! Text-level building blocks of the wire encoding: quoted strings with
//! escapes, and unsigned decimal numbers.
//!
//! Strings are escaped minimally: `"` as `\"`, `\` as `\\`, and control
//! characters as `\u00` followed by two lowercase hex digits.  Numbers are
//! decimals without sign or leading zeros.  For each form there is a spec
//! of the canonical text, an emitter proved to produce it, and a parser
//! proved to accept exactly it, so the message encodings built on them
//! round-trip.

use vstd::prelude::*;

verus! {

/// Relies on String::push: appends exactly the given character to the end
/// of the string.
#[verifier::external_body]
pub(crate) fn push_char(out: &mut String, c: char)
    ensures
        final(out)@ == old(out)@.push(c),
{
    out.push(c);
}

// ---------------------------------------------------------------------------
// Hex digits (used for control-character escapes)
// ---------------------------------------------------------------------------

/// The lowercase hex digit for a value below 16 (and '0' otherwise).
pub open spec fn hex_lo(d: int) -> char {
    if d == 0 {
        '0'
    } else if d == 1 {
        '1'
    } else if d == 2 {
        '2'
    } else if d == 3 {
        '3'
    } else if d == 4 {
        '4'
    } else if d == 5 {
        '5'
    } else if d == 6 {
        '6'
    } else if d == 7 {
        '7'
    } else if d == 8 {
        '8'
    } else if d == 9 {
        '9'
    } else if d == 10 {
        'a'
    } else if d == 11 {
        'b'
    } else if d == 12 {
        'c'
    } else if d == 13 {
        'd'
    } else if d == 14 {
        'e'
    } else if d == 15 {
        'f'
    } else {
        '0'
    }
}

/// The value of a lowercase hex digit character, or 16 for anything else.
pub open spec fn hex_val(c: char) -> int {
    if c == '0' {
        0
    } else if c == '1' {
        1
    } else if c == '2' {
        2
    } else if c == '3' {
        3
    } else if c == '4' {
        4
    } else if c == '5' {
        5
    } else if c == '6' {
        6
    } else if c == '7' {
        7
    } else if c == '8' {
        8
    } else if c == '9' {
        9
    } else if c == 'a' {
        10
    } else if c == 'b' {
        11
    } else if c == 'c' {
        12
    } else if c == 'd' {
        13
    } else if c == 'e' {
        14
    } else if c == 'f' {
        15
    } else {
        16
    }
}

/// A character is a lowercase hex digit exactly when its value is below 16.
pub open spec fn is_hex_lo(c: char) -> bool {
    hex_val(c) < 16
}

/// The lowercase hex digit for a value below 16, as executable code.
fn hex_char_of(v: u8) -> (c: char)
    requires
        v < 16,
    ensures
        c == hex_lo(v as int),
{
    match v {
        0 => '0',
        1 => '1',
        2 => '2',
        3 => '3',
        4 => '4',
        5 => '5',
        6 => '6',
        7 => '7',
        8 => '8',
        9 => '9',
        10 => 'a',
        11 => 'b',
        12 => 'c',
        13 => 'd',
        14 => 'e',
        _ => 'f',
    }
}

/// The value of a lowercase hex digit character, or 16 for anything else,
/// as executable code.
fn hex_val_of(c: char) -> (r: u8)
    ensures
        r as int == hex_val(c),
{
    match c {
        '0' => 0,
        '1' => 1,
        '2' => 2,
        '3' => 3,
        '4' => 4,
        '5' => 5,
        '6' => 6,
        '7' => 7,
        '8' => 8,
        '9' => 9,
        'a' => 10,
        'b' => 11,
        'c' => 12,
        'd' => 13,
        'e' => 14,
        'f' => 15,
        _ => 16,
    }
}

// ---------------------------------------------------------------------------
// String escaping
// ---------------------------------------------------------------------------

/// The escape of one character in a quoted string.
pub open spec fn esc_char(c: char) -> Seq<char> {
    if c == '"' {
        seq!['\\', '"']
    } else if c == '\\' {
        seq!['\\', '\\']
    } else if (c as u32) < 32 {
        seq!['\\', 'u', '0', '0', hex_lo((c as u32) as int / 16), hex_lo((c as u32) as int % 16)]
    } else {
        seq![c]
    }
}

/// The escape of a whole string: each character escaped in order.
pub open spec fn esc(s: Seq<char>) -> Seq<char>
    decreases s.len(),
{
    if s.len() == 0 {
        Seq::empty()
    } else {
        esc_char(s[0]) + esc(s.skip(1))
    }
}

/// A lowercase hex digit maps back to the value it was made from.
pub proof fn lemma_hex_roundtrip(d: int)
    requires
        0 <= d < 16,
    ensures
        hex_val(hex_lo(d)) == d,
{
}

/// A lowercase hex digit character maps back to itself through its value.
pub proof fn lemma_hex_char_roundtrip(c: char)
    requires
        is_hex_lo(c),
    ensures
        hex_lo(hex_val(c)) == c,
{
}

/// A control character survives the round trip through its code point.
pub proof fn lemma_char_code_roundtrip(c: char)
    requires
        (c as u32) < 32,
    ensures
        ((c as u32) as u8) as char == c,
{
}

/// The escape of a one-character string is that character's escape.
pub proof fn lemma_esc_single(c: char)
    ensures
        esc(seq![c]) == esc_char(c),
{
    assert(seq![c].skip(1) =~= Seq::<char>::empty());
    assert(esc(Seq::<char>::empty()) =~= Seq::<char>::empty());
    assert(esc(seq![c]) =~= esc_char(c) + esc(Seq::<char>::empty()));
    assert(esc_char(c) + Seq::<char>::empty() =~= esc_char(c));
}

/// Escaping distributes over concatenation.
pub proof fn lemma_esc_concat(a: Seq<char>, b: Seq<char>)
    ensures
        esc(a + b) == esc(a) + esc(b),
    decreases a.len(),
{
    if a.len() == 0 {
        assert(a + b =~= b);
        assert(esc(a) + esc(b) =~= esc(b));
    } else {
        assert((a + b).skip(1) =~= a.skip(1) + b);
        lemma_esc_concat(a.skip(1), b);
        assert(esc(a + b) =~= esc(a) + esc(b));
    }
}

/// Escaping one more character appends that character's escape.
pub proof fn lemma_esc_snoc(s: Seq<char>, c: char)
    ensures
        esc(s.push(c)) == esc(s) + esc_char(c),
{
    assert(s.push(c) =~= s + seq![c]);
    lemma_esc_concat(s, seq![c]);
    lemma_esc_single(c);
}

/// Append the escaped form of `s` to `out`.
pub(crate) fn push_escaped(out: &mut String, s: &str)
    ensures
        final(out)@ == old(out)@ + esc(s@),
{
    let n: usize = s.unicode_len();
    let mut k: usize = 0;
    proof {
        assert(out@ =~= old(out)@ + esc(s@.subrange(0, 0)));
    }
    while k < n
        invariant
            n as nat == s@.len(),
            k <= n,
            out@ == old(out)@ + esc(s@.subrange(0, k as int)),
        decreases n - k,
    {
        let c = s.get_char(k);
        let ghost pre = s@.subrange(0, k as int);
        if c == '"' {
            push_char(out, '\\');
            push_char(out, '"');
        } else if c == '\\' {
            push_char(out, '\\');
            push_char(out, '\\');
        } else if (c as u32) < 32 {
            let v: u8 = c as u8;
            push_char(out, '\\');
            push_char(out, 'u');
            push_char(out, '0');
            push_char(out, '0');
            push_char(out, hex_char_of(v / 16));
            push_char(out, hex_char_of(v % 16));
        } else {
            push_char(out, c);
        }
        proof {
            lemma_esc_snoc(pre, c);
            assert(s@.subrange(0, k + 1) =~= pre.push(c));
            assert(out@ =~= old(out)@ + esc(s@.subrange(0, k + 1)));
        }
        k = k + 1;
    }
    proof {
        assert(s@.subrange(0, n as int) =~= s@);
    }
}

// ---------------------------------------------------------------------------
// Quoted-string parsing
// ---------------------------------------------------------------------------

/// The canonical parse of a quoted string body starting at `i`: the decoded
/// characters up to an unescaped closing quote, and the position just after
/// that quote.  Only the exact escapes the encoder produces are accepted.
pub open spec fn sparse_str(s: Seq<char>, i: int) -> Option<(Seq<char>, int)>
    decreases s.len() - i,
{
    if i < 0 || i >= s.len() {
        None
    } else if s[i] == '"' {
        Some((Seq::empty(), i + 1))
    } else if s[i] == '\\' {
        if i + 1 < s.len() && s[i + 1] == '"' {
            match sparse_str(s, i + 2) {
                Some((d, j)) => Some((seq!['"'] + d, j)),
                None => None,
            }
        } else if i + 1 < s.len() && s[i + 1] == '\\' {
            match sparse_str(s, i + 2) {
                Some((d, j)) => Some((seq!['\\'] + d, j)),
                None => None,
            }
        } else if i + 5 < s.len() && s[i + 1] == 'u' && s[i + 2] == '0' && s[i + 3] == '0'
            && is_hex_lo(s[i + 4]) && is_hex_lo(s[i + 5]) && hex_val(s[i + 4]) * 16 + hex_val(
            s[i + 5],
        ) < 32 {
            match sparse_str(s, i + 6) {
                Some((d, j)) => Some(
                    (seq![((hex_val(s[i + 4]) * 16 + hex_val(s[i + 5])) as u8) as char] + d, j),
                ),
                None => None,
            }
        } else {
            None
        }
    } else if (s[i] as u32) >= 32 {
        match sparse_str(s, i + 1) {
            Some((d, j)) => Some((seq![s[i]] + d, j)),
            None => None,
        }
    } else {
        None
    }
}

/// Soundness of string parsing: a successful parse consumed exactly the
/// escape of the decoded string plus the closing quote.
pub proof fn lemma_sparse_str_sound(s: Seq<char>, i: int)
    requires
        0 <= i,
        sparse_str(s, i) is Some,
    ensures
        ({
            let (d, j) = sparse_str(s, i)->Some_0;
            &&& i < j <= s.len()
            &&& s.subrange(i, j) == esc(d).push('"')
        }),
    decreases s.len() - i,
{
    let (d, j) = sparse_str(s, i)->Some_0;
    if s[i] == '"' {
        assert(s.subrange(i, i + 1) =~= esc(Seq::<char>::empty()).push('"'));
    } else if s[i] == '\\' {
        if i + 1 < s.len() && (s[i + 1] == '"' || s[i + 1] == '\\') {
            let (d2, j2) = sparse_str(s, i + 2)->Some_0;
            lemma_sparse_str_sound(s, i + 2);
            lemma_esc_concat(seq![s[i + 1]], d2);
            lemma_esc_single(s[i + 1]);
            assert(s.subrange(i, j) =~= esc_char(s[i + 1]) + esc(d2).push('"'));
            assert(s.subrange(i, j) =~= esc(seq![s[i + 1]] + d2).push('"'));
        } else {
            let hv: int = hex_val(s[i + 4]) * 16 + hex_val(s[i + 5]);
            let c: char = (hv as u8) as char;
            let (d2, j2) = sparse_str(s, i + 6)->Some_0;
            lemma_sparse_str_sound(s, i + 6);
            lemma_esc_concat(seq![c], d2);
            lemma_esc_single(c);
            assert(0 <= hv < 32);
            assert((c as u32) as int == hv);
            assert(hv / 16 == hex_val(s[i + 4]) && hv % 16 == hex_val(s[i + 5])) by {
                vstd::arithmetic::div_mod::lemma_fundamental_div_mod_converse(
                    hv,
                    16,
                    hex_val(s[i + 4]),
                    hex_val(s[i + 5]),
                );
            }
            assert(hex_lo(hv / 16) == s[i + 4] && hex_lo(hv % 16) == s[i + 5]) by {
                lemma_hex_char_roundtrip(s[i + 4]);
                lemma_hex_char_roundtrip(s[i + 5]);
            }
            assert(esc_char(c) =~= seq!['\\', 'u', '0', '0', s[i + 4], s[i + 5]]);
            assert(s.subrange(i, j) =~= esc_char(c) + esc(d2).push('"'));
            assert(s.subrange(i, j) =~= esc(seq![c] + d2).push('"'));
        }
    } else {
        let (d2, j2) = sparse_str(s, i + 1)->Some_0;
        lemma_sparse_str_sound(s, i + 1);
        lemma_esc_concat(seq![s[i]], d2);
        lemma_esc_single(s[i]);
        assert(s.subrange(i, j) =~= esc_char(s[i]) + esc(d2).push('"'));
        assert(s.subrange(i, j) =~= esc(seq![s[i]] + d2).push('"'));
    }
}

/// Completeness of string parsing: wherever the input carries the escape of
/// some string followed by a closing quote, the parse succeeds and returns
/// exactly that string.
pub proof fn lemma_sparse_str_complete(s: Seq<char>, i: int, t: Seq<char>)
    requires
        0 <= i,
        i + esc(t).len() + 1 <= s.len(),
        s.subrange(i, i + esc(t).len() + 1) == esc(t).push('"'),
    ensures
        sparse_str(s, i) == Some((t, i + esc(t).len() + 1)),
    decreases t.len(),
{
    let e = esc(t);
    if t.len() == 0 {
        assert(s.subrange(i, i + 1)[0] == s[i]);
        assert(s[i] == '"');
    } else {
        let c = t[0];
        let ec = esc_char(c);
        let t2 = t.skip(1);
        assert(e == ec + esc(t2));
        assert forall|k: int| 0 <= k < ec.len() implies s[i + k] == #[trigger] ec[k] by {
            assert(s.subrange(i, i + e.len() + 1)[k] == s[i + k]);
            assert((ec + esc(t2))[k] == ec[k]);
            assert(e.push('"')[k] == e[k]);
        }
        let i2 = i + ec.len();
        assert(s.subrange(i2, i2 + esc(t2).len() + 1) =~= esc(t2).push('"')) by {
            assert forall|k: int| 0 <= k < esc(t2).len() + 1 implies s[i2 + k] == esc(t2).push(
                '"',
            )[k] by {
                assert(s.subrange(i, i + e.len() + 1)[ec.len() + k] == s[i2 + k]);
                assert(e.push('"')[ec.len() + k] == esc(t2).push('"')[k]);
            }
        }
        lemma_sparse_str_complete(s, i2, t2);
        if c == '"' {
            assert(ec[0] == '\\' && ec[1] == '"');
            assert(s[i] == '\\' && s[i + 1] == '"');
            assert(seq!['"'] + t2 =~= t);
        } else if c == '\\' {
            assert(ec[0] == '\\' && ec[1] == '\\');
            assert(s[i] == '\\' && s[i + 1] == '\\');
            // the quote-escape branch must not fire: its guard needs s[i+1] == '"'
            assert(s[i + 1] != '"');
            assert(seq!['\\'] + t2 =~= t);
        } else if (c as u32) < 32 {
            let cv: int = (c as u32) as int;
            assert(ec[0] == '\\' && ec[1] == 'u' && ec[2] == '0' && ec[3] == '0');
            assert(ec[4] == hex_lo(cv / 16) && ec[5] == hex_lo(cv % 16));
            assert(s[i] == '\\' && s[i + 1] == 'u' && s[i + 2] == '0' && s[i + 3] == '0');
            assert(s[i + 4] == hex_lo(cv / 16));
            assert(s[i + 5] == hex_lo(cv % 16));
            assert(0 <= cv / 16 < 16 && 0 <= cv % 16 < 16) by {
                vstd::arithmetic::div_mod::lemma_div_pos_is_pos(cv, 16);
                vstd::arithmetic::div_mod::lemma_div_is_ordered_by_denominator(cv, 1, 16);
                vstd::arithmetic::div_mod::lemma_mod_bound(cv, 16);
            }
            lemma_hex_roundtrip(cv / 16);
            lemma_hex_roundtrip(cv % 16);
            assert(hex_val(s[i + 4]) * 16 + hex_val(s[i + 5]) == cv) by {
                vstd::arithmetic::div_mod::lemma_fundamental_div_mod(cv, 16);
            }
            assert(hex_val(s[i + 4]) * 16 + hex_val(s[i + 5]) == cv);
            assert(((hex_val(s[i + 4]) * 16 + hex_val(s[i + 5])) as u8) == ((c as u32) as u8));
            lemma_char_code_roundtrip(c);
            assert(((hex_val(s[i + 4]) * 16 + hex_val(s[i + 5])) as u8) as char == c);
            assert(seq![c] + t2 =~= t);
        } else {
            assert(ec[0] == c);
            assert(s[i] == c);
            assert(s[i] != '"' && s[i] != '\\');
            assert(seq![c] + t2 =~= t);
        }
    }
}

/// Parse a quoted string body starting at `i`, returning the decoded string
/// and the position just after the closing quote.  Succeeds exactly on the
/// canonical escapes the encoder produces.
pub fn parse_jstring(s: &str, i: usize) -> (r: Option<(String, usize)>)
    requires
        i <= s@.len(),
    ensures
        r matches Some((d, j)) ==> sparse_str(s@, i as int) == Some((d@, j as int)) && i < j
            <= s@.len(),
        r is None ==> sparse_str(s@, i as int) is None,
{
    let n: usize = s.unicode_len();
    let mut acc = String::new();
    let mut cur: usize = i;
    loop
        invariant
            i <= cur <= n,
            n as nat == s@.len(),
            sparse_str(s@, i as int) == (match sparse_str(s@, cur as int) {
                Some((d, j)) => Some((acc@ + d, j)),
                None => None::<(Seq<char>, int)>,
            }),
        decreases n - cur,
    {
        if cur >= n {
            return None;
        }
        let c = s.get_char(cur);
        if c == '"' {
            proof {
                assert(acc@ + Seq::<char>::empty() =~= acc@);
            }
            return Some((acc, cur + 1));
        }
        if c == '\\' {
            if n - cur < 2 {
                return None;
            }
            let e = s.get_char(cur + 1);
            if e == '"' {
                let ghost a0 = acc@;
                push_char(&mut acc, '"');
                proof {
                    assert(acc@ =~= a0 + seq!['"']);
                    assert forall|d: Seq<char>| true implies a0 + (seq!['"'] + d) == (a0
                        + seq!['"']) + d by {
                        assert(a0 + (seq!['"'] + d) =~= (a0 + seq!['"']) + d);
                    }
                }
                cur = cur + 2;
            } else if e == '\\' {
                let ghost a0 = acc@;
                push_char(&mut acc, '\\');
                proof {
                    assert(acc@ =~= a0 + seq!['\\']);
                    assert forall|d: Seq<char>| true implies a0 + (seq!['\\'] + d) == (a0
                        + seq!['\\']) + d by {
                        assert(a0 + (seq!['\\'] + d) =~= (a0 + seq!['\\']) + d);
                    }
                }
                cur = cur + 2;
            } else if e == 'u' {
                if n - cur < 6 {
                    return None;
                }
                let z1 = s.get_char(cur + 2);
                let z2 = s.get_char(cur + 3);
                let h1 = s.get_char(cur + 4);
                let h2 = s.get_char(cur + 5);
                let v1 = hex_val_of(h1);
                let v2 = hex_val_of(h2);
                if z1 != '0' || z2 != '0' || v1 >= 16 || v2 >= 16 {
                    return None;
                }
                let v: u8 = v1 * 16 + v2;
                if v >= 32 {
                    return None;
                }
                let dc: char = v as char;
                let ghost a0 = acc@;
                push_char(&mut acc, dc);
                proof {
                    assert(acc@ =~= a0 + seq![dc]);
                    assert forall|d: Seq<char>| true implies a0 + (seq![dc] + d) == (a0 + seq![dc])
                        + d by {
                        assert(a0 + (seq![dc] + d) =~= (a0 + seq![dc]) + d);
                    }
                }
                cur = cur + 6;
            } else {
                return None;
            }
        } else if (c as u32) >= 32 {
            let ghost a0 = acc@;
            push_char(&mut acc, c);
            proof {
                assert(acc@ =~= a0 + seq![c]);
                assert forall|d: Seq<char>| true implies a0 + (seq![c] + d) == (a0 + seq![c])
                    + d by {
                    assert(a0 + (seq![c] + d) =~= (a0 + seq![c]) + d);
                }
            }
            cur = cur + 1;
        } else {
            return None;
        }
    }
}

// ---------------------------------------------------------------------------
// Decimal numbers
// ---------------------------------------------------------------------------

/// The decimal digit character for a value below 10 (and '0' otherwise).
pub open spec fn dec_digit(d: int) -> char {
    if d == 0 {
        '0'
    } else if d == 1 {
        '1'
    } else if d == 2 {
        '2'
    } else if d == 3 {
        '3'
    } else if d == 4 {
        '4'
    } else if d == 5 {
        '5'
    } else if d == 6 {
        '6'
    } else if d == 7 {
        '7'
    } else if d == 8 {
        '8'
    } else if d == 9 {
        '9'
    } else {
        '0'
    }
}

/// The value of a decimal digit character, or 10 for anything else.
pub open spec fn digit_val(c: char) -> int {
    if c == '0' {
        0
    } else if c == '1' {
        1
    } else if c == '2' {
        2
    } else if c == '3' {
        3
    } else if c == '4' {
        4
    } else if c == '5' {
        5
    } else if c == '6' {
        6
    } else if c == '7' {
        7
    } else if c == '8' {
        8
    } else if c == '9' {
        9
    } else {
        10
    }
}

/// A character is a decimal digit exactly when its value is below 10.
pub open spec fn is_digit(c: char) -> bool {
    digit_val(c) < 10
}

/// The canonical decimal representation of a number: no sign, no leading
/// zeros.
pub open spec fn spec_dec(n: nat) -> Seq<char>
    decreases n,
{
    if n < 10 {
        seq![dec_digit(n as int)]
    } else {
        spec_dec(n / 10).push(dec_digit((n % 10) as int))
    }
}

/// The numeric value of a digit sequence, most significant digit first.
pub open spec fn seq_val(ds: Seq<char>) -> int
    decreases ds.len(),
{
    if ds.len() == 0 {
        0
    } else {
        seq_val(ds.drop_last()) * 10 + digit_val(ds.last())
    }
}

/// The end of the maximal run of digit characters starting at `i`.
pub open spec fn digit_run_end(s: Seq<char>, i: int) -> int
    decreases s.len() - i,
{
    if 0 <= i < s.len() && is_digit(s[i]) {
        digit_run_end(s, i + 1)
    } else {
        i
    }
}

/// The canonical parse of an unsigned decimal starting at `i`: the maximal
/// digit run, rejected if it is empty, has a leading zero, or exceeds the
/// 64-bit range.
pub open spec fn sparse_num(s: Seq<char>, i: int) -> Option<(u64, int)> {
    let e = digit_run_end(s, i);
    if e == i {
        None
    } else if s[i] == '0' && e != i + 1 {
        None
    } else if seq_val(s.subrange(i, e)) > u64::MAX {
        None
    } else {
        Some((seq_val(s.subrange(i, e)) as u64, e))
    }
}

/// A decimal digit character maps back to itself through its value.
pub proof fn lemma_digit_char_roundtrip(c: char)
    requires
        is_digit(c),
    ensures
        dec_digit(digit_val(c)) == c,
{
}

/// The value of a one-character digit string is its digit's value.
pub proof fn lemma_val_single(ds: Seq<char>)
    requires
        ds.len() == 1,
    ensures
        seq_val(ds) == digit_val(ds[0]),
{
    assert(ds.drop_last() =~= Seq::<char>::empty());
    assert(seq_val(Seq::<char>::empty()) == 0);
}

/// The decimal representation of `n` is a nonempty digit string without a
/// leading zero (unless it is "0") whose value is `n`.
pub proof fn lemma_dec_props(n: nat)
    ensures
        spec_dec(n).len() >= 1,
        forall|k: int| 0 <= k < spec_dec(n).len() ==> is_digit(#[trigger] spec_dec(n)[k]),
        n >= 10 ==> spec_dec(n)[0] != '0',
        n >= 1 ==> spec_dec(n)[0] != '0',
        seq_val(spec_dec(n)) == n,
    decreases n,
{
    if n < 10 {
        let ds = spec_dec(n);
        lemma_val_single(ds);
        assert(seq_val(ds) == digit_val(dec_digit(n as int)));
    } else {
        let q: nat = n / 10;
        let r: nat = n % 10;
        assert(1 <= q < n && r < 10) by {
            vstd::arithmetic::div_mod::lemma_fundamental_div_mod(n as int, 10);
            vstd::arithmetic::div_mod::lemma_mod_bound(n as int, 10);
        }
        lemma_dec_props(q);
        let a = spec_dec(q);
        let ds = spec_dec(n);
        assert(ds == a.push(dec_digit(r as int)));
        assert(ds.drop_last() =~= a);
        assert(ds.last() == dec_digit(r as int));
        assert(seq_val(ds) == seq_val(a) * 10 + digit_val(dec_digit(r as int)));
        assert(seq_val(ds) == q * 10 + r);
        assert(q * 10 + r == n) by {
            vstd::arithmetic::div_mod::lemma_fundamental_div_mod(n as int, 10);
        }
        assert(ds[0] == a[0]);
        assert forall|k: int| 0 <= k < ds.len() implies is_digit(#[trigger] ds[k]) by {
            if k < a.len() {
                assert(ds[k] == a[k]);
            } else {
                assert(ds[k] == dec_digit(r as int));
            }
        }
    }
}

/// Digit strings have non-negative value.
pub proof fn lemma_val_nonneg(ds: Seq<char>)
    requires
        forall|k: int| 0 <= k < ds.len() ==> is_digit(#[trigger] ds[k]),
    ensures
        seq_val(ds) >= 0,
    decreases ds.len(),
{
    if ds.len() > 0 {
        let a = ds.drop_last();
        assert(forall|k: int| 0 <= k < a.len() ==> #[trigger] a[k] == ds[k]);
        lemma_val_nonneg(a);
    }
}

/// Digit strings without a leading zero have value at least 1.
pub proof fn lemma_val_pos(ds: Seq<char>)
    requires
        ds.len() >= 1,
        forall|k: int| 0 <= k < ds.len() ==> is_digit(#[trigger] ds[k]),
        ds[0] != '0',
    ensures
        seq_val(ds) >= 1,
    decreases ds.len(),
{
    if ds.len() == 1 {
        lemma_val_single(ds);
    } else {
        let a = ds.drop_last();
        assert(forall|k: int| 0 <= k < a.len() ==> #[trigger] a[k] == ds[k]);
        lemma_val_pos(a);
    }
}

/// A nonempty digit string without a leading zero (unless of length one) is
/// the canonical decimal of its own value.
pub proof fn lemma_canonical_digits(ds: Seq<char>)
    requires
        ds.len() >= 1,
        forall|k: int| 0 <= k < ds.len() ==> is_digit(#[trigger] ds[k]),
        ds[0] != '0' || ds.len() == 1,
    ensures
        seq_val(ds) >= 0,
        spec_dec(seq_val(ds) as nat) == ds,
    decreases ds.len(),
{
    lemma_val_nonneg(ds);
    if ds.len() == 1 {
        let v = digit_val(ds[0]);
        lemma_val_single(ds);
        lemma_digit_char_roundtrip(ds[0]);
        assert(spec_dec(v as nat) =~= ds);
    } else {
        let a = ds.drop_last();
        let dv = digit_val(ds.last());
        assert(forall|k: int| 0 <= k < a.len() ==> #[trigger] a[k] == ds[k]);
        lemma_canonical_digits(a);
        lemma_val_pos(a);
        let v = seq_val(ds);
        assert(v == seq_val(a) * 10 + dv);
        assert(v >= 10);
        assert(v / 10 == seq_val(a) && v % 10 == dv) by {
            vstd::arithmetic::div_mod::lemma_fundamental_div_mod_converse(v, 10, seq_val(a), dv);
        }
        assert(dec_digit(dv) == ds.last()) by {
            lemma_digit_char_roundtrip(ds.last());
        }
        assert(spec_dec(v as nat) == spec_dec(seq_val(a) as nat).push(ds.last()));
        assert(spec_dec(v as nat) =~= ds);
    }
}

/// The maximal digit run starting at `i` ends exactly where the digits end.
pub proof fn lemma_run_end(s: Seq<char>, i: int, e: int)
    requires
        0 <= i <= e <= s.len(),
        forall|k: int| i <= k < e ==> is_digit(#[trigger] s[k]),
        e == s.len() || !is_digit(s[e]),
    ensures
        digit_run_end(s, i) == e,
    decreases e - i,
{
    if i < e {
        lemma_run_end(s, i + 1, e);
    }
}

/// The maximal digit run covers at least every known digit prefix.
pub proof fn lemma_run_end_lb(s: Seq<char>, i: int, m: int)
    requires
        0 <= i <= m <= s.len(),
        forall|k: int| i <= k < m ==> is_digit(#[trigger] s[k]),
    ensures
        digit_run_end(s, i) >= m,
    decreases m - i,
{
    lemma_run_digits(s, i);
    if i < m {
        lemma_run_end_lb(s, i + 1, m);
    }
}

/// Every position of the maximal digit run holds a digit, and the run stays
/// within the input.
pub proof fn lemma_run_digits(s: Seq<char>, i: int)
    requires
        0 <= i <= s.len(),
    ensures
        i <= digit_run_end(s, i) <= s.len(),
        forall|k: int| i <= k < digit_run_end(s, i) ==> is_digit(#[trigger] s[k]),
    decreases s.len() - i,
{
    if 0 <= i < s.len() && is_digit(s[i]) {
        lemma_run_digits(s, i + 1);
    }
}

/// Extending a digit string with more digits never decreases its value.
pub proof fn lemma_val_mono(s: Seq<char>, i: int, j: int, e: int)
    requires
        0 <= i <= j <= e <= s.len(),
        forall|k: int| i <= k < e ==> is_digit(#[trigger] s[k]),
    ensures
        seq_val(s.subrange(i, e)) >= seq_val(s.subrange(i, j)),
    decreases e - j,
{
    if j < e {
        lemma_val_mono(s, i, j, e - 1);
        let a = s.subrange(i, e - 1);
        let b = s.subrange(i, e);
        assert(b.drop_last() =~= a);
        assert(forall|k: int| 0 <= k < a.len() ==> #[trigger] a[k] == s[i + k]);
        lemma_val_nonneg(a);
        assert(seq_val(b) == seq_val(a) * 10 + digit_val(b.last()));
    }
}

/// Completeness of number parsing: wherever the input carries the canonical
/// decimal of `n` followed by a non-digit (or the end), the parse succeeds
/// and returns exactly `n`.
pub proof fn lemma_sparse_num_complete(s: Seq<char>, i: int, n: u64)
    requires
        0 <= i,
        i + spec_dec(n as nat).len() <= s.len(),
        s.subrange(i, i + spec_dec(n as nat).len()) == spec_dec(n as nat),
        i + spec_dec(n as nat).len() == s.len() || !is_digit(s[i + spec_dec(n as nat).len()]),
    ensures
        sparse_num(s, i) == Some((n, i + spec_dec(n as nat).len())),
{
    let ds = spec_dec(n as nat);
    let e = i + ds.len();
    lemma_dec_props(n as nat);
    assert forall|k: int| i <= k < e implies is_digit(#[trigger] s[k]) by {
        assert(s.subrange(i, e)[k - i] == s[k]);
        assert(ds[k - i] == s[k]);
    }
    lemma_run_end(s, i, e);
    assert(s.subrange(i, e) == ds);
    assert(seq_val(s.subrange(i, e)) == n);
    assert(s[i] == ds[0]) by {
        assert(s.subrange(i, e)[0] == s[i]);
    }
    if s[i] == '0' {
        assert(n == 0);
        assert(ds.len() == 1);
    }
}

/// Soundness of number parsing: a successful parse consumed exactly the
/// canonical decimal of the returned value.
pub proof fn lemma_sparse_num_sound(s: Seq<char>, i: int, n: u64, j: int)
    requires
        0 <= i <= s.len(),
        sparse_num(s, i) == Some((n, j)),
    ensures
        i < j <= s.len(),
        s.subrange(i, j) == spec_dec(n as nat),
{
    let e = digit_run_end(s, i);
    lemma_run_digits(s, i);
    let ds = s.subrange(i, e);
    assert(forall|k: int| 0 <= k < ds.len() ==> is_digit(#[trigger] ds[k])) by {
        assert(forall|k: int|
            0 <= k < ds.len() ==> #[trigger] ds[k] == s[i + k] && is_digit(s[i + k]));
    }
    lemma_canonical_digits(ds);
}

/// The decimal digit character for a value below 10, as executable code.
fn digit_char_of(v: u8) -> (c: char)
    requires
        v < 10,
    ensures
        c == dec_digit(v as int),
{
    match v {
        0 => '0',
        1 => '1',
        2 => '2',
        3 => '3',
        4 => '4',
        5 => '5',
        6 => '6',
        7 => '7',
        8 => '8',
        _ => '9',
    }
}

/// The value of a decimal digit character, or 10 for anything else, as
/// executable code.
fn digit_val_of(c: char) -> (r: u8)
    ensures
        r as int == digit_val(c),
{
    match c {
        '0' => 0,
        '1' => 1,
        '2' => 2,
        '3' => 3,
        '4' => 4,
        '5' => 5,
        '6' => 6,
        '7' => 7,
        '8' => 8,
        '9' => 9,
        _ => 10,
    }
}

/// Append the canonical decimal of `n` to `out`.
pub fn push_u64(out: &mut String, n: u64)
    ensures
        final(out)@ == old(out)@ + spec_dec(n as nat),
    decreases n,
{
    if n < 10 {
        push_char(out, digit_char_of(n as u8));
        proof {
            assert(final(out)@ =~= old(out)@ + spec_dec(n as nat));
        }
    } else {
        push_u64(out, n / 10);
        push_char(out, digit_char_of((n % 10) as u8));
        proof {
            assert((n / 10) as nat == (n as nat) / 10);
            assert((n % 10) as nat == (n as nat) % 10);
            assert(final(out)@ =~= old(out)@ + spec_dec(n as nat));
        }
    }
}

/// Parse an unsigned decimal starting at `i`, returning the value and the
/// position just after the last digit.  Succeeds exactly on nonempty digit
/// runs without a leading zero whose value fits in 64 bits.
pub fn parse_u64(s: &str, i: usize) -> (r: Option<(u64, usize)>)
    requires
        i <= s@.len(),
    ensures
        r matches Some((n, j)) ==> sparse_num(s@, i as int) == Some((n, j as int)) && i < j
            <= s@.len(),
        r is None ==> sparse_num(s@, i as int) is None,
{
    let n_len: usize = s.unicode_len();
    if i >= n_len {
        return None;
    }
    let c0 = s.get_char(i);
    let d0 = digit_val_of(c0);
    if d0 >= 10 {
        return None;
    }
    if c0 == '0' {
        if i + 1 < n_len && digit_val_of(s.get_char(i + 1)) < 10 {
            proof {
                assert forall|k: int| i <= k < i + 2 implies is_digit(#[trigger] s@[k]) by {}
                lemma_run_end_lb(s@, i as int, i + 2);
            }
            return None;
        }
        proof {
            lemma_run_end(s@, i as int, i + 1);
            let sub = s@.subrange(i as int, i + 1);
            lemma_val_single(sub);
            assert(sub[0] == s@[i as int]);
        }
        return Some((0, i + 1));
    }
    let mut val: u64 = d0 as u64;
    let mut j: usize = i + 1;
    proof {
        let sub = s@.subrange(i as int, i + 1);
        lemma_val_single(sub);
        assert(sub[0] == s@[i as int]);
    }
    loop
        invariant
            i < j <= n_len,
            n_len as nat == s@.len(),
            i <= s@.len(),
            s@[i as int] != '0',
            is_digit(s@[i as int]),
            forall|k: int| i <= k < j ==> is_digit(#[trigger] s@[k]),
            val as int == seq_val(s@.subrange(i as int, j as int)),
        ensures
            i < j <= n_len,
            forall|k: int| i <= k < j ==> is_digit(#[trigger] s@[k]),
            val as int == seq_val(s@.subrange(i as int, j as int)),
            j == n_len || !is_digit(s@[j as int]),
        decreases n_len - j,
    {
        if j >= n_len {
            break ;
        }
        let c = s.get_char(j);
        let d = digit_val_of(c);
        if d >= 10 {
            break ;
        }
        if val > (u64::MAX - d as u64) / 10 {
            proof {
                let full = digit_run_end(s@, i as int);
                assert forall|k: int| i <= k < j + 1 implies is_digit(#[trigger] s@[k]) by {}
                lemma_run_end_lb(s@, i as int, j + 1);
                lemma_run_digits(s@, i as int);
                lemma_val_mono(s@, i as int, j + 1, full);
                let b = s@.subrange(i as int, j + 1);
                assert(b.drop_last() =~= s@.subrange(i as int, j as int));
                assert(b.last() == s@[j as int]);
                assert(seq_val(b) == val * 10 + d);
                assert(val * 10 + d > u64::MAX) by (nonlinear_arith)
                    requires
                        val > (u64::MAX - d as u64) / 10,
                        d < 10,
                        u64::MAX - d as u64 >= 0,
                        (u64::MAX - d as u64) / 10 == ((u64::MAX - d as u64) as int) / 10,
                {}
                assert(seq_val(s@.subrange(i as int, full)) > u64::MAX);
                assert(full != i as int);
            }
            return None;
        }
        let ghost old_val = val as int;
        val = val * 10 + d as u64;
        proof {
            let b = s@.subrange(i as int, j + 1);
            assert(b.drop_last() =~= s@.subrange(i as int, j as int));
            assert(b.last() == s@[j as int]);
            assert(val as int == old_val * 10 + d);
        }
        j = j + 1;
    }
    proof {
        lemma_run_end(s@, i as int, j as int);
    }
    Some((val, j))
}

} // verus!
