//! Building blocks for the textual sections of the persisted formats:
//! decimal numbers and escaped strings as JSON bytes, with writers and
//! canonical-input parsers that invert them exactly.

use vstd::prelude::*;
use vstd::string::StringSliceAdditionalSpecFns;

verus! {

/// The byte is an ASCII decimal digit.
pub open spec fn is_digit(b: u8) -> bool {
    48 <= b <= 57
}

/// Decimal digits of a non-negative number, most significant first.
pub open spec fn dec_digits(v: int) -> Seq<u8>
    recommends
        v >= 0,
    decreases v,
{
    if v < 10 {
        seq![(48 + v) as u8]
    } else {
        dec_digits(v / 10).push((48 + v % 10) as u8)
    }
}

/// Value of a sequence of decimal digits.
pub open spec fn dec_value(s: Seq<u8>) -> int
    decreases s.len(),
{
    if s.len() == 0 {
        0
    } else {
        dec_value(s.drop_last()) * 10 + (s.last() - 48)
    }
}

/// A number's decimal digits are digits, there is at least one, and only
/// zero starts with a zero digit.
pub proof fn lemma_dec_digits_shape(v: int)
    requires
        0 <= v,
    ensures
        dec_digits(v).len() >= 1,
        forall|i: int| 0 <= i < dec_digits(v).len() ==> is_digit(#[trigger] dec_digits(v)[i]),
        v > 0 ==> dec_digits(v)[0] != 48,
    decreases v,
{
    if v >= 10 {
        lemma_dec_digits_shape(v / 10);
    }
}

/// Reading back a number's decimal digits yields the number.
pub proof fn lemma_dec_value_of_digits(v: int)
    requires
        0 <= v,
    ensures
        dec_value(dec_digits(v)) == v,
    decreases v,
{
    if v < 10 {
        let b = (48 + v) as u8;
        assert(dec_digits(v) =~= seq![b]);
        assert(seq![b].drop_last() =~= Seq::<u8>::empty());
        assert(dec_value(seq![b]) == dec_value(seq![b].drop_last()) * 10 + (seq![b].last() - 48));
        assert(dec_value(dec_digits(v)) == v);
    } else {
        lemma_dec_value_of_digits(v / 10);
        assert(dec_digits(v).drop_last() =~= dec_digits(v / 10));
    }
}

/// The value of a digit-prefix never exceeds the whole number's value.
pub proof fn lemma_dec_prefix_le(v: int, k: int)
    requires
        0 <= v,
        0 <= k <= dec_digits(v).len(),
    ensures
        0 <= dec_value(dec_digits(v).subrange(0, k)) <= v,
    decreases dec_digits(v).len() - k,
{
    lemma_dec_digits_shape(v);
    lemma_dec_value_of_digits(v);
    if k == dec_digits(v).len() {
        assert(dec_digits(v).subrange(0, k) =~= dec_digits(v));
        lemma_dec_value_nonneg(dec_digits(v));
    } else {
        lemma_dec_prefix_le(v, k + 1);
        assert(dec_digits(v).subrange(0, k + 1).drop_last() =~= dec_digits(v).subrange(0, k));
        let p = dec_value(dec_digits(v).subrange(0, k));
        let d = dec_digits(v)[k];
        assert(dec_value(dec_digits(v).subrange(0, k + 1)) == p * 10 + (d - 48));
        lemma_dec_value_nonneg(dec_digits(v).subrange(0, k));
        assert(p <= p * 10) by (nonlinear_arith)
            requires
                p >= 0,
        ;
    }
}

/// A digit sequence's value is non-negative when all entries are digits.
pub proof fn lemma_dec_value_nonneg(s: Seq<u8>)
    requires
        forall|i: int| 0 <= i < s.len() ==> is_digit(#[trigger] s[i]),
    ensures
        dec_value(s) >= 0,
    decreases s.len(),
{
    if s.len() > 0 {
        lemma_dec_value_nonneg(s.drop_last());
        assert(dec_value(s.drop_last()) * 10 >= 0) by (nonlinear_arith)
            requires
                dec_value(s.drop_last()) >= 0,
        ;
    }
}

/// Appending one digit to a digit-prefix of the input.
proof fn lemma_dec_value_step(s: Seq<u8>, a: int, j: int)
    requires
        0 <= a <= j < s.len(),
    ensures
        dec_value(s.subrange(a, j + 1)) == dec_value(s.subrange(a, j)) * 10 + (s[j] - 48),
{
    assert(s.subrange(a, j + 1).drop_last() =~= s.subrange(a, j));
}

/// Append the decimal digits of `v`.
pub fn write_u64(out: &mut Vec<u8>, v: u64)
    ensures
        final(out)@ == old(out)@ + dec_digits(v as int),
    decreases v,
{
    if v < 10 {
        out.push(48 + (v as u8));
        proof {
            assert(final(out)@ =~= old(out)@ + dec_digits(v as int));
        }
    } else {
        write_u64(out, v / 10);
        out.push(48 + ((v % 10) as u8));
        proof {
            assert(final(out)@ =~= old(out)@ + dec_digits(v as int));
        }
    }
}

/// The input at `pos` reads as exactly the decimal digits of `v`, with no
/// digit following them.
pub open spec fn starts_with_number(bytes: Seq<u8>, pos: int, v: int) -> bool {
    let d = dec_digits(v);
    &&& pos + d.len() <= bytes.len()
    &&& bytes.subrange(pos, pos + d.len()) == d
    &&& (pos + d.len() == bytes.len() || !is_digit(bytes[pos + d.len()]))
}

/// Parse a canonically written decimal number: on an input that reads as the
/// digits of `v` (and no more), the result is exactly `v` and the position
/// just past its digits.
pub fn parse_u64(bytes: &Vec<u8>, pos: usize) -> (r: Option<(u64, usize)>)
    ensures
        forall|v: u64|
            #[trigger] starts_with_number(bytes@, pos as int, v as int) ==> r == Some(
                (v, (pos + dec_digits(v as int).len()) as usize),
            ),
        r matches Some(p) ==> pos < p.1 <= bytes@.len(),
{
    if pos >= bytes.len() || !(bytes[pos] >= 48 && bytes[pos] <= 57) {
        proof {
            assert forall|v: u64| !starts_with_number(bytes@, pos as int, v as int) by {
                lemma_dec_digits_shape(v as int);
                if pos + dec_digits(v as int).len() <= bytes@.len() && bytes@.subrange(
                    pos as int,
                    pos + dec_digits(v as int).len(),
                ) == dec_digits(v as int) {
                    assert(bytes@[pos as int] == dec_digits(v as int)[0]);
                }
            }
        }
        return None;
    }
    if bytes[pos] == 48 {
        // A canonical leading zero is the whole number.
        proof {
            assert forall|v: u64| starts_with_number(bytes@, pos as int, v as int) implies Some((
                0u64,
                (pos + 1) as usize,
            )) == Some((v, (pos + dec_digits(v as int).len()) as usize)) by {
                lemma_dec_digits_shape(v as int);
                assert(bytes@[pos as int] == dec_digits(v as int)[0]);
                assert(v == 0) by {
                    if v > 0 {
                        assert(dec_digits(v as int)[0] != 48);
                    }
                }
                assert(dec_digits(0int) =~= seq![48u8]);
            }
        }
        return Some((0, pos + 1));
    }

    let mut acc: u64 = 0;
    let mut j: usize = pos;
    while j < bytes.len() && bytes[j] >= 48 && bytes[j] <= 57
        invariant
            pos <= j <= bytes@.len(),
            forall|i: int| pos <= i < j ==> is_digit(#[trigger] bytes@[i]),
            acc == dec_value(bytes@.subrange(pos as int, j as int)),
            bytes@[pos as int] != 48,
            pos < bytes@.len() && is_digit(bytes@[pos as int]),
        decreases bytes@.len() - j,
    {
        let d: u8 = bytes[j] - 48;
        proof {
            lemma_dec_value_step(bytes@, pos as int, j as int);
        }
        let next = match acc.checked_mul(10) {
            Some(m) => m.checked_add(d as u64),
            None => None,
        };
        match next {
            Some(m) => {
                acc = m;
            },
            None => {
                // The run of digits does not fit the machine word; no
                // canonically written number reads this way.
                proof {
                    assert forall|v: u64| !starts_with_number(bytes@, pos as int, v as int) by {
                        if starts_with_number(bytes@, pos as int, v as int) {
                            let d_len = dec_digits(v as int).len() as int;
                            lemma_dec_digits_shape(v as int);
                            lemma_dec_prefix_le(v as int, if j - pos + 1 <= d_len {
                                j - pos + 1
                            } else {
                                d_len
                            });
                            if j - pos + 1 <= d_len {
                                assert(bytes@.subrange(pos as int, j + 1) =~= dec_digits(
                                    v as int,
                                ).subrange(0, j - pos + 1));
                                assert(dec_value(bytes@.subrange(pos as int, j + 1)) <= v);
                            } else {
                                // All of v's digits lie before j, so the byte
                                // at the end of them is a digit, contradicting
                                // canonical termination.
                                assert(j < pos + d_len || is_digit(bytes@[pos + d_len]));
                            }
                        }
                    }
                }
                return None;
            },
        }
        j = j + 1;
    }
    proof {
        assert forall|v: u64| starts_with_number(bytes@, pos as int, v as int) implies Some((
            acc,
            j as usize,
        )) == Some((v, (pos + dec_digits(v as int).len()) as usize)) by {
            let d_len = dec_digits(v as int).len() as int;
            lemma_dec_digits_shape(v as int);
            lemma_dec_value_of_digits(v as int);
            // The loop stopped exactly at the end of v's digits.
            assert(j <= pos + d_len) by {
                if j > pos + d_len {
                    assert(is_digit(bytes@[pos + d_len]) || pos + d_len == bytes@.len());
                }
            }
            assert(j >= pos + d_len) by {
                if j < pos + d_len {
                    assert(dec_digits(v as int)[j - pos] == bytes@[j as int]);
                    assert(is_digit(bytes@[j as int]));
                }
            }
            assert(bytes@.subrange(pos as int, j as int) =~= dec_digits(v as int));
        }
    }
    Some((acc, j))
}

/// Hex digit (lowercase) for a value below 16.
pub open spec fn hex_digit(n: int) -> u8 {
    if n < 10 {
        (48 + n) as u8
    } else {
        (87 + n) as u8
    }
}

/// The byte is a lowercase hexadecimal digit.
pub open spec fn is_hex(b: u8) -> bool {
    is_digit(b) || (97 <= b <= 102)
}

/// Value of a lowercase hexadecimal digit.
pub open spec fn hex_value(b: u8) -> int {
    if b <= 57 {
        b - 48
    } else {
        b - 87
    }
}

/// JSON escape of one byte: quote and backslash escaped, control bytes
/// written as a four-digit escape, everything else kept.
pub open spec fn escape_byte(b: u8) -> Seq<u8> {
    if b == 34 {
        seq![92u8, 34u8]
    } else if b == 92 {
        seq![92u8, 92u8]
    } else if b < 32 {
        seq![92u8, 117u8, 48u8, 48u8, hex_digit(b as int / 16), hex_digit(b as int % 16)]
    } else {
        seq![b]
    }
}

/// JSON escape of a byte string.
pub open spec fn escape_seq(s: Seq<u8>) -> Seq<u8>
    decreases s.len(),
{
    if s.len() == 0 {
        Seq::empty()
    } else {
        escape_byte(s[0]) + escape_seq(s.drop_first())
    }
}

/// Escaping distributes over concatenation.
pub proof fn lemma_escape_seq_concat(a: Seq<u8>, b: Seq<u8>)
    ensures
        escape_seq(a + b) == escape_seq(a) + escape_seq(b),
    decreases a.len(),
{
    if a.len() == 0 {
        assert(a + b =~= b);
        assert(escape_seq(a) + escape_seq(b) =~= escape_seq(b));
    } else {
        lemma_escape_seq_concat(a.drop_first(), b);
        assert((a + b).drop_first() =~= a.drop_first() + b);
        assert((a + b)[0] == a[0]);
        assert(escape_byte(a[0]) + (escape_seq(a.drop_first()) + escape_seq(b)) =~= (escape_byte(
            a[0],
        ) + escape_seq(a.drop_first())) + escape_seq(b));
    }
}

/// Escaping a single byte is that byte's escape.
proof fn lemma_escape_seq_single(b: u8)
    ensures
        escape_seq(seq![b]) == escape_byte(b),
{
    assert(seq![b].len() == 1);
    assert(seq![b][0] == b);
    assert(escape_seq(seq![b]) == escape_byte(b) + escape_seq(seq![b].drop_first()));
    assert(seq![b].drop_first() =~= Seq::<u8>::empty());
    assert(escape_seq(Seq::<u8>::empty()) == Seq::<u8>::empty());
    assert(escape_byte(b) + Seq::<u8>::empty() =~= escape_byte(b));
}

/// Append one byte's escape.
fn write_escaped_byte(out: &mut Vec<u8>, b: u8)
    ensures
        final(out)@ == old(out)@ + escape_byte(b),
{
    if b == 34 {
        out.push(92);
        out.push(34);
    } else if b == 92 {
        out.push(92);
        out.push(92);
    } else if b < 32 {
        out.push(92);
        out.push(117);
        out.push(48);
        out.push(48);
        let hi = b / 16;
        let lo = b % 16;
        out.push(
            if hi < 10 {
                48 + hi
            } else {
                87 + hi
            },
        );
        out.push(
            if lo < 10 {
                48 + lo
            } else {
                87 + lo
            },
        );
    } else {
        out.push(b);
    }
    proof {
        assert(final(out)@ =~= old(out)@ + escape_byte(b));
    }
}

/// Append a quoted, escaped JSON string.
pub fn write_json_string(out: &mut Vec<u8>, s: &Vec<u8>)
    ensures
        final(out)@ == old(out)@ + seq![34u8] + escape_seq(s@) + seq![34u8],
{
    out.push(34);
    let mut i: usize = 0;
    while i < s.len()
        invariant
            i <= s@.len(),
            out@ == old(out)@ + seq![34u8] + escape_seq(s@.subrange(0, i as int)),
        decreases s@.len() - i,
    {
        proof {
            assert(s@.subrange(0, i as int) + seq![s@[i as int]] =~= s@.subrange(0, i + 1));
            lemma_escape_seq_concat(s@.subrange(0, i as int), seq![s@[i as int]]);
            lemma_escape_seq_single(s@[i as int]);
        }
        write_escaped_byte(out, s[i]);
        proof {
            assert(out@ =~= old(out)@ + seq![34u8] + escape_seq(s@.subrange(0, i + 1)));
        }
        i = i + 1;
    }
    proof {
        assert(s@.subrange(0, s@.len() as int) =~= s@);
    }
    out.push(34);
}

/// Read a JSON string body from the front of `bytes` (the opening quote
/// already consumed): the unescaped content and the number of bytes
/// consumed, including the closing quote.
pub open spec fn unescape(bytes: Seq<u8>) -> Option<(Seq<u8>, int)>
    decreases bytes.len(),
{
    if bytes.len() == 0 {
        None
    } else if bytes[0] == 34 {
        Some((Seq::empty(), 1))
    } else if bytes[0] == 92 {
        if bytes.len() < 2 {
            None
        } else if bytes[1] == 34 || bytes[1] == 92 {
            match unescape(bytes.subrange(2, bytes.len() as int)) {
                Some(t) => Some((seq![bytes[1]] + t.0, 2 + t.1)),
                None => None,
            }
        } else if bytes[1] == 117 {
            if bytes.len() < 6 {
                None
            } else if bytes[2] == 48 && bytes[3] == 48 && is_hex(bytes[4]) && is_hex(bytes[5]) {
                match unescape(bytes.subrange(6, bytes.len() as int)) {
                    Some(t) => Some(
                        (seq![(16 * hex_value(bytes[4]) + hex_value(bytes[5])) as u8] + t.0, 6 + t.1),
                    ),
                    None => None,
                }
            } else {
                None
            }
        } else {
            None
        }
    } else if bytes[0] < 32 {
        None
    } else {
        match unescape(bytes.subrange(1, bytes.len() as int)) {
            Some(t) => Some((seq![bytes[0]] + t.0, 1 + t.1)),
            None => None,
        }
    }
}

/// Law (string round trip): reading back an escaped string followed by its
/// closing quote yields the original bytes and consumes exactly the escape
/// and the quote.
pub proof fn lemma_unescape_escape(s: Seq<u8>, rest: Seq<u8>)
    ensures
        unescape(escape_seq(s) + seq![34u8] + rest) == Some(
            (s, escape_seq(s).len() + 1 as int),
        ),
    decreases s.len(),
{
    let bytes = escape_seq(s) + seq![34u8] + rest;
    if s.len() == 0 {
        assert(bytes =~= seq![34u8] + rest);
        assert(bytes[0] == 34);
    } else {
        lemma_unescape_escape(s.drop_first(), rest);
        let b = s[0];
        let tail = escape_seq(s.drop_first()) + seq![34u8] + rest;
        if b == 34 {
            assert(bytes =~= seq![92u8, 34u8] + tail);
            assert(bytes.subrange(2, bytes.len() as int) =~= tail);
            assert(seq![bytes[1]] + s.drop_first() =~= s);
        } else if b == 92 {
            assert(bytes =~= seq![92u8, 92u8] + tail);
            assert(bytes.subrange(2, bytes.len() as int) =~= tail);
            assert(seq![bytes[1]] + s.drop_first() =~= s);
        } else if b < 32 {
            let hi = hex_digit(b as int / 16);
            let lo = hex_digit(b as int % 16);
            assert(bytes =~= seq![92u8, 117u8, 48u8, 48u8, hi, lo] + tail);
            assert(bytes.subrange(6, bytes.len() as int) =~= tail);
            assert(is_hex(hi) && is_hex(lo));
            assert(16 * hex_value(hi) + hex_value(lo) == b) by {
                assert(hex_value(hi) == b as int / 16 && hex_value(lo) == b as int % 16);
                vstd::arithmetic::div_mod::lemma_fundamental_div_mod(b as int, 16);
            }
            assert(seq![(16 * hex_value(bytes[4]) + hex_value(bytes[5])) as u8] + s.drop_first()
                =~= s);
        } else {
            assert(bytes =~= seq![b] + tail);
            assert(bytes.subrange(1, bytes.len() as int) =~= tail);
            assert(seq![bytes[0]] + s.drop_first() =~= s);
        }
    }
}

/// Parse a JSON string at `pos` (which must hold the opening quote): the
/// unescaped content and the position just past the closing quote, exactly
/// as the specification-level reader dictates.
pub fn parse_json_string(bytes: &Vec<u8>, pos: usize) -> (r: Option<(Vec<u8>, usize)>)
    requires
        pos < bytes@.len(),
    ensures
        r matches Some(p) ==> {
            &&& bytes@[pos as int] == 34
            &&& unescape(bytes@.subrange(pos + 1, bytes@.len() as int)) matches Some(t) && p.0@
                == t.0 && p.1 == pos + 1 + t.1
            &&& pos < p.1 <= bytes@.len()
        },
        r is None ==> (bytes@[pos as int] != 34 || unescape(
            bytes@.subrange(pos + 1, bytes@.len() as int),
        ) is None),
{
    if bytes[pos] != 34 {
        return None;
    }
    let n = bytes.len();
    let ghost whole = bytes@.subrange(pos + 1, bytes@.len() as int);
    let mut acc: Vec<u8> = Vec::new();
    let mut j: usize = pos + 1;
    loop
        invariant
            pos + 1 <= j <= n,
            n == bytes@.len(),
            pos < n,
            bytes@[pos as int] == 34,
            whole == bytes@.subrange(pos + 1, bytes@.len() as int),
            (match unescape(bytes@.subrange(j as int, bytes@.len() as int)) {
                Some(t) => unescape(whole) == Some((acc@ + t.0, (j - pos - 1) + t.1)),
                None => unescape(whole) is None,
            }),
        decreases n - j,
    {
        let ghost tail = bytes@.subrange(j as int, bytes@.len() as int);
        if j >= n {
            proof {
                assert(tail.len() == 0);
            }
            return None;
        }
        let b = bytes[j];
        proof {
            assert(tail[0] == b);
        }
        if b == 34 {
            proof {
                assert(unescape(tail) == Some((Seq::<u8>::empty(), 1int)));
                assert(acc@ + Seq::<u8>::empty() =~= acc@);
            }
            return Some((acc, j + 1));
        } else if b == 92 {
            if j + 1 >= n {
                proof {
                    assert(tail.len() < 2);
                }
                return None;
            }
            let b2 = bytes[j + 1];
            proof {
                assert(tail[1] == b2);
                assert(tail.subrange(2, tail.len() as int) =~= bytes@.subrange(
                    j + 2,
                    bytes@.len() as int,
                ));
            }
            if b2 == 34 || b2 == 92 {
                proof {
                    match unescape(bytes@.subrange(j + 2, bytes@.len() as int)) {
  Some(t) => {
                        assert(unescape(tail) == Some((seq![b2] + t.0, 2 + t.1)));
                        assert((acc@ + seq![b2]) + t.0 =~= acc@ + (seq![b2] + t.0));
                    },
  None => {},
}
                }
                acc.push(b2);
                j = j + 2;
            } else if b2 == 117 {
                if n - j < 6 {
                    proof {
                        assert(tail.len() < 6);
                    }
                    return None;
                }
                let h0 = bytes[j + 2];
                let h1 = bytes[j + 3];
                let h4 = bytes[j + 4];
                let h5 = bytes[j + 5];
                proof {
                    assert(tail[2] == h0 && tail[3] == h1 && tail[4] == h4 && tail[5] == h5);
                    assert(tail.subrange(6, tail.len() as int) =~= bytes@.subrange(
                        j + 6,
                        bytes@.len() as int,
                    ));
                }
                let hex4 = (h4 >= 48 && h4 <= 57) || (h4 >= 97 && h4 <= 102);
                let hex5 = (h5 >= 48 && h5 <= 57) || (h5 >= 97 && h5 <= 102);
                if h0 == 48 && h1 == 48 && hex4 && hex5 {
                    let v4: u8 = if h4 <= 57 {
                        h4 - 48
                    } else {
                        h4 - 87
                    };
                    let v5: u8 = if h5 <= 57 {
                        h5 - 48
                    } else {
                        h5 - 87
                    };
                    let decoded: u8 = 16 * v4 + v5;
                    proof {
                        match unescape(bytes@.subrange(j + 6, bytes@.len() as int)) {
  Some(t) => {
                            assert(unescape(tail) == Some((seq![decoded] + t.0, 6 + t.1)));
                            assert((acc@ + seq![decoded]) + t.0 =~= acc@ + (seq![decoded] + t.0));
                        },
  None => {},
}
                    }
                    acc.push(decoded);
                    j = j + 6;
                } else {
                    return None;
                }
            } else {
                return None;
            }
        } else if b < 32 {
            return None;
        } else {
            proof {
                assert(tail.subrange(1, tail.len() as int) =~= bytes@.subrange(
                    j + 1,
                    bytes@.len() as int,
                ));
                match unescape(bytes@.subrange(j + 1, bytes@.len() as int)) {
  Some(t) => {
                    assert(unescape(tail) == Some((seq![b] + t.0, 1 + t.1)));
                    assert((acc@ + seq![b]) + t.0 =~= acc@ + (seq![b] + t.0));
                },
  None => {},
}
            }
            acc.push(b);
            j = j + 1;
        }
    }
}

/// The input carries exactly `content` at `pos` (and possibly more after
/// it).
pub open spec fn tail_at(bytes: Seq<u8>, pos: int, content: Seq<u8>) -> bool {
    &&& 0 <= pos
    &&& pos + content.len() <= bytes.len()
    &&& bytes.subrange(pos, pos + content.len()) == content
}

/// Carried content splits at any concatenation point.
pub proof fn lemma_tail_split(bytes: Seq<u8>, pos: int, a: Seq<u8>, b: Seq<u8>)
    requires
        tail_at(bytes, pos, a + b),
    ensures
        tail_at(bytes, pos, a),
        tail_at(bytes, pos + a.len(), b),
{
    let ab = a + b;
    let s = bytes.subrange(pos, pos + ab.len());
    assert(bytes.subrange(pos, pos + a.len()) =~= s.subrange(0, a.len() as int));
    assert(ab.subrange(0, a.len() as int) =~= a);
    assert(bytes.subrange(pos + a.len(), pos + a.len() + b.len()) =~= s.subrange(
        a.len() as int,
        ab.len() as int,
    ));
    assert(ab.subrange(a.len() as int, ab.len() as int) =~= b);
}

/// A canonical number followed by a non-digit byte reads as that number.
pub proof fn lemma_number_at(bytes: Seq<u8>, pos: int, v: u64, rest: Seq<u8>)
    requires
        tail_at(bytes, pos, dec_digits(v as int) + rest),
        rest.len() > 0,
        !is_digit(rest[0]),
    ensures
        starts_with_number(bytes, pos, v as int),
{
    let d = dec_digits(v as int);
    lemma_tail_split(bytes, pos, d, rest);
    assert(bytes.subrange(pos + d.len(), pos + d.len() + rest.len())[0] == rest[0]);
}

/// One canonical `key:value` field: the key's bytes, the value's decimal
/// digits, and the separator that follows the field.
pub open spec fn spec_field(key: Seq<u8>, v: u64, sep: u8) -> Seq<u8> {
    key + dec_digits(v as int) + seq![sep]
}

/// The canonical run of `key:value` fields from index `i` on: each field
/// followed by a comma, the last by `last` instead.
#[verifier::opaque]
pub open spec fn json_fields_from(keys: Seq<Seq<u8>>, vals: Seq<u64>, i: int, last: u8) -> Seq<u8>
    recommends
        vals.len() == keys.len(),
    decreases keys.len() - i,
{
    if i < 0 || i >= keys.len() {
        Seq::empty()
    } else {
        spec_field(
            keys[i],
            vals[i],
            if i + 1 == keys.len() {
                last
            } else {
                44u8
            },
        ) + json_fields_from(keys, vals, i + 1, last)
    }
}

/// The byte strings of a run of ASCII keys.
pub open spec fn keys_bytes(keys: Seq<&str>) -> Seq<Seq<u8>> {
    keys.map_values(|s: &str| s.spec_bytes())
}

/// Append a run of `key:value` fields in canonical order: each key, then
/// the value's decimal digits and a comma, the last field followed by
/// `last` instead.
pub fn write_fields(out: &mut Vec<u8>, keys: &Vec<&str>, vals: &Vec<u64>, last: u8)
    requires
        keys@.len() == vals@.len(),
    ensures
        final(out)@ == old(out)@ + json_fields_from(keys_bytes(keys@), vals@, 0, last),
{
    proof {
        reveal(json_fields_from);
    }
    let ghost kb = keys_bytes(keys@);
    let mut i: usize = 0;
    while i < keys.len()
        invariant
            kb == keys_bytes(keys@),
            kb.len() == keys@.len(),
            keys@.len() == vals@.len(),
            i <= keys@.len(),
            out@ + json_fields_from(kb, vals@, i as int, last) == old(out)@ + json_fields_from(
                kb,
                vals@,
                0,
                last,
            ),
        decreases keys@.len() - i,
    {
        let ghost out0 = out@;
        append_literal(out, keys[i]);
        write_u64(out, vals[i]);
        if i + 1 == keys.len() {
            out.push(last);
        } else {
            out.push(44);
        }
        i = i + 1;
        proof {
            reveal(json_fields_from);
            let sep: u8 = if i == keys@.len() {
                last
            } else {
                44u8
            };
            assert(kb[i - 1] == keys@[i - 1].spec_bytes());
            assert(out@ =~= out0 + spec_field(kb[i - 1], vals@[i - 1], sep));
            assert(out@ + json_fields_from(kb, vals@, i as int, last) =~= out0 + json_fields_from(
                kb,
                vals@,
                i - 1,
                last,
            ));
        }
    }
    proof {
        reveal(json_fields_from);
        assert(json_fields_from(kb, vals@, keys@.len() as int, last) =~= Seq::<u8>::empty());
        assert(out@ =~= out@ + json_fields_from(kb, vals@, keys@.len() as int, last));
    }
}

/// What one field of a canonical run pins down: the key's bytes stand at
/// the front, the value's digits follow (terminated by the separator), and
/// the rest of the run follows the separator.
pub proof fn lemma_fields_head(
    bytes: Seq<u8>,
    p: int,
    keys: Seq<Seq<u8>>,
    vals: Seq<u64>,
    i: int,
    last: u8,
)
    requires
        0 <= i < keys.len(),
        vals.len() == keys.len(),
        !is_digit(last),
        tail_at(bytes, p, json_fields_from(keys, vals, i, last)),
    ensures
        ({
            let sep: u8 = if i + 1 == keys.len() {
                last
            } else {
                44u8
            };
            let klen = keys[i].len() as int;
            let dlen = dec_digits(vals[i] as int).len() as int;
            &&& tail_at(bytes, p, keys[i])
            &&& starts_with_number(bytes, p + klen, vals[i] as int)
            &&& p + klen + dlen < bytes.len()
            &&& bytes[p + klen + dlen] == sep
            &&& tail_at(bytes, p + klen + dlen + 1, json_fields_from(keys, vals, i + 1, last))
            &&& json_fields_from(keys, vals, i, last).len() == klen + dlen + 1
                + json_fields_from(keys, vals, i + 1, last).len()
        }),
{
    reveal(json_fields_from);
    let sep: u8 = if i + 1 == keys.len() {
        last
    } else {
        44u8
    };
    let d = dec_digits(vals[i] as int);
    let klen = keys[i].len() as int;
    let dlen = d.len() as int;
    let rest = json_fields_from(keys, vals, i + 1, last);
    let fld = spec_field(keys[i], vals[i], sep);
    assert(json_fields_from(keys, vals, i, last) == fld + rest);
    lemma_tail_split(bytes, p, fld, rest);
    assert(fld =~= keys[i] + (d + seq![sep]));
    lemma_tail_split(bytes, p, keys[i], d + seq![sep]);
    lemma_number_at(bytes, p + klen, vals[i], seq![sep]);
    lemma_tail_split(bytes, p + klen, d, seq![sep]);
    assert(bytes.subrange(p + klen + dlen, p + klen + dlen + 1)[0] == sep);
}

/// Parse a run of canonical `key:value` fields at `pos`: each named key
/// followed by a canonical decimal number and a comma, the last field's
/// number followed by `last` instead. On an input that carries exactly that
/// run for some values, the result is exactly those values and the position
/// just past the run.
pub fn parse_fields(bytes: &Vec<u8>, pos: usize, keys: &Vec<&str>, last: u8) -> (r: Option<
    (Vec<u64>, usize),
>)
    requires
        !is_digit(last),
        pos <= bytes@.len(),
    ensures
        r matches Some(t) ==> pos <= t.1 <= bytes@.len() && t.0@.len() == keys@.len(),
        forall|vals: Seq<u64>|
            vals.len() == keys@.len() && #[trigger] tail_at(
                bytes@,
                pos as int,
                json_fields_from(keys_bytes(keys@), vals, 0, last),
            ) ==> (r matches Some(t) && t.0@ == vals && t.1 == pos + json_fields_from(
                keys_bytes(keys@),
                vals,
                0,
                last,
            ).len()),
{
    proof {
        reveal(json_fields_from);
    }
    let ghost kb = keys_bytes(keys@);
    let n = bytes.len();
    let mut out: Vec<u64> = Vec::new();
    let mut p: usize = pos;
    let mut i: usize = 0;
    while i < keys.len()
        invariant
            !is_digit(last),
            kb == keys_bytes(keys@),
            kb.len() == keys@.len(),
            n == bytes@.len(),
            i <= keys@.len(),
            pos <= p <= bytes@.len(),
            out@.len() == i,
            forall|vals: Seq<u64>|
                vals.len() == keys@.len() && #[trigger] tail_at(
                    bytes@,
                    pos as int,
                    json_fields_from(kb, vals, 0, last),
                ) ==> {
                    &&& out@ == vals.subrange(0, i as int)
                    &&& tail_at(bytes@, p as int, json_fields_from(kb, vals, i as int, last))
                    &&& p == pos + json_fields_from(kb, vals, 0, last).len()
                        - json_fields_from(kb, vals, i as int, last).len()
                },
        decreases keys@.len() - i,
    {
        let key: &str = keys[i];
        let sep: u8 = if i + 1 == keys.len() {
            last
        } else {
            44
        };
        let ghost p0 = p as int;
        let ghost i0 = i as int;
        let ghost out0 = out@;

        let q1 = match expect_literal(bytes, p, key) {
            Some(q) => q,
            None => {
                proof {
                    assert forall|vals: Seq<u64>|
                        vals.len() == keys@.len() && #[trigger] tail_at(
                            bytes@,
                            pos as int,
                            json_fields_from(kb, vals, 0, last),
                        ) implies false by {
                        lemma_fields_head(bytes@, p0, kb, vals, i0, last);
                        assert(kb[i0] == keys@[i0].spec_bytes());
                    }
                }
                return None;
            },
        };
        let (v, q2) = match parse_u64(bytes, q1) {
            Some(t) => t,
            None => {
                proof {
                    assert forall|vals: Seq<u64>|
                        vals.len() == keys@.len() && #[trigger] tail_at(
                            bytes@,
                            pos as int,
                            json_fields_from(kb, vals, 0, last),
                        ) implies false by {
                        lemma_fields_head(bytes@, p0, kb, vals, i0, last);
                        assert(kb[i0] == keys@[i0].spec_bytes());
                    }
                }
                return None;
            },
        };
        let q3 = match expect_byte(bytes, q2, sep) {
            Some(q) => q,
            None => {
                proof {
                    assert forall|vals: Seq<u64>|
                        vals.len() == keys@.len() && #[trigger] tail_at(
                            bytes@,
                            pos as int,
                            json_fields_from(kb, vals, 0, last),
                        ) implies false by {
                        lemma_fields_head(bytes@, p0, kb, vals, i0, last);
                        assert(kb[i0] == keys@[i0].spec_bytes());
                    }
                }
                return None;
            },
        };
        out.push(v);
        p = q3;
        i = i + 1;
        proof {
            assert forall|vals: Seq<u64>|
                vals.len() == keys@.len() && #[trigger] tail_at(
                    bytes@,
                    pos as int,
                    json_fields_from(kb, vals, 0, last),
                ) implies {
                &&& out@ == vals.subrange(0, i as int)
                &&& tail_at(bytes@, p as int, json_fields_from(kb, vals, i as int, last))
                &&& p == pos + json_fields_from(kb, vals, 0, last).len() - json_fields_from(
                    kb,
                    vals,
                    i as int,
                    last,
                ).len()
            } by {
                lemma_fields_head(bytes@, p0, kb, vals, i0, last);
                assert(kb[i0] == keys@[i0].spec_bytes());
                assert(v == vals[i0]);
                assert(out@ =~= vals.subrange(0, i as int));
            }
        }
    }
    proof {
        assert forall|vals: Seq<u64>|
            vals.len() == keys@.len() && #[trigger] tail_at(
                bytes@,
                pos as int,
                json_fields_from(kb, vals, 0, last),
            ) implies out@ == vals && p == pos + json_fields_from(kb, vals, 0, last).len() by {
            reveal(json_fields_from);
            assert(vals.subrange(0, keys@.len() as int) =~= vals);
            assert(json_fields_from(kb, vals, keys@.len() as int, last).len() == 0);
        }
    }
    Some((out, p))
}

/// Append the bytes of an ASCII literal.
pub fn append_literal(out: &mut Vec<u8>, s: &str)
    ensures
        final(out)@ == old(out)@ + s.spec_bytes(),
{
    let sb = s.as_bytes();
    let mut i: usize = 0;
    while i < sb.len()
        invariant
            i <= sb@.len(),
            sb@ == s.spec_bytes(),
            out@ == old(out)@ + sb@.subrange(0, i as int),
        decreases sb@.len() - i,
    {
        out.push(sb[i]);
        proof {
            assert(out@ =~= old(out)@ + sb@.subrange(0, i + 1));
        }
        i = i + 1;
    }
    proof {
        assert(sb@.subrange(0, sb@.len() as int) =~= sb@);
    }
}

/// Expect the bytes of an ASCII literal at `pos`: the position just past it
/// exactly when the input carries it there.
pub fn expect_literal(bytes: &Vec<u8>, pos: usize, s: &str) -> (r: Option<usize>)
    ensures
        r matches Some(p) ==> p == pos + s.spec_bytes().len() && p <= bytes@.len() && bytes@.subrange(
            pos as int,
            p as int,
        ) == s.spec_bytes(),
        r is None ==> !(pos + s.spec_bytes().len() <= bytes@.len() && bytes@.subrange(
            pos as int,
            pos + s.spec_bytes().len(),
        ) == s.spec_bytes()),
{
    let sb = s.as_bytes();
    let k = sb.len();
    let n = bytes.len();
    if pos > n || k > n - pos {
        proof {
            assert(pos + s.spec_bytes().len() > bytes@.len());
        }
        return None;
    }
    let mut i: usize = 0;
    while i < k
        invariant
            i <= k,
            k == sb@.len(),
            sb@ == s.spec_bytes(),
            n == bytes@.len(),
            pos + k <= n,
            forall|t: int| 0 <= t < i ==> bytes@[pos + t] == sb@[t],
        decreases k - i,
    {
        if bytes[pos + i] != sb[i] {
            proof {
                assert(bytes@.subrange(pos as int, pos + k) != sb@) by {
                    assert(bytes@.subrange(pos as int, pos + k)[i as int] != sb@[i as int]);
                }
            }
            return None;
        }
        i = i + 1;
    }
    proof {
        assert(bytes@.subrange(pos as int, pos + k) =~= sb@);
    }
    Some(pos + k)
}

/// Expect a single byte at `pos`: the position just past it exactly when the
/// input carries it there.
pub fn expect_byte(bytes: &Vec<u8>, pos: usize, b: u8) -> (r: Option<usize>)
    ensures
        r matches Some(p) ==> p == pos + 1 && p <= bytes@.len() && bytes@[pos as int] == b,
        r is None ==> !(pos < bytes@.len() && bytes@[pos as int] == b),
{
    if pos < bytes.len() && bytes[pos] == b {
        Some(pos + 1)
    } else {
        None
    }
}

} // verus!
