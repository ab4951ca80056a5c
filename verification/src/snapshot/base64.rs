//! Base64url without padding (RFC 4648 §5), the text form of snapshot tokens.
//!
//! `b64_encode_bytes` states the alphabet bytes written for a byte string,
//! three bytes to four symbols; `b64_decode` states how a symbol string is
//! read back, four symbols to three bytes, stopping at the first byte outside
//! the alphabet. `lemma_base64_roundtrip` proves that reading back what was
//! written gives the bytes back.
use vstd::prelude::*;
use vstd::string::StringSliceAdditionalSpecFns;
use vstd::utf8::{encode_utf8, is_ascii_chars};

use super::SnapshotError;

verus! {

/// A byte of the base64url alphabet `A-Z a-z 0-9 - _`.
pub open spec fn is_b64_byte(c: u8) -> bool {
    (65 <= c <= 90) || (97 <= c <= 122) || (48 <= c <= 57) || c == 45 || c == 95
}

/// The value (0..64) of an alphabet byte.
pub open spec fn b64_digit(c: u8) -> int {
    if 65 <= c <= 90 {
        c - 65
    } else if 97 <= c <= 122 {
        c - 71
    } else if 48 <= c <= 57 {
        c + 4
    } else if c == 45 {
        62
    } else {
        63
    }
}

/// The alphabet byte of a value in 0..64.
pub open spec fn b64_symbol(v: int) -> u8 {
    if v < 26 {
        (v + 65) as u8
    } else if v < 52 {
        (v + 71) as u8
    } else if v < 62 {
        (v - 4) as u8
    } else if v == 62 {
        45
    } else {
        95
    }
}

/// Alphabet bytes for a byte string: each group of three bytes gives four
/// symbols; a final group of one or two bytes gives two or three.
pub open spec fn b64_encode_bytes(d: Seq<u8>) -> Seq<u8>
    decreases d.len(),
{
    if d.len() == 0 {
        Seq::empty()
    } else if d.len() == 1 {
        seq![b64_symbol(d[0] as int / 4), b64_symbol((d[0] as int % 4) * 16)]
    } else if d.len() == 2 {
        seq![
            b64_symbol(d[0] as int / 4),
            b64_symbol((d[0] as int % 4) * 16 + d[1] as int / 16),
            b64_symbol((d[1] as int % 16) * 4),
        ]
    } else {
        seq![
            b64_symbol(d[0] as int / 4),
            b64_symbol((d[0] as int % 4) * 16 + d[1] as int / 16),
            b64_symbol((d[1] as int % 16) * 4 + d[2] as int / 64),
            b64_symbol(d[2] as int % 64),
        ] + b64_encode_bytes(d.subrange(3, d.len() as int))
    }
}

/// The text `to_base64url` returns: the alphabet bytes as characters.
pub open spec fn b64_encode(d: Seq<u8>) -> Seq<char> {
    b64_encode_bytes(d).map_values(|b: u8| b as char)
}

/// Prefix a successful read with bytes already produced.
pub open spec fn prepend(o: Seq<u8>, r: Result<Seq<u8>, SnapshotError>) -> Result<
    Seq<u8>,
    SnapshotError,
> {
    match r {
        Ok(x) => Ok(o + x),
        Err(e) => Err(e),
    }
}

/// How `from_base64url` reads the bytes of its text: groups of four symbols
/// give three bytes, a final group of two or three symbols gives one or two;
/// the first byte outside the alphabet, in reading order, gives `BadBase64`.
/// (A final group of one valid symbol is where the reader would index past
/// the end; `from_base64url` does not accept such input.)
pub open spec fn b64_decode(s: Seq<u8>) -> Result<Seq<u8>, SnapshotError>
    decreases s.len(),
{
    if s.len() == 0 {
        Ok(Seq::empty())
    } else if !is_b64_byte(s[0]) {
        Err(SnapshotError::BadBase64)
    } else if s.len() == 1 {
        Ok(Seq::empty())
    } else if !is_b64_byte(s[1]) {
        Err(SnapshotError::BadBase64)
    } else if s.len() == 2 {
        Ok(seq![(b64_digit(s[0]) * 4 + b64_digit(s[1]) / 16) as u8])
    } else if !is_b64_byte(s[2]) {
        Err(SnapshotError::BadBase64)
    } else if s.len() == 3 {
        Ok(
            seq![
                (b64_digit(s[0]) * 4 + b64_digit(s[1]) / 16) as u8,
                ((b64_digit(s[1]) % 16) * 16 + b64_digit(s[2]) / 4) as u8,
            ],
        )
    } else if !is_b64_byte(s[3]) {
        Err(SnapshotError::BadBase64)
    } else {
        prepend(
            seq![
                (b64_digit(s[0]) * 4 + b64_digit(s[1]) / 16) as u8,
                ((b64_digit(s[1]) % 16) * 16 + b64_digit(s[2]) / 4) as u8,
                ((b64_digit(s[2]) % 4) * 64 + b64_digit(s[3])) as u8,
            ],
            b64_decode(s.subrange(4, s.len() as int)),
        )
    }
}

/// The input on which the reader indexes past the end: every byte is in the
/// alphabet and one symbol is left over after the groups of four.
pub open spec fn b64_overruns(s: Seq<u8>) -> bool {
    s.len() % 4 == 1 && forall|i: int| 0 <= i < s.len() ==> is_b64_byte(#[trigger] s[i])
}

/// `String::push`: the text afterwards is the text before with `c` added at
/// its end.
#[verifier::external_body]
pub(crate) fn push_char(s: &mut String, c: char)
    ensures
        final(s)@ == old(s)@.push(c),
{
    s.push(c);
}

fn symbol(v: u8) -> (c: u8)
    requires
        v < 64,
    ensures
        c == b64_symbol(v as int),
{
    if v < 26 {
        v + 65
    } else if v < 52 {
        v + 71
    } else if v < 62 {
        v - 4
    } else if v == 62 {
        45
    } else {
        95
    }
}

fn push_symbol(out: &mut String, v: u8)
    requires
        v < 64,
    ensures
        final(out)@ == old(out)@.push(b64_symbol(v as int) as char),
{
    let c = symbol(v);
    push_char(out, c as char);
}

proof fn lemma_encode_step(d: Seq<u8>, i: int)
    requires
        0 <= i < d.len(),
    ensures
        b64_encode_bytes(d.subrange(i, d.len() as int)) == (if d.len() - i == 1 {
            seq![b64_symbol(d[i] as int / 4), b64_symbol((d[i] as int % 4) * 16)]
        } else if d.len() - i == 2 {
            seq![
                b64_symbol(d[i] as int / 4),
                b64_symbol((d[i] as int % 4) * 16 + d[i + 1] as int / 16),
                b64_symbol((d[i + 1] as int % 16) * 4),
            ]
        } else {
            seq![
                b64_symbol(d[i] as int / 4),
                b64_symbol((d[i] as int % 4) * 16 + d[i + 1] as int / 16),
                b64_symbol((d[i + 1] as int % 16) * 4 + d[i + 2] as int / 64),
                b64_symbol(d[i + 2] as int % 64),
            ] + b64_encode_bytes(d.subrange(i + 3, d.len() as int))
        }),
{
    let r = d.subrange(i, d.len() as int);
    if d.len() - i >= 3 {
        assert(r.subrange(3, r.len() as int) =~= d.subrange(i + 3, d.len() as int));
    }
}

/// Encode bytes as base64url text without padding.
pub fn to_base64url(data: &[u8]) -> (r: String)
    ensures
        r@ == b64_encode(data@),
{
    let mut out = String::new();
    let n = data.len();
    let mut i: usize = 0;
    let ghost d = data@;
    proof {
        assert(d.subrange(0, n as int) =~= d);
        assert(out@ + b64_encode_bytes(d).map_values(|b: u8| b as char) =~= b64_encode_bytes(
            d,
        ).map_values(|b: u8| b as char));
    }
    while i < n
        invariant
            n == d.len(),
            d == data@,
            i <= n,
            b64_encode_bytes(d).map_values(|b: u8| b as char) == out@ + b64_encode_bytes(
                d.subrange(i as int, n as int),
            ).map_values(|b: u8| b as char),
        decreases n - i,
    {
        proof {
            lemma_encode_step(d, i as int);
        }
        let ghost before = out@;
        let b0 = data[i];
        let rem = n - i;
        if rem == 1 {
            push_symbol(&mut out, b0 / 4);
            push_symbol(&mut out, (b0 % 4) * 16);
            proof {
                assert(d.subrange(n as int, n as int) =~= Seq::<u8>::empty());
                assert(out@ =~= before + b64_encode_bytes(d.subrange(i as int, n as int)).map_values(
                    |b: u8| b as char,
                ));
            }
            i = n;
        } else if rem == 2 {
            let b1 = data[i + 1];
            push_symbol(&mut out, b0 / 4);
            push_symbol(&mut out, (b0 % 4) * 16 + b1 / 16);
            push_symbol(&mut out, (b1 % 16) * 4);
            proof {
                assert(d.subrange(n as int, n as int) =~= Seq::<u8>::empty());
                assert(out@ =~= before + b64_encode_bytes(d.subrange(i as int, n as int)).map_values(
                    |b: u8| b as char,
                ));
            }
            i = n;
        } else {
            let b1 = data[i + 1];
            let b2 = data[i + 2];
            push_symbol(&mut out, b0 / 4);
            push_symbol(&mut out, (b0 % 4) * 16 + b1 / 16);
            push_symbol(&mut out, (b1 % 16) * 4 + b2 / 64);
            push_symbol(&mut out, b2 % 64);
            proof {
                let g = seq![
                    b64_symbol(b0 as int / 4),
                    b64_symbol((b0 as int % 4) * 16 + b1 as int / 16),
                    b64_symbol((b1 as int % 16) * 4 + b2 as int / 64),
                    b64_symbol(b2 as int % 64),
                ];
                let rest = b64_encode_bytes(d.subrange(i + 3, n as int));
                assert((g + rest).map_values(|b: u8| b as char) =~= g.map_values(|b: u8| b as char)
                    + rest.map_values(|b: u8| b as char));
                assert(out@ =~= before + g.map_values(|b: u8| b as char));
            }
            i = i + 3;
        }
    }
    proof {
        assert(d.subrange(n as int, n as int) =~= Seq::<u8>::empty());
        assert(out@ =~= out@ + Seq::<char>::empty());
    }
    out
}

fn b64val(ch: u8) -> (r: Result<u8, SnapshotError>)
    ensures
        match r {
            Ok(v) => is_b64_byte(ch) && v == b64_digit(ch) && v < 64,
            Err(e) => !is_b64_byte(ch) && e == SnapshotError::BadBase64,
        },
{
    if 65 <= ch && ch <= 90 {
        Ok(ch - 65)
    } else if 97 <= ch && ch <= 122 {
        Ok(ch - 71)
    } else if 48 <= ch && ch <= 57 {
        Ok(ch + 4)
    } else if ch == 45 {
        Ok(62)
    } else if ch == 95 {
        Ok(63)
    } else {
        Err(SnapshotError::BadBase64)
    }
}

/// One step of the reader on the text from position `i`.
proof fn lemma_decode_step(s: Seq<u8>, i: int)
    requires
        0 <= i < s.len(),
    ensures
        b64_decode(s.subrange(i, s.len() as int)) == (if !is_b64_byte(s[i]) {
            Err(SnapshotError::BadBase64)
        } else if s.len() - i == 1 {
            Ok(Seq::empty())
        } else if !is_b64_byte(s[i + 1]) {
            Err(SnapshotError::BadBase64)
        } else if s.len() - i == 2 {
            Ok(seq![(b64_digit(s[i]) * 4 + b64_digit(s[i + 1]) / 16) as u8])
        } else if !is_b64_byte(s[i + 2]) {
            Err(SnapshotError::BadBase64)
        } else if s.len() - i == 3 {
            Ok(
                seq![
                    (b64_digit(s[i]) * 4 + b64_digit(s[i + 1]) / 16) as u8,
                    ((b64_digit(s[i + 1]) % 16) * 16 + b64_digit(s[i + 2]) / 4) as u8,
                ],
            )
        } else if !is_b64_byte(s[i + 3]) {
            Err(SnapshotError::BadBase64)
        } else {
            prepend(
                seq![
                    (b64_digit(s[i]) * 4 + b64_digit(s[i + 1]) / 16) as u8,
                    ((b64_digit(s[i + 1]) % 16) * 16 + b64_digit(s[i + 2]) / 4) as u8,
                    ((b64_digit(s[i + 2]) % 4) * 64 + b64_digit(s[i + 3])) as u8,
                ],
                b64_decode(s.subrange(i + 4, s.len() as int)),
            )
        }),
{
    let r = s.subrange(i, s.len() as int);
    assert(r[0] == s[i]);
    if r.len() >= 2 {
        assert(r[1] == s[i + 1]);
    }
    if r.len() >= 3 {
        assert(r[2] == s[i + 2]);
    }
    if r.len() >= 4 {
        assert(r[3] == s[i + 3]);
        assert(r.subrange(4, r.len() as int) =~= s.subrange(i + 4, s.len() as int));
    }
}

/// Decode base64url text without padding.
pub fn from_base64url(s: &str) -> (r: Result<Vec<u8>, SnapshotError>)
    requires
        !b64_overruns(s.spec_bytes()),
    ensures
        match r {
            Ok(v) => b64_decode(s.spec_bytes()) == Ok::<Seq<u8>, SnapshotError>(v@),
            Err(e) => b64_decode(s.spec_bytes()) == Err::<Seq<u8>, SnapshotError>(e),
        },
{
    let src = s.as_bytes();
    let ghost t = src@;
    let n = src.len();
    let mut out: Vec<u8> = Vec::new();
    let mut i: usize = 0;
    proof {
        assert(t.subrange(0, n as int) =~= t);
        match b64_decode(t) {
            Ok(x) => {
                assert(out@ + x =~= x);
            },
            Err(_) => {},
        }
    }
    while i < n
        invariant
            t == src@,
            t == s.spec_bytes(),
            n == t.len(),
            i <= n,
            !b64_overruns(t),
            i < n ==> i % 4 == 0,
            forall|k: int| 0 <= k < i ==> is_b64_byte(#[trigger] t[k]),
            i < n ==> b64_decode(t) == prepend(out@, b64_decode(t.subrange(i as int, n as int))),
            i >= n ==> b64_decode(t) == Ok::<Seq<u8>, SnapshotError>(out@),
        decreases n - i,
    {
        proof {
            lemma_decode_step(t, i as int);
        }
        let ghost before = out@;
        let ghost rest = t.subrange(i as int, n as int);
        let rem = n - i;
        let a = match b64val(src[i]) {
            Ok(v) => v,
            Err(e) => {
                return Err(e);
            },
        };
        if rem == 1 {
            proof {
                assert forall|k: int| 0 <= k < t.len() implies is_b64_byte(#[trigger] t[k]) by {
                    if k == i {
                        assert(rest[0] == t[k]);
                    }
                }
            }
        }
        let b = match b64val(src[i + 1]) {
            Ok(v) => v,
            Err(e) => {
                return Err(e);
            },
        };
        if rem == 2 {
            out.push(a * 4 + b / 16);
            proof {
                assert(out@ =~= before + seq![(a * 4 + b / 16) as u8]);
            }
            i = n;
        } else {
            let c = match b64val(src[i + 2]) {
                Ok(v) => v,
                Err(e) => {
                    return Err(e);
                },
            };
            if rem == 3 {
                out.push(a * 4 + b / 16);
                out.push((b % 16) * 16 + c / 4);
                proof {
                    assert(out@ =~= before + seq![
                        (a * 4 + b / 16) as u8,
                        ((b % 16) * 16 + c / 4) as u8,
                    ]);
                }
                i = n;
            } else {
                let d = match b64val(src[i + 3]) {
                    Ok(v) => v,
                    Err(e) => {
                        return Err(e);
                    },
                };
                out.push(a * 4 + b / 16);
                out.push((b % 16) * 16 + c / 4);
                out.push((c % 4) * 64 + d);
                proof {
                    let g = seq![
                        (a * 4 + b / 16) as u8,
                        ((b % 16) * 16 + c / 4) as u8,
                        ((c % 4) * 64 + d) as u8,
                    ];
                    assert(out@ =~= before + g);
                    assert forall|k: int| 0 <= k < i + 4 implies is_b64_byte(#[trigger] t[k]) by {
                        if k < i {
                        }
                    }
                    let r2 = t.subrange(i + 4, n as int);
                    assert(prepend(before, prepend(g, b64_decode(r2))) == prepend(
                        before + g,
                        b64_decode(r2),
                    )) by {
                        match b64_decode(r2) {
                            Ok(x) => {
                                assert(before + (g + x) =~= (before + g) + x);
                            },
                            Err(_) => {},
                        }
                    }
                    if i + 4 == n {
                        assert(r2 =~= Seq::<u8>::empty());
                        assert(before + g =~= before + g + Seq::<u8>::empty());
                    }
                }
                i = i + 4;
            }
        }
    }
    Ok(out)
}

// ── Read-back law ────────────────────────────────────────────────────────────

proof fn lemma_symbol(v: int)
    requires
        0 <= v < 64,
    ensures
        is_b64_byte(b64_symbol(v)),
        b64_digit(b64_symbol(v)) == v,
        b64_symbol(v) < 128,
{
}

/// Every written byte is in the alphabet, and no group of one symbol is left.
proof fn lemma_encode_shape(d: Seq<u8>)
    ensures
        b64_encode_bytes(d).len() % 4 != 1,
        forall|i: int|
            0 <= i < b64_encode_bytes(d).len() ==> is_b64_byte(#[trigger] b64_encode_bytes(d)[i])
                && b64_encode_bytes(d)[i] < 128,
    decreases d.len(),
{
    let e = b64_encode_bytes(d);
    if d.len() == 0 {
    } else if d.len() == 1 {
        lemma_symbol(d[0] as int / 4);
        lemma_symbol((d[0] as int % 4) * 16);
    } else if d.len() == 2 {
        lemma_symbol(d[0] as int / 4);
        lemma_symbol((d[0] as int % 4) * 16 + d[1] as int / 16);
        lemma_symbol((d[1] as int % 16) * 4);
    } else {
        let rest = d.subrange(3, d.len() as int);
        lemma_encode_shape(rest);
        lemma_symbol(d[0] as int / 4);
        lemma_symbol((d[0] as int % 4) * 16 + d[1] as int / 16);
        lemma_symbol((d[1] as int % 16) * 4 + d[2] as int / 64);
        lemma_symbol(d[2] as int % 64);
        let g = seq![
            b64_symbol(d[0] as int / 4),
            b64_symbol((d[0] as int % 4) * 16 + d[1] as int / 16),
            b64_symbol((d[1] as int % 16) * 4 + d[2] as int / 64),
            b64_symbol(d[2] as int % 64),
        ];
        assert(e == g + b64_encode_bytes(rest));
        assert forall|i: int| 0 <= i < e.len() implies is_b64_byte(#[trigger] e[i]) && e[i]
            < 128 by {
            if i >= 4 {
                assert(e[i] == b64_encode_bytes(rest)[i - 4]);
            }
        }
    }
}

proof fn lemma_decode_encoded(d: Seq<u8>)
    ensures
        b64_decode(b64_encode_bytes(d)) == Ok::<Seq<u8>, SnapshotError>(d),
    decreases d.len(),
{
    let e = b64_encode_bytes(d);
    if d.len() == 0 {
        assert(d =~= Seq::<u8>::empty());
    } else if d.len() == 1 {
        lemma_symbol(d[0] as int / 4);
        lemma_symbol((d[0] as int % 4) * 16);
        assert(e.len() == 2);
        assert(seq![((d[0] as int / 4) * 4 + ((d[0] as int % 4) * 16) / 16) as u8] =~= d);
        assert(e.len() == 2);
        assert(b64_decode(e) == Ok::<Seq<u8>, SnapshotError>(d));
    } else if d.len() == 2 {
        lemma_symbol(d[0] as int / 4);
        lemma_symbol((d[0] as int % 4) * 16 + d[1] as int / 16);
        lemma_symbol((d[1] as int % 16) * 4);
        let s1 = (d[0] as int % 4) * 16 + d[1] as int / 16;
        assert(s1 / 16 == d[0] as int % 4 && s1 % 16 == d[1] as int / 16);
        assert(seq![
            ((d[0] as int / 4) * 4 + s1 / 16) as u8,
            ((s1 % 16) * 16 + ((d[1] as int % 16) * 4) / 4) as u8,
        ] =~= d);
        assert(e.len() == 3);
        assert(b64_decode(e) == Ok::<Seq<u8>, SnapshotError>(d));
    } else {
        let rest = d.subrange(3, d.len() as int);
        lemma_decode_encoded(rest);
        lemma_encode_shape(rest);
        let s0 = d[0] as int / 4;
        let s1 = (d[0] as int % 4) * 16 + d[1] as int / 16;
        let s2 = (d[1] as int % 16) * 4 + d[2] as int / 64;
        let s3 = d[2] as int % 64;
        lemma_symbol(s0);
        lemma_symbol(s1);
        lemma_symbol(s2);
        lemma_symbol(s3);
        assert(s1 / 16 == d[0] as int % 4 && s1 % 16 == d[1] as int / 16);
        assert(s2 / 4 == d[1] as int % 16 && s2 % 4 == d[2] as int / 64);
        let g = seq![b64_symbol(s0), b64_symbol(s1), b64_symbol(s2), b64_symbol(s3)];
        let er = b64_encode_bytes(rest);
        assert(e == g + er);
        assert(e.subrange(4, e.len() as int) =~= er);
        assert(e[0] == g[0] && e[1] == g[1] && e[2] == g[2] && e[3] == g[3]);
        let bytes = seq![
            (s0 * 4 + s1 / 16) as u8,
            ((s1 % 16) * 16 + s2 / 4) as u8,
            ((s2 % 4) * 64 + s3) as u8,
        ];
        assert(bytes + rest =~= d);
        assert(b64_decode(e) == prepend(bytes, b64_decode(er)));
        assert(b64_decode(e) == Ok::<Seq<u8>, SnapshotError>(d));
    }
}

/// The characters `to_base64url` writes are ASCII, so the bytes of the text
/// are exactly the alphabet bytes.
proof fn lemma_encode_text_bytes(d: Seq<u8>)
    ensures
        encode_utf8(b64_encode(d)) == b64_encode_bytes(d),
{
    let e = b64_encode_bytes(d);
    let c = b64_encode(d);
    lemma_encode_shape(d);
    assert(is_ascii_chars(c)) by {
        assert forall|i: int| 0 <= i < c.len() implies '\0' <= #[trigger] c[i] <= '\u{7f}' by {
            assert(c[i] == e[i] as char);
        }
    }
    vstd::utf8::is_ascii_chars_encode_utf8(c);
    assert forall|i: int| 0 <= i < e.len() implies encode_utf8(c)[i] == e[i] by {
        assert(c[i] == e[i] as char);
        assert(c[i] as u8 == encode_utf8(c)[i]);
    }
    assert(encode_utf8(c) =~= e);
}

/// Reading back written text: for every byte string `d`, the text
/// `to_base64url(d)` is accepted by `from_base64url` and reads back as `d`.
pub proof fn lemma_base64_roundtrip(d: Seq<u8>)
    ensures
        !b64_overruns(encode_utf8(b64_encode(d))),
        b64_decode(encode_utf8(b64_encode(d))) == Ok::<Seq<u8>, SnapshotError>(d),
{
    lemma_encode_text_bytes(d);
    lemma_encode_shape(d);
    lemma_decode_encoded(d);
}

} // verus!
