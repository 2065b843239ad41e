//! Standard Base64 encoding with padding.

use vstd::prelude::*;

verus! {

/// The Base64 alphabet: `A`-`Z`, `a`-`z`, `0`-`9`, `+`, `/`.
pub open spec fn b64_char(v: int) -> char {
    if v < 26 {
        (65 + v) as char
    } else if v < 52 {
        (97 + (v - 26)) as char
    } else if v < 62 {
        (48 + (v - 52)) as char
    } else if v == 62 {
        '+'
    } else {
        '/'
    }
}

/// The four characters for a chunk of one to three bytes, padded with `=`.
pub open spec fn b64_chunk(chunk: Seq<u8>) -> Seq<char> {
    let a = chunk[0] as int;
    let b = if chunk.len() > 1 {
        chunk[1] as int
    } else {
        0
    };
    let c = if chunk.len() > 2 {
        chunk[2] as int
    } else {
        0
    };
    seq![
        b64_char(a / 4),
        b64_char((a % 4) * 16 + b / 16),
        if chunk.len() > 1 {
            b64_char((b % 16) * 4 + c / 64)
        } else {
            '='
        },
        if chunk.len() > 2 {
            b64_char(c % 64)
        } else {
            '='
        },
    ]
}

/// The Base64 encoding of `s`, three bytes to four characters.
pub open spec fn base64(s: Seq<u8>) -> Seq<char>
    decreases s.len(),
{
    if s.len() == 0 {
        seq![]
    } else if s.len() <= 3 {
        b64_chunk(s)
    } else {
        b64_chunk(s.take(3)) + base64(s.skip(3))
    }
}

fn b64_digit(v: u8) -> (c: char)
    requires
        v < 64,
    ensures
        c == b64_char(v as int),
{
    if v < 26 {
        (65 + v) as char
    } else if v < 52 {
        (97 + (v - 26)) as char
    } else if v < 62 {
        (48 + (v - 52)) as char
    } else if v == 62 {
        '+'
    } else {
        '/'
    }
}

/// Encodes `input` in standard Base64 with `=` padding.
pub fn base64_encode(input: &[u8]) -> (output: String)
    ensures
        output@ == base64(input@),
{
    let mut output = String::new();
    let mut i: usize = 0;
    assert(input@.skip(0) =~= input@);
    assert(output@ + base64(input@) =~= base64(input@));
    while i < input.len()
        invariant
            i <= input.len(),
            base64(input@) == output@ + base64(input@.skip(i as int)),
        decreases input.len() - i,
    {
        let rest = input.len() - i;
        let first = input[i];
        let second = if rest > 1 {
            input[i + 1]
        } else {
            0
        };
        let third = if rest > 2 {
            input[i + 2]
        } else {
            0
        };
        let ghost tail = input@.skip(i as int);
        let ghost chunk = if tail.len() <= 3 {
            tail
        } else {
            tail.take(3)
        };
        assert(chunk[0] == first);
        assert(rest > 1 ==> chunk[1] == second);
        assert(rest > 2 ==> chunk[2] == third);
        output.push(b64_digit(first / 4));
        output.push(b64_digit((first % 4) * 16 + second / 16));
        if rest > 1 {
            output.push(b64_digit((second % 16) * 4 + third / 64));
        } else {
            output.push('=');
        }
        if rest > 2 {
            output.push(b64_digit(third % 64));
        } else {
            output.push('=');
        }
        if rest > 3 {
            assert(tail.skip(3) =~= input@.skip(i + 3));
            i = i + 3;
        } else {
            assert(input@.skip(input.len() as int) =~= seq![]);
            i = input.len();
        }
    }
    assert(input@.skip(i as int) =~= seq![]);
    output
}

/// Base64 writes four characters for every three bytes or part of three.
pub proof fn base64_length(s: Seq<u8>)
    ensures
        base64(s).len() == 4 * ((s.len() + 2) / 3),
    decreases s.len(),
{
    if s.len() > 3 {
        base64_length(s.skip(3));
    }
}

/// Base64 writes only characters of its alphabet, and `=` for padding.
pub proof fn base64_alphabet(s: Seq<u8>)
    ensures
        forall|i: int|
            0 <= i < base64(s).len() ==> {
                let c = #[trigger] base64(s)[i];
                ('A' <= c && c <= 'Z') || ('a' <= c && c <= 'z') || ('0' <= c && c <= '9') || c == '+'
                    || c == '/' || c == '='
            },
    decreases s.len(),
{
    if s.len() > 3 {
        base64_alphabet(s.skip(3));
    }
    let e = base64(s);
    assert forall|i: int| 0 <= i < e.len() implies {
        let c = #[trigger] e[i];
        ('A' <= c && c <= 'Z') || ('a' <= c && c <= 'z') || ('0' <= c && c <= '9') || c == '+' || c
            == '/' || c == '='
    } by {
        if s.len() > 3 {
            let h = b64_chunk(s.take(3));
            if i < 4 {
                assert(e[i] == h[i]);
            } else {
                assert(e[i] == base64(s.skip(3))[i - 4]);
            }
        }
    }
}

proof fn lemma_b64_char_not_pad(v: int)
    requires
        0 <= v,
    ensures
        b64_char(v) != '=',
{
}

/// `=` appears in Base64 only as the padding that ends it: none when the
/// length is a multiple of three, else two for one byte left over and one
/// for two.
pub proof fn base64_padding(s: Seq<u8>)
    ensures
        forall|k: int|
            0 <= k < base64(s).len() ==> (#[trigger] base64(s)[k] == '=' <==> k >= base64(s).len() - (3
                - s.len() % 3) % 3),
    decreases s.len(),
{
    base64_length(s);
    if s.len() > 0 {
        let chunk = if s.len() <= 3 {
            s
        } else {
            s.take(3)
        };
        let h = b64_chunk(chunk);
        let a = chunk[0] as int;
        let b = if chunk.len() > 1 {
            chunk[1] as int
        } else {
            0
        };
        let c = if chunk.len() > 2 {
            chunk[2] as int
        } else {
            0
        };
        lemma_b64_char_not_pad(a / 4);
        lemma_b64_char_not_pad((a % 4) * 16 + b / 16);
        lemma_b64_char_not_pad((b % 16) * 4 + c / 64);
        lemma_b64_char_not_pad(c % 64);
        assert(h[0] != '=');
        assert(h[1] != '=');
        assert(h[2] == '=' <==> chunk.len() == 1);
        assert(h[3] == '=' <==> chunk.len() <= 2);
        if s.len() > 3 {
            base64_padding(s.skip(3));
            base64_length(s.skip(3));
            let e = base64(s);
            let r = base64(s.skip(3));
            assert(s.skip(3).len() % 3 == s.len() % 3);
            assert forall|k: int| 0 <= k < e.len() implies (#[trigger] e[k] == '=' <==> k >= e.len() - (3
                - s.len() % 3) % 3) by {
                if k < 4 {
                    assert(e[k] == h[k]);
                    assert(r.len() >= 4);
                } else {
                    assert(e[k] == r[k - 4]);
                }
            }
        }
    }
}

/// Base64 of text whose length is a multiple of three, followed by more
/// text, is the Base64 of each part, one after the other.
pub proof fn base64_concatenates(a: Seq<u8>, b: Seq<u8>)
    requires
        a.len() % 3 == 0,
    ensures
        base64(a + b) == base64(a) + base64(b),
    decreases a.len(),
{
    if a.len() == 0 {
        assert(a + b =~= b);
        assert(base64(a) =~= seq![]);
        assert(seq![] + base64(b) =~= base64(b));
    } else {
        let ab = a + b;
        assert(ab.take(3) =~= a.take(3));
        if b.len() == 0 && a.len() == 3 {
            assert(ab =~= a);
            assert(base64(b) =~= seq![]);
            assert(base64(a) + seq![] =~= base64(a));
        } else {
            assert(ab.skip(3) =~= a.skip(3) + b);
            base64_concatenates(a.skip(3), b);
            if a.len() == 3 {
                assert(a.take(3) =~= a);
                assert(a.skip(3) =~= seq![]);
                assert(base64(a.skip(3)) =~= seq![]);
                assert(a.skip(3) + b =~= b);
            } else {
                assert(base64(a) == b64_chunk(a.take(3)) + base64(a.skip(3)));
            }
            assert(base64(ab) == b64_chunk(a.take(3)) + base64(a.skip(3) + b));
            assert(b64_chunk(a.take(3)) + (base64(a.skip(3)) + base64(b)) =~= b64_chunk(a.take(3))
                + base64(a.skip(3)) + base64(b));
        }
    }
}

} // verus!
