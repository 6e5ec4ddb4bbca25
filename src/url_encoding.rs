//! The `application/x-www-form-urlencoded` text encoding.
use vstd::prelude::*;
use crate::text::{push_char, to_chars};

verus! {

pub open spec fn is_hex_digit(c: char) -> bool {
    ('0' <= c && c <= '9') || ('a' <= c && c <= 'f') || ('A' <= c && c <= 'F')
}

pub open spec fn hex_value(c: char) -> nat {
    if '0' <= c && c <= '9' {
        (c as u32 - '0' as u32) as nat
    } else if 'a' <= c && c <= 'f' {
        (c as u32 - 'a' as u32 + 10) as nat
    } else {
        (c as u32 - 'A' as u32 + 10) as nat
    }
}

/// `s` with every `+` replaced by a space.
pub open spec fn plus_to_space(s: Seq<char>) -> Seq<char> {
    s.map_values(|c: char| if c == '+' { ' ' } else { c })
}

/// True when `s` starts with `%` and two hex digits that name an ASCII character.
pub open spec fn ascii_escape_at_start(s: Seq<char>) -> bool {
    s.len() >= 3 && s[0] == '%' && is_hex_digit(s[1]) && is_hex_digit(s[2]) && hex_value(s[1]) * 16
        + hex_value(s[2]) < 128
}

/// The character that a well-formed escape at the start of `s` stands for.
pub open spec fn escaped_char(s: Seq<char>) -> char {
    ((hex_value(s[1]) * 16 + hex_value(s[2])) as u8) as char
}

/// Replaces each `%XX` escape of an ASCII character by that character; any other `%`
/// is kept literally together with the (up to two) characters after it.
pub open spec fn percent_decode(s: Seq<char>) -> Seq<char>
    decreases s.len(),
{
    if s.len() == 0 {
        s
    } else if s[0] != '%' {
        seq![s[0]] + percent_decode(s.drop_first())
    } else if ascii_escape_at_start(s) {
        seq![escaped_char(s)] + percent_decode(s.skip(3))
    } else {
        let n = if s.len() < 3 { s.len() as int } else { 3 };
        s.take(n) + percent_decode(s.skip(n))
    }
}

/// Form decoding: `+` becomes a space, then escapes are decoded.
pub open spec fn form_decode(s: Seq<char>) -> Seq<char> {
    percent_decode(plus_to_space(s))
}

/// Characters that form encoding leaves as they are.
pub open spec fn is_unreserved(c: char) -> bool {
    ('0' <= c && c <= '9') || ('a' <= c && c <= 'z') || ('A' <= c && c <= 'Z') || c == '-' || c
        == '.' || c == '_' || c == '*'
}

pub open spec fn hex_digit(n: nat) -> char {
    if n < 10 {
        ((n + '0' as u32) as u8) as char
    } else {
        ((n - 10 + 'A' as u32) as u8) as char
    }
}

/// How form encoding writes one character: unreserved and non-ASCII characters stay,
/// a space becomes `+`, any other ASCII character becomes `%XX`.
pub open spec fn encode_char(c: char) -> Seq<char> {
    if is_unreserved(c) || c as u32 >= 128 {
        seq![c]
    } else if c == ' ' {
        seq!['+']
    } else {
        seq!['%', hex_digit((c as u32 / 16) as nat), hex_digit((c as u32 % 16) as nat)]
    }
}

pub open spec fn form_encode(s: Seq<char>) -> Seq<char>
    decreases s.len(),
{
    if s.len() == 0 {
        s
    } else {
        encode_char(s[0]) + form_encode(s.drop_first())
    }
}

proof fn lemma_hex_digit(n: nat)
    requires
        n < 16,
    ensures
        is_hex_digit(hex_digit(n)),
        hex_value(hex_digit(n)) == n,
        hex_digit(n) != '+',
        hex_digit(n) != '%',
{
}

proof fn lemma_plus_to_space_concat(a: Seq<char>, b: Seq<char>)
    ensures
        plus_to_space(a + b) == plus_to_space(a) + plus_to_space(b),
{
    assert(plus_to_space(a + b) =~= plus_to_space(a) + plus_to_space(b));
}

proof fn lemma_decode_encoded_char(c: char, rest: Seq<char>)
    ensures
        percent_decode(plus_to_space(encode_char(c)) + rest) == seq![c] + percent_decode(rest),
{
    let x = plus_to_space(encode_char(c));
    let s = x + rest;
    if is_unreserved(c) || c as u32 >= 128 {
        assert(x =~= seq![c]);
        assert(s.drop_first() =~= rest);
    } else if c == ' ' {
        assert(x =~= seq![' ']);
        assert(s.drop_first() =~= rest);
    } else {
        let v = c as u32;
        lemma_hex_digit((v / 16) as nat);
        lemma_hex_digit((v % 16) as nat);
        assert(x =~= seq!['%', hex_digit((v / 16) as nat), hex_digit((v % 16) as nat)]);
        assert(s.skip(3) =~= rest);
        assert(hex_value(s[1]) * 16 + hex_value(s[2]) == v);
        assert(((v as u8) as char) == c);
    }
}

/// Decoding what form encoding wrote gives back the original text.
pub proof fn lemma_form_round_trip(s: Seq<char>)
    ensures
        form_decode(form_encode(s)) == s,
    decreases s.len(),
{
    if s.len() > 0 {
        let rest = form_encode(s.drop_first());
        lemma_plus_to_space_concat(encode_char(s[0]), rest);
        lemma_decode_encoded_char(s[0], plus_to_space(rest));
        lemma_form_round_trip(s.drop_first());
        assert(seq![s[0]] + s.drop_first() =~= s);
    } else {
        assert(plus_to_space(s) =~= s);
    }
}

fn hex_digit_value(c: char) -> (r: Option<u32>)
    ensures
        r is Some <==> is_hex_digit(c),
        r is Some ==> r->0 == hex_value(c),
{
    if '0' <= c && c <= '9' {
        Some(c as u32 - '0' as u32)
    } else if 'a' <= c && c <= 'f' {
        Some(c as u32 - 'a' as u32 + 10)
    } else if 'A' <= c && c <= 'F' {
        Some(c as u32 - 'A' as u32 + 10)
    } else {
        None
    }
}

fn hex_digit_char(n: u32) -> (r: char)
    requires
        n < 16,
    ensures
        r == hex_digit(n as nat),
{
    if n < 10 {
        ((n + '0' as u32) as u8) as char
    } else {
        ((n - 10 + 'A' as u32) as u8) as char
    }
}

/// Form encoding and decoding of text.
pub struct URLEncoding {}

impl URLEncoding {
    /// Decodes form-encoded text: `+` becomes a space, and each `%XX` escape of an
    /// ASCII character becomes that character; malformed or non-ASCII escapes are kept.
    pub fn decode(original_string: String) -> (r: String)
        ensures
            r@ == form_decode(original_string@),
    {
        let mut t = to_chars(original_string.as_str());
        let ghost orig = t@;
        let mut k: usize = 0;
        while k < t.len()
            invariant
                k <= t@.len() == orig.len(),
                forall|j: int| 0 <= j < k ==> t@[j] == (if orig[j] == '+' { ' ' } else { orig[j] }),
                forall|j: int| k <= j < t@.len() ==> t@[j] == orig[j],
            decreases t@.len() - k,
        {
            if t[k] == '+' {
                t.set(k, ' ');
            }
            k = k + 1;
        }
        assert(t@ =~= plus_to_space(orig));
        let mut out = String::new();
        let mut i: usize = 0;
        assert(t@.skip(0) =~= t@);
        assert(out@ + percent_decode(t@) =~= percent_decode(t@));
        while i < t.len()
            invariant
                i <= t@.len(),
                percent_decode(t@) == out@ + percent_decode(t@.skip(i as int)),
            decreases t@.len() - i,
        {
            let ghost s = t@.skip(i as int);
            let c = t[i];
            if c != '%' {
                push_char(&mut out, c);
                assert(s.drop_first() =~= t@.skip(i + 1));
                i = i + 1;
            } else {
                let mut decoded: Option<char> = None;
                if t.len() - i >= 3 {
                    match (hex_digit_value(t[i + 1]), hex_digit_value(t[i + 2])) {
                        (Some(hi), Some(lo)) => {
                            if hi * 16 + lo < 128 {
                                decoded = Some(((hi * 16 + lo) as u8) as char);
                            }
                        },
                        _ => {},
                    }
                }
                match decoded {
                    Some(d) => {
                        assert(ascii_escape_at_start(s));
                        push_char(&mut out, d);
                        assert(s.skip(3) =~= t@.skip(i + 3));
                        i = i + 3;
                    },
                    None => {
                        assert(!ascii_escape_at_start(s));
                        let n: usize = if t.len() - i < 3 { t.len() - i } else { 3 };
                        let ghost before = out@;
                        let len = t.len();
                        let mut j: usize = 0;
                        while j < n
                            invariant
                                len == t@.len(),
                                i + n <= t@.len(),
                                j <= n,
                                out@ == before + t@.subrange(i as int, i + j),
                            decreases n - j,
                        {
                            push_char(&mut out, t[i + j]);
                            assert(t@.subrange(i as int, i + j + 1) =~= t@.subrange(i as int, i + j).push(t@[i + j]));
                            j = j + 1;
                        }
                        assert(s.take(n as int) =~= t@.subrange(i as int, i + n));
                        assert(s.skip(n as int) =~= t@.skip(i + n));
                        i = i + n;
                    },
                }
            }
        }
        assert(t@.skip(i as int) =~= Seq::<char>::empty());
        out
    }

    /// Form-encodes text: unreserved and non-ASCII characters are kept, a space becomes
    /// `+`, and any other ASCII character becomes a `%XX` escape.
    pub fn encode(original_string: String) -> (r: String)
        ensures
            r@ == form_encode(original_string@),
    {
        let t = to_chars(original_string.as_str());
        let mut out = String::new();
        let mut k: usize = 0;
        assert(t@.skip(0) =~= t@);
        assert(out@ + form_encode(t@) =~= form_encode(t@));
        while k < t.len()
            invariant
                k <= t@.len(),
                form_encode(t@) == out@ + form_encode(t@.skip(k as int)),
            decreases t@.len() - k,
        {
            let c = t[k];
            let ghost before = out@;
            assert(t@.skip(k as int).drop_first() =~= t@.skip(k + 1));
            if ('0' <= c && c <= '9') || ('a' <= c && c <= 'z') || ('A' <= c && c <= 'Z') || c == '-'
                || c == '.' || c == '_' || c == '*' || c as u32 >= 128 {
                push_char(&mut out, c);
                assert(out@ =~= before + encode_char(c));
            } else if c == ' ' {
                push_char(&mut out, '+');
                assert(out@ =~= before + encode_char(c));
            } else {
                let v = c as u32;
                push_char(&mut out, '%');
                push_char(&mut out, hex_digit_char(v / 16));
                push_char(&mut out, hex_digit_char(v % 16));
                assert(out@ =~= before + encode_char(c));
            }
            assert(out@ + form_encode(t@.skip(k + 1)) =~= before + form_encode(t@.skip(k as int)));
            k = k + 1;
        }
        assert(t@.skip(k as int) =~= Seq::<char>::empty());
        assert(out@ + Seq::<char>::empty() =~= out@);
        out
    }
}

} // verus!
